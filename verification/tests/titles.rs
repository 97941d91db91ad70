use beatport::artists::{
    add_single_names, compare_artists, compare_names, normalize_artists, ArtistAgreement,
};
use beatport::mix::{
    blank_punctuation, compare_mixes, find_telling_words, normalize_punctuation, MixAgreement,
};
use beatport::title::{simplify_query, split_captured, split_title, strip_features};
use beatport::{Beatport, MixType};

fn list(items: &[&str]) -> Vec<String> {
    items.iter().map(|s| s.to_string()).collect()
}

#[test]
fn kinds_of_mixes() {
    assert_eq!(MixType::from_str("Somebody REMIX"), MixType::Remix);
    assert_eq!(MixType::from_str("Somebody Rmx"), MixType::Remix);
    assert_eq!(MixType::from_str("Rework"), MixType::Remix);
    assert_eq!(MixType::from_str("Dub Mix"), MixType::Dub);
    assert_eq!(MixType::from_str("Extended Club Mix"), MixType::Extended);
    assert_eq!(MixType::from_str("Club Mix"), MixType::Club);
    assert_eq!(MixType::from_str("Radio Edit"), MixType::Radio);
    assert_eq!(MixType::from_str("Edit"), MixType::Edit);
    assert_eq!(MixType::from_str("Short Version"), MixType::Edit);
    assert_eq!(MixType::from_str(""), MixType::Original);
    assert_eq!(MixType::from_str("ORIGINAL MIX"), MixType::Original);
    assert_eq!(MixType::from_str("Original"), MixType::Original);
    assert_eq!(MixType::from_str("Orig. Mix"), MixType::Original);
    assert_eq!(MixType::from_str("Live"), MixType::Unknown);
}

#[test]
fn kind_of_a_name_in_lower_case() {
    assert_eq!(MixType::from_lowercase("remix dub extended"), MixType::Remix);
    assert_eq!(MixType::from_lowercase("REMIX"), MixType::Unknown);
    assert_eq!(MixType::from_lowercase("original mix "), MixType::Unknown);
}

#[test]
fn punctuation_is_blanked() {
    assert_eq!(normalize_punctuation("A-B (C) [D], E.F!"), "a b  c   d   e f ");
    assert_eq!(blank_punctuation("A-B"), "A B");
}

#[test]
fn telling_words_leave_out_stopwords_and_repetitions() {
    let words = find_telling_words("john john doe remix vip mix edit version rework dub rmx");
    assert_eq!(words, list(&["john", "doe"]));
}

#[test]
fn same_kinds_agree() {
    assert_eq!(
        compare_mixes(MixType::Radio, "radio edit", MixType::Radio, "radio mix"),
        MixAgreement::Full
    );
    assert_eq!(
        compare_mixes(MixType::Club, "club mix", MixType::Extended, "extended mix"),
        MixAgreement::Full
    );
    assert_eq!(
        compare_mixes(MixType::Extended, "extended mix", MixType::Club, "club mix"),
        MixAgreement::Full
    );
    assert_eq!(
        compare_mixes(MixType::Unknown, "live", MixType::Unknown, "acoustic"),
        MixAgreement::Full
    );
}

#[test]
fn original_and_unknown_agree_loosely() {
    assert_eq!(
        compare_mixes(MixType::Original, "", MixType::Unknown, "live"),
        MixAgreement::Loose
    );
    assert_eq!(
        compare_mixes(MixType::Unknown, "live", MixType::Original, ""),
        MixAgreement::Loose
    );
}

#[test]
fn different_kinds_do_not_agree() {
    assert_eq!(
        compare_mixes(MixType::Radio, "radio edit", MixType::Extended, "extended mix"),
        MixAgreement::Incompatible
    );
    assert_eq!(
        compare_mixes(MixType::Remix, "x remix", MixType::Dub, "x dub"),
        MixAgreement::Incompatible
    );
}

#[test]
fn remixes_agree_by_their_words() {
    assert_eq!(
        compare_mixes(MixType::Remix, "john doe remix", MixType::Remix, "john doe extended remix"),
        MixAgreement::Overlap { shared: 2, total: 3 }
    );
    assert_eq!(
        compare_mixes(MixType::Remix, "john remix", MixType::Remix, "john doe remix"),
        MixAgreement::Overlap { shared: 1, total: 2 }
    );
    assert_eq!(
        compare_mixes(MixType::Remix, "john remix", MixType::Remix, "jane doe remix"),
        MixAgreement::Incompatible
    );
    assert_eq!(
        compare_mixes(MixType::Dub, "dub mix", MixType::Dub, "dub"),
        MixAgreement::Full
    );
}

#[test]
fn mix_agreement_goes_both_ways() {
    let names = ["john remix", "john doe remix", "jane remix"];
    for a in names {
        for b in names {
            assert_eq!(
                compare_mixes(MixType::Remix, a, MixType::Remix, b),
                compare_mixes(MixType::Remix, b, MixType::Remix, a)
            );
        }
        assert_ne!(
            compare_mixes(MixType::Remix, a, MixType::Remix, a),
            MixAgreement::Incompatible
        );
    }
}

#[test]
fn artists_are_split_at_commas() {
    let names = normalize_artists(&list(&["Simon & Garfunkel", "A, B , ,a", ""]));
    assert_eq!(names, list(&["simon and garfunkel", "a", "b"]));
    let mut set = list(&["x"]);
    add_single_names(&mut set, "x, y & z");
    assert_eq!(set, list(&["x", "y and z"]));
}

#[test]
fn artists_agree_by_their_names() {
    let local = list(&["A", "B"]);
    let api = list(&["b", "C"]);
    assert_eq!(compare_artists(true, &local, &api, "t"), ArtistAgreement::Full);
    assert_eq!(
        compare_artists(false, &local, &api, "title"),
        ArtistAgreement::Overlap { shared: 1, total: 3 }
    );
    assert_eq!(
        compare_artists(false, &list(&[]), &list(&[", "]), "title"),
        ArtistAgreement::Nothing
    );
    assert_eq!(
        compare_artists(false, &list(&["A"]), &list(&["B"]), "t"),
        ArtistAgreement::Overlap { shared: 0, total: 2 }
    );
}

#[test]
fn artists_in_the_title_are_rescued() {
    let local = list(&["A"]);
    let api = list(&["A", "Zed"]);
    assert_eq!(
        compare_artists(false, &local, &api, "Song feat. ZED"),
        ArtistAgreement::Overlap { shared: 2, total: 2 }
    );
    assert_eq!(
        compare_names(list(&["q"]), &list(&["zed"]), "song feat. zed"),
        ArtistAgreement::Overlap { shared: 1, total: 2 }
    );
}

#[test]
fn same_artists_in_another_order_agree() {
    assert_eq!(
        compare_artists(false, &list(&["A", "B"]), &list(&["B", "A"]), ""),
        ArtistAgreement::Overlap { shared: 2, total: 2 }
    );
}

#[test]
fn featured_artists_are_stripped() {
    assert_eq!(strip_features("Song feat. Somebody (Club Mix)"), "Song(Club Mix)");
    assert_eq!(strip_features("Song FT Somebody"), "Song");
    assert_eq!(strip_features("Song featuring Somebody else"), "Song");
    assert_eq!(strip_features("Featured Song"), "Featured Song");
    assert_eq!(strip_features(""), "");
}

#[test]
fn titles_are_split_from_their_mixes() {
    let (title, mix) = split_title("Song  (Club Mix)");
    assert_eq!((title.as_str(), mix.as_str()), ("Song", "Club Mix"));
    let (title, mix) = split_title("Song [ Dub ]");
    assert_eq!((title.as_str(), mix.as_str()), ("Song", "Dub"));
    let (title, mix) = split_title("A (B) (C)");
    assert_eq!((title.as_str(), mix.as_str()), ("A (B)", "C"));
    let (title, mix) = split_title(" Song ");
    assert_eq!((title.as_str(), mix.as_str()), ("Song", ""));
    let (title, mix) = split_title("Song (Mix) x");
    assert_eq!((title.as_str(), mix.as_str()), ("Song (Mix) x", ""));
}

#[test]
fn captured_groups_make_up_a_title() {
    let groups = vec![Some("all".to_string()), Some(" a ".to_string()), Some(" b".to_string())];
    let (title, mix) = split_captured(&Some(groups), "ignored");
    assert_eq!((title.as_str(), mix.as_str()), ("a", "b"));
    let (title, mix) = split_captured(&Some(vec![None, None]), "ignored");
    assert_eq!((title.as_str(), mix.as_str()), ("", ""));
}

#[test]
fn queries_are_cleared() {
    assert_eq!(Beatport::clear_search_query("A, B - Song (Club Mix)"), "A B - Song Club Mix");
    assert_eq!(Beatport::clear_search_query("A Song feat. X [Dub]"), "A Song");
    assert_eq!(Beatport::clear_search_query("A Ft.B"), "A B");
    assert_eq!(Beatport::clear_search_query("  "), "");
    assert_eq!(Beatport::clear_search_query("plain song"), "plain song");
}

#[test]
fn plain_queries_have_no_brackets() {
    let query = simplify_query("(a) [b], c ft. d feat e");
    assert_eq!(query, "a  b  c d e");
    for c in ['(', ')', '[', ']', ','] {
        assert!(!query.contains(c));
    }
    assert_eq!(simplify_query("a feat. b"), "a b");
    assert_eq!(simplify_query("a Ft b ft c"), "a b c");
}
