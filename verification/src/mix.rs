//! Mix names: what kind of mix they stand for, and whether two of them agree.
use vstd::prelude::*;
use crate::distinct::{
    count_shared, count_total, insert_text, lemma_pushed_set, lemma_shared_within_total, text_set,
};
use crate::text::{
    contains, lower, lowercase, occurs, same, split_words, to_chars, words,
};

verus! {

/// The kind of a mix.
#[derive(Debug, Clone, Copy, PartialEq, Eq, Structural)]
pub enum MixType {
    Original,
    Extended,
    Club,
    Radio,
    Edit,
    Remix,
    Dub,
    Unknown,
}

/// The kind of mix that a name in lower case stands for. The first word found decides.
pub open spec fn mix_type(m: Seq<char>) -> MixType {
    if occurs(m, "remix"@) || occurs(m, "rmx"@) || occurs(m, "rework"@) {
        MixType::Remix
    } else if occurs(m, "dub"@) {
        MixType::Dub
    } else if occurs(m, "extended"@) {
        MixType::Extended
    } else if occurs(m, "club"@) {
        MixType::Club
    } else if occurs(m, "radio"@) {
        MixType::Radio
    } else if occurs(m, "edit"@) || occurs(m, "short"@) {
        MixType::Edit
    } else if m.len() == 0 || m == "original mix"@ || m == "original"@ || m == "orig. mix"@ {
        MixType::Original
    } else {
        MixType::Unknown
    }
}

impl MixType {
    /// The kind of mix that a name in lower case stands for.
    pub fn from_lowercase(m: &str) -> (r: MixType)
        ensures
            r == mix_type(m@),
    {
        if contains(m, "remix") || contains(m, "rmx") || contains(m, "rework") {
            MixType::Remix
        } else if contains(m, "dub") {
            MixType::Dub
        } else if contains(m, "extended") {
            MixType::Extended
        } else if contains(m, "club") {
            MixType::Club
        } else if contains(m, "radio") {
            MixType::Radio
        } else if contains(m, "edit") || contains(m, "short") {
            MixType::Edit
        } else if m.is_empty() || same(m, "original mix") || same(m, "original") || same(
            m,
            "orig. mix",
        ) {
            MixType::Original
        } else {
            MixType::Unknown
        }
    }

    /// The kind of mix that a name stands for, whatever its case.
    pub fn from_str(s: &str) -> (r: MixType)
        ensures
            r == mix_type(lowercase(s@)),
    {
        MixType::from_lowercase(lower(s).as_str())
    }
}

/// The punctuation that separates words in a mix name.
pub open spec fn is_mix_punctuation(c: char) -> bool {
    c == '(' || c == ')' || c == '[' || c == ']' || c == '-' || c == ',' || c == '.' || c == '!'
}

/// A text with its punctuation blanked out.
pub open spec fn blanked(s: Seq<char>) -> Seq<char> {
    s.map_values(
        |c: char|
            if is_mix_punctuation(c) {
                ' '
            } else {
                c
            },
    )
}

/// A text with its punctuation blanked out.
pub fn blank_punctuation(s: &str) -> (r: String)
    ensures
        r@ == blanked(s@),
{
    let text = to_chars(s);
    let mut r = String::new();
    let mut i: usize = 0;
    while i < text.len()
        invariant
            text@ == s@,
            i <= text@.len(),
            r@ =~= blanked(s@).take(i as int),
        decreases text@.len() - i,
    {
        let c = text[i];
        if c == '(' || c == ')' || c == '[' || c == ']' || c == '-' || c == ',' || c == '.' || c
            == '!' {
            r.push(' ');
        } else {
            r.push(c);
        }
        i = i + 1;
    }
    assert(r@ =~= blanked(s@));
    r
}

/// A mix name in lower case with its punctuation blanked out.
pub fn normalize_punctuation(s: &str) -> (r: String)
    ensures
        r@ == blanked(lowercase(s@)),
{
    blank_punctuation(lower(s).as_str())
}

/// Words that say nothing of who made a mix.
pub open spec fn is_stopword(w: Seq<char>) -> bool {
    ||| w == "remix"@
    ||| w == "rmx"@
    ||| w == "mix"@
    ||| w == "edit"@
    ||| w == "version"@
    ||| w == "vip"@
    ||| w == "rework"@
    ||| w == "dub"@
}

/// The words of a mix name that say who made it.
pub open spec fn telling_words(name: Seq<char>) -> Set<Seq<char>> {
    words(name).to_set().filter(|w: Seq<char>| !is_stopword(w))
}

/// Whether `w` says nothing of who made a mix.
fn stopword(w: &str) -> (r: bool)
    ensures
        r == is_stopword(w@),
{
    same(w, "remix") || same(w, "rmx") || same(w, "mix") || same(w, "edit") || same(w, "version")
        || same(w, "vip") || same(w, "rework") || same(w, "dub")
}

/// The words of a mix name that say who made it, each once.
pub fn find_telling_words(name: &str) -> (r: Vec<String>)
    ensures
        r.deep_view().no_duplicates(),
        text_set(r.deep_view()) == telling_words(name@),
{
    let all = split_words(name);
    let ghost list = words(name@);
    let mut r: Vec<String> = Vec::new();
    let mut i: usize = 0;
    let ghost keep = |w: Seq<char>| !is_stopword(w);
    assert(text_set(r.deep_view()) =~= list.take(0).to_set().filter(keep));
    while i < all.len()
        invariant
            all.deep_view() == list,
            keep == (|w: Seq<char>| !is_stopword(w)),
            i <= all@.len(),
            r.deep_view().no_duplicates(),
            text_set(r.deep_view()) == list.take(i as int).to_set().filter(keep),
        decreases all@.len() - i,
    {
        let ghost w = list[i as int];
        assert(all@[i as int]@ == w);
        proof {
            let before = list.take(i as int);
            assert(list.take(i + 1) =~= before.push(w));
            lemma_pushed_set(before, w);
            assert(before.push(w).to_set().filter(keep) =~= (if keep(w) {
                before.to_set().filter(keep).insert(w)
            } else {
                before.to_set().filter(keep)
            }));
        }
        if !stopword(&all[i]) {
            insert_text(&mut r, all[i].clone());
        }
        i = i + 1;
    }
    assert(list.take(i as int) =~= list);
    r
}

/// How well two mix names agree.
#[derive(Debug, Clone, Copy, PartialEq, Eq, Structural)]
pub enum MixAgreement {
    /// They stand for different mixes.
    Incompatible,
    /// They agree in part: nine parts in ten.
    Loose,
    /// They share `shared` of `total` telling words, at least half.
    Overlap { shared: u128, total: u128 },
    /// They agree.
    Full,
}

/// Two kinds of mix that are taken for the same: equal ones, and a club and an extended mix.
pub open spec fn same_kind(a: MixType, b: MixType) -> bool {
    ||| a == b
    ||| (a == MixType::Club && b == MixType::Extended)
    ||| (a == MixType::Extended && b == MixType::Club)
}

/// How well the mix name of a file and that of a catalogue track agree, given their kinds and
/// their telling words.
pub open spec fn mix_agreement(
    local: MixType,
    api: MixType,
    local_words: Set<Seq<char>>,
    api_words: Set<Seq<char>>,
) -> MixAgreement {
    let shared = local_words.intersect(api_words).len();
    let total = local_words.union(api_words).len();
    if same_kind(local, api) {
        if local == MixType::Remix || local == MixType::Dub {
            if total == 0 {
                MixAgreement::Full
            } else if 2 * shared >= total {
                MixAgreement::Overlap { shared: shared as u128, total: total as u128 }
            } else {
                MixAgreement::Incompatible
            }
        } else {
            MixAgreement::Full
        }
    } else if (local == MixType::Original && api == MixType::Unknown) || (local == MixType::Unknown
        && api == MixType::Original) {
        MixAgreement::Loose
    } else {
        MixAgreement::Incompatible
    }
}

/// How well two normalized mix names agree. Their kinds are given, since the kind of a name is
/// that of its lower case.
pub open spec fn names_agreement(
    local: MixType,
    local_name: Seq<char>,
    api: MixType,
    api_name: Seq<char>,
) -> MixAgreement {
    mix_agreement(local, api, telling_words(local_name), telling_words(api_name))
}

/// How well two normalized mix names of the given kinds agree.
pub fn compare_mixes(local: MixType, local_name: &str, api: MixType, api_name: &str) -> (r:
    MixAgreement)
    ensures
        r == names_agreement(local, local_name@, api, api_name@),
        local != api ==> match r {
            MixAgreement::Full => {
                ||| local == MixType::Club && api == MixType::Extended
                ||| local == MixType::Extended && api == MixType::Club
            },
            MixAgreement::Loose => {
                ||| local == MixType::Original && api == MixType::Unknown
                ||| local == MixType::Unknown && api == MixType::Original
            },
            MixAgreement::Overlap { .. } => false,
            MixAgreement::Incompatible => true,
        },
        r matches MixAgreement::Overlap { shared, total } ==> {
            &&& 0 < total
            &&& shared <= total
            &&& 2 * shared >= total
            &&& shared == telling_words(local_name@).intersect(telling_words(api_name@)).len()
            &&& total == telling_words(local_name@).union(telling_words(api_name@)).len()
        },
{
    if local == api || (local == MixType::Club && api == MixType::Extended) || (local
        == MixType::Extended && api == MixType::Club) {
        if local == MixType::Remix || local == MixType::Dub {
            let a = find_telling_words(local_name);
            let b = find_telling_words(api_name);
            let shared = count_shared(&a, &b) as u128;
            let total = count_total(&a, &b);
            proof {
                vstd::seq_lib::seq_to_set_is_finite(a.deep_view());
                vstd::seq_lib::seq_to_set_is_finite(b.deep_view());
                lemma_shared_within_total(text_set(a.deep_view()), text_set(b.deep_view()));
            }
            if total == 0 {
                MixAgreement::Full
            } else if 2 * shared >= total {
                MixAgreement::Overlap { shared, total }
            } else {
                MixAgreement::Incompatible
            }
        } else {
            MixAgreement::Full
        }
    } else if (local == MixType::Original && api == MixType::Unknown) || (local == MixType::Unknown
        && api == MixType::Original) {
        MixAgreement::Loose
    } else {
        MixAgreement::Incompatible
    }
}

/// It does not matter which of two mix names is the file's and which the catalogue's.
pub proof fn law_mix_agreement_symmetric(
    a: MixType,
    b: MixType,
    a_words: Set<Seq<char>>,
    b_words: Set<Seq<char>>,
)
    ensures
        mix_agreement(a, b, a_words, b_words) == mix_agreement(b, a, b_words, a_words),
{
    assert(a_words.intersect(b_words) =~= b_words.intersect(a_words));
    assert(a_words.union(b_words) =~= b_words.union(a_words));
}

/// A mix name agrees with itself, and where the measure is its telling words, in all of them.
pub proof fn law_mix_agrees_with_itself(kind: MixType, name: Seq<char>)
    ensures
        match names_agreement(kind, name, kind, name) {
            MixAgreement::Full => true,
            MixAgreement::Overlap { shared, total } => shared == total,
            _ => false,
        },
{
    let w = telling_words(name);
    assert(w.intersect(w) =~= w);
    assert(w.union(w) =~= w);
}

/// What makes a mix of each kind: a remix is named as one; a dub is named as one and as no remix;
/// and so on down to the original, which is named so or not at all, and the rest.
pub proof fn law_mix_kinds(m: Seq<char>)
    ensures
        ({
            let remix = occurs(m, "remix"@) || occurs(m, "rmx"@) || occurs(m, "rework"@);
            let dub = occurs(m, "dub"@);
            let extended = occurs(m, "extended"@);
            let club = occurs(m, "club"@);
            let radio = occurs(m, "radio"@);
            let edit = occurs(m, "edit"@) || occurs(m, "short"@);
            let original = m.len() == 0 || m == "original mix"@ || m == "original"@ || m
                == "orig. mix"@;
            let long = extended || club;
            let other = remix || dub || long || radio || edit;
            &&& mix_type(m) == MixType::Remix <==> remix
            &&& mix_type(m) == MixType::Dub <==> dub && !remix
            &&& mix_type(m) == MixType::Extended <==> extended && !remix && !dub
            &&& mix_type(m) == MixType::Club <==> club && !remix && !dub && !extended
            &&& mix_type(m) == MixType::Radio <==> radio && !remix && !dub && !long
            &&& mix_type(m) == MixType::Edit <==> edit && !remix && !dub && !long && !radio
            &&& mix_type(m) == MixType::Original <==> original && !other
            &&& mix_type(m) == MixType::Unknown <==> !original && !other
        }),
{
}

/// Blanking out leaves every character at its place, but for these eight, which become spaces.
pub proof fn law_blanked(s: Seq<char>)
    ensures
        blanked(s).len() == s.len(),
        forall|i: int|
            0 <= i < s.len() ==> {
                let c = s[i];
                let out = c == '(' || c == ')' || c == '[' || c == ']' || c == '-' || c == ',' || c
                    == '.' || c == '!';
                (#[trigger] blanked(s)[i]) == (if out {
                    ' '
                } else {
                    c
                })
            },
{
}

/// The telling words of a mix name are its words but for these eight.
pub proof fn law_telling_words(name: Seq<char>, w: Seq<char>)
    ensures
        telling_words(name).contains(w) <==> {
            &&& words(name).contains(w)
            &&& w != "remix"@ && w != "rmx"@ && w != "mix"@ && w != "edit"@
            &&& w != "version"@ && w != "vip"@ && w != "rework"@ && w != "dub"@
        },
{
}

/// Two mixes of different kinds agree only if one is a club mix and the other an extended mix,
/// fully, or one the original and the other of no known kind, loosely. Any other two, whatever
/// their names, are different mixes.
pub proof fn law_different_kinds(
    a: MixType,
    a_name: Seq<char>,
    b: MixType,
    b_name: Seq<char>,
)
    requires
        a != b,
    ensures
        names_agreement(a, a_name, b, b_name) == (match (a, b) {
            (MixType::Club, MixType::Extended) => MixAgreement::Full,
            (MixType::Extended, MixType::Club) => MixAgreement::Full,
            (MixType::Original, MixType::Unknown) => MixAgreement::Loose,
            (MixType::Unknown, MixType::Original) => MixAgreement::Loose,
            _ => MixAgreement::Incompatible,
        }),
{
}

/// Two mixes of one kind agree fully whatever their names, unless they are remixes or dubs. Those
/// agree as far as they share telling words: fully where neither name has any, not at all where
/// they share less than half of the words of both together, and else to that extent.
pub proof fn law_equal_kinds(kind: MixType, a_name: Seq<char>, b_name: Seq<char>)
    ensures
        ({
            let a = telling_words(a_name);
            let b = telling_words(b_name);
            let shared = a.intersect(b).len();
            let total = a.union(b).len();
            let r = names_agreement(kind, a_name, kind, b_name);
            match kind {
                MixType::Remix | MixType::Dub => {
                    &&& r == MixAgreement::Full <==> total == 0
                    &&& r == MixAgreement::Incompatible <==> total > 0 && shared + shared < total
                    &&& r is Overlap <==> total > 0 && shared + shared >= total
                    &&& r is Overlap ==> r == (MixAgreement::Overlap {
                        shared: shared as u128,
                        total: total as u128,
                    })
                    &&& r != MixAgreement::Loose
                },
                _ => r == MixAgreement::Full,
            }
        }),
{
}

} // verus!
