//! Artist names: splitting them up, and how many two lists have in common.
use vstd::prelude::*;
use crate::distinct::{
    count_shared, count_total, insert_text, lemma_pushed_set, lemma_shared_within_total, text_set,
};
use crate::text::{
    contains, law_pieces, lemma_replaced_after, lower, lowercase, occurs, occurs_at, pieces,
    replace, replaced, split_at_char, trim, trimmed,
};

verus! {

/// The single names in an artist name in lower case: what stands between its commas, with `and`
/// for `&`.
pub open spec fn single_names(lowered: Seq<char>) -> Set<Seq<char>> {
    pieces(replaced(lowered, "&"@, "and"@), ',').map_values(|p: Seq<char>| trimmed(p)).to_set().remove(
        Seq::empty(),
    )
}

/// The single names in a list of artists, whatever their case.
pub open spec fn artist_names(artists: Seq<Seq<char>>) -> Set<Seq<char>>
    decreases artists.len(),
{
    if artists.len() == 0 {
        Set::empty()
    } else {
        artist_names(artists.drop_last()).union(single_names(lowercase(artists.last())))
    }
}

/// Adds the single names in an artist name in lower case to a set.
pub fn add_single_names(set: &mut Vec<String>, lowered: &str)
    requires
        old(set).deep_view().no_duplicates(),
    ensures
        final(set).deep_view().no_duplicates(),
        text_set(final(set).deep_view()) == text_set(old(set).deep_view()).union(
            single_names(lowered@),
        ),
{
    proof {
        reveal_strlit("&");
    }
    let parts = split_at_char(replace(lowered, "&", "and").as_str(), ',');
    let ghost start = text_set(set.deep_view());
    let ghost list = pieces(replaced(lowered@, "&"@, "and"@), ',').map_values(
        |p: Seq<char>| trimmed(p),
    );
    let mut i: usize = 0;
    assert(start.union(list.take(0).to_set().remove(Seq::empty())) =~= start);
    while i < parts.len()
        invariant
            parts@.len() == list.len(),
            forall|k: int| 0 <= k < parts@.len() ==> list[k] == trimmed(#[trigger] parts@[k]@),
            i <= parts@.len(),
            set.deep_view().no_duplicates(),
            text_set(set.deep_view()) == start.union(
                list.take(i as int).to_set().remove(Seq::empty()),
            ),
        decreases parts@.len() - i,
    {
        let name = trim(&parts[i]);
        proof {
            let before = list.take(i as int);
            assert(list.take(i + 1) =~= before.push(name@));
            lemma_pushed_set(before, name@);
            if name@.len() == 0 {
                assert(name@ =~= Seq::<char>::empty());
                assert(before.push(name@).to_set().remove(Seq::empty())
                    =~= before.to_set().remove(Seq::empty()));
            } else {
                assert(start.union(before.push(name@).to_set().remove(Seq::empty()))
                    =~= start.union(before.to_set().remove(Seq::empty())).insert(name@));
            }
        }
        if !name.as_str().is_empty() {
            insert_text(set, name);
        }
        i = i + 1;
    }
    assert(list.take(i as int) =~= list);
}

/// The single names in a list of artists, each once.
pub fn normalize_artists(artists: &Vec<String>) -> (r: Vec<String>)
    ensures
        r.deep_view().no_duplicates(),
        text_set(r.deep_view()) == artist_names(artists.deep_view()),
{
    let mut r: Vec<String> = Vec::new();
    let ghost list = artists.deep_view();
    let mut i: usize = 0;
    assert(text_set(r.deep_view()) =~= artist_names(list.take(0)));
    while i < artists.len()
        invariant
            list == artists.deep_view(),
            i <= artists@.len(),
            r.deep_view().no_duplicates(),
            text_set(r.deep_view()) == artist_names(list.take(i as int)),
        decreases artists@.len() - i,
    {
        assert(list.take(i + 1).drop_last() =~= list.take(i as int));
        assert(list.take(i + 1).last() == artists@[i as int]@);
        add_single_names(&mut r, lower(&artists[i]).as_str());
        i = i + 1;
    }
    assert(list.take(i as int) =~= list);
    r
}

/// How well two lists of artists agree.
#[derive(Debug, Clone, Copy, PartialEq, Eq, Structural)]
pub enum ArtistAgreement {
    /// There are no names on either side.
    Nothing,
    /// They share `shared` of `total` names.
    Overlap { shared: u128, total: u128 },
    /// They agree.
    Full,
}

/// The names of the file, and those of the catalogue that its title in lower case mentions.
pub open spec fn rescued_names(
    local: Set<Seq<char>>,
    api: Set<Seq<char>>,
    title: Seq<char>,
) -> Set<Seq<char>> {
    local.union(api.filter(|name: Seq<char>| occurs(title, name)))
}

/// How well the artist names of a file agree with those of a catalogue track whose title in
/// lower case is `title`. A catalogue artist whom the title mentions counts as the file's too.
pub open spec fn names_overlap(
    local: Set<Seq<char>>,
    api: Set<Seq<char>>,
    title: Seq<char>,
) -> ArtistAgreement {
    let rescued = rescued_names(local, api, title);
    let shared = rescued.intersect(api).len();
    let total = rescued.union(api).len();
    if total == 0 {
        ArtistAgreement::Nothing
    } else {
        ArtistAgreement::Overlap { shared: shared as u128, total: total as u128 }
    }
}

/// How well the artists of a file agree with those of a catalogue track. `matched` says that
/// they were found to match as they stand.
pub open spec fn artist_agreement(
    matched: bool,
    local: Seq<Seq<char>>,
    api: Seq<Seq<char>>,
    title: Seq<char>,
) -> ArtistAgreement {
    if matched {
        ArtistAgreement::Full
    } else {
        names_overlap(artist_names(local), artist_names(api), lowercase(title))
    }
}

/// How well the artist names of a file agree with those of a catalogue track whose title in
/// lower case is `title`.
pub fn compare_names(local: Vec<String>, api: &Vec<String>, title: &str) -> (r: ArtistAgreement)
    requires
        local.deep_view().no_duplicates(),
        api.deep_view().no_duplicates(),
    ensures
        r == names_overlap(text_set(local.deep_view()), text_set(api.deep_view()), title@),
        r matches ArtistAgreement::Overlap { shared, total } ==> {
            let rescued = rescued_names(
                text_set(local.deep_view()),
                text_set(api.deep_view()),
                title@,
            );
            &&& 0 < total
            &&& shared <= total
            &&& shared == rescued.intersect(text_set(api.deep_view())).len()
            &&& total == rescued.union(text_set(api.deep_view())).len()
        },
{
    let mut rescued = local;
    let ghost start = text_set(local.deep_view());
    let ghost list = api.deep_view();
    let ghost mentioned = |name: Seq<char>| occurs(title@, name);
    let mut i: usize = 0;
    assert(start.union(list.take(0).to_set().filter(mentioned)) =~= start);
    while i < api.len()
        invariant
            list == api.deep_view(),
            mentioned == (|name: Seq<char>| occurs(title@, name)),
            i <= api@.len(),
            rescued.deep_view().no_duplicates(),
            text_set(rescued.deep_view()) == start.union(
                list.take(i as int).to_set().filter(mentioned),
            ),
        decreases api@.len() - i,
    {
        let name = &api[i];
        proof {
            let before = list.take(i as int);
            assert(list.take(i + 1) =~= before.push(name@));
            lemma_pushed_set(before, name@);
            assert(start.union(before.push(name@).to_set().filter(mentioned)) =~= (if mentioned(
                name@,
            ) {
                start.union(before.to_set().filter(mentioned)).insert(name@)
            } else {
                start.union(before.to_set().filter(mentioned))
            }));
        }
        if contains(title, name) {
            insert_text(&mut rescued, name.clone());
        }
        i = i + 1;
    }
    assert(list.take(i as int) =~= list);
    let shared = count_shared(&rescued, api) as u128;
    let total = count_total(&rescued, api);
    proof {
        vstd::seq_lib::seq_to_set_is_finite(rescued.deep_view());
        vstd::seq_lib::seq_to_set_is_finite(list);
        lemma_shared_within_total(text_set(rescued.deep_view()), text_set(list));
    }
    if total == 0 {
        ArtistAgreement::Nothing
    } else {
        ArtistAgreement::Overlap { shared, total }
    }
}

/// How well the artists of a file agree with those of a catalogue track of the given title.
pub fn compare_artists(matched: bool, local: &Vec<String>, api: &Vec<String>, title: &str) -> (r:
    ArtistAgreement)
    ensures
        r == artist_agreement(matched, local.deep_view(), api.deep_view(), title@),
        r matches ArtistAgreement::Overlap { shared, total } ==> 0 < total && shared <= total,
{
    if matched {
        return ArtistAgreement::Full;
    }
    let local_names = normalize_artists(local);
    let api_names = normalize_artists(api);
    compare_names(local_names, &api_names, lower(title).as_str())
}

/// A catalogue track whose title mentions all of its artists shares all of them with any file
/// that names no others.
pub proof fn law_mentioned_artists_are_shared(
    local: Set<Seq<char>>,
    api: Set<Seq<char>>,
    title: Seq<char>,
)
    requires
        local.subset_of(api),
        forall|name: Seq<char>| #[trigger] api.contains(name) ==> occurs(title, name),
    ensures
        match names_overlap(local, api, title) {
            ArtistAgreement::Nothing => api.len() == 0,
            ArtistAgreement::Overlap { shared, total } => shared == total,
            ArtistAgreement::Full => false,
        },
{
    let rescued = rescued_names(local, api, title);
    assert(rescued =~= api);
    assert(rescued.intersect(api) =~= api);
    assert(rescued.union(api) =~= api);
}

/// The same artists on both sides agree in full measure, in whatever order they are listed.
pub proof fn law_same_artists_are_shared(names: Set<Seq<char>>, title: Seq<char>)
    ensures
        match names_overlap(names, names, title) {
            ArtistAgreement::Nothing => names.len() == 0,
            ArtistAgreement::Overlap { shared, total } => shared == total,
            ArtistAgreement::Full => false,
        },
{
    let rescued = rescued_names(names, names, title);
    assert(rescued =~= names);
    assert(rescued.intersect(names) =~= names);
    assert(rescued.union(names) =~= names);
}

/// A comma parts single names, and belongs to none.
pub proof fn law_comma_parts_names(a: Seq<char>, b: Seq<char>)
    requires
        !a.contains(','),
        !a.contains('&'),
    ensures
        single_names(a + (seq![','] + b)) == single_names(a).union(single_names(b)),
        single_names(a) == (if trimmed(a).len() == 0 {
            Set::empty()
        } else {
            Set::empty().insert(trimmed(a))
        }),
{
    reveal_strlit("&");
    reveal_strlit("and");
    assert("&"@ =~= seq!['&']);
    let trim_each = |p: Seq<char>| trimmed(p);
    let tail = seq![','] + b;
    lemma_no_ampersand(a, tail);
    lemma_no_ampersand(a, Seq::empty());
    lemma_no_ampersand(seq![','], b);
    assert(a + Seq::empty() =~= a);
    let rb = replaced(b, "&"@, "and"@);
    assert(replaced(Seq::<char>::empty(), "&"@, "and"@) =~= Seq::<char>::empty());
    assert(replaced(a, "&"@, "and"@) =~= a);
    law_pieces(a, ',', rb);
    let one = seq![a].map_values(trim_each);
    let rest = pieces(rb, ',').map_values(trim_each);
    assert((seq![a] + pieces(rb, ',')).map_values(trim_each) =~= one + rest);
    lemma_joined_set(one, rest);
    assert(one =~= seq![trimmed(a)]);
    assert(one.to_set() =~= Set::empty().insert(trimmed(a))) by {
        assert forall|x: Seq<char>| one.contains(x) implies x == trimmed(a) by {}
        assert(one[0] == trimmed(a));
    }
    assert(trimmed(a).len() == 0 ==> trimmed(a) =~= Seq::<char>::empty());
    assert(single_names(a) =~= (if trimmed(a).len() == 0 {
        Set::empty()
    } else {
        Set::empty().insert(trimmed(a))
    }));
    assert(single_names(a + tail) =~= single_names(a).union(single_names(b)));
}

/// What comes before an ampersand is left alone when it is replaced.
proof fn lemma_no_ampersand(a: Seq<char>, b: Seq<char>)
    requires
        !a.contains('&'),
    ensures
        replaced(a + b, "&"@, "and"@) == a + replaced(b, "&"@, "and"@),
{
    reveal_strlit("&");
    assert forall|i: int| 0 <= i < a.len() implies !#[trigger] occurs_at(a + b, "&"@, i) by {
        if occurs_at(a + b, "&"@, i) {
            assert((a + b).subrange(i, i + 1)[0] == "&"@[0]);
            assert(a.contains(a[i]));
        }
    }
    lemma_replaced_after(a, b, "&"@, "and"@);
}

/// The set of two lists joined is that of both.
proof fn lemma_joined_set(a: Seq<Seq<char>>, b: Seq<Seq<char>>)
    ensures
        (a + b).to_set() == a.to_set().union(b.to_set()),
{
    assert forall|x: Seq<char>| #[trigger] (a + b).contains(x) <==> a.contains(x) || b.contains(
        x,
    ) by {
        if (a + b).contains(x) {
            let i = choose|i: int| 0 <= i < (a + b).len() && (a + b)[i] == x;
            if i < a.len() {
                assert(a[i] == x);
            } else {
                assert(b[i - a.len()] == x);
            }
        }
        if a.contains(x) {
            let i = choose|i: int| 0 <= i < a.len() && a[i] == x;
            assert((a + b)[i] == x);
        }
        if b.contains(x) {
            let i = choose|i: int| 0 <= i < b.len() && b[i] == x;
            assert((a + b)[i + a.len()] == x);
        }
    }
    assert((a + b).to_set() =~= a.to_set().union(b.to_set()));
}

/// An ampersand is as good as the word `and`, wherever it stands.
pub proof fn law_ampersand_is_and(a: Seq<char>, b: Seq<char>)
    ensures
        single_names(a + (seq!['&'] + b)) == single_names(a + ("and"@ + b)),
{
    lemma_ampersand_replaced(a, b);
}

/// An ampersand and the word `and` are replaced to the same text.
proof fn lemma_ampersand_replaced(a: Seq<char>, b: Seq<char>)
    ensures
        replaced(a + (seq!['&'] + b), "&"@, "and"@) == replaced(a + ("and"@ + b), "&"@, "and"@),
    decreases a.len(),
{
    reveal_strlit("&");
    reveal_strlit("and");
    assert("&"@ =~= seq!['&']);
    let to = "and"@;
    let s = a + (seq!['&'] + b);
    let t = a + (to + b);
    if a.len() == 0 {
        assert(s =~= seq!['&'] + b);
        assert(t =~= to + b);
        assert(s.take(1) =~= "&"@);
        assert(s.skip(1) =~= b);
        lemma_no_ampersand(to, b);
    } else {
        let rest = a.skip(1);
        lemma_ampersand_replaced(rest, b);
        assert(s.skip(1) =~= rest + (seq!['&'] + b));
        assert(t.skip(1) =~= rest + (to + b));
        assert(s.take(1) =~= seq![a[0]]);
        assert(t.take(1) =~= seq![a[0]]);
    }
}

/// A name is among those of a list of artists exactly if it is among the single names of one of
/// them, in lower case, wherever that one stands in the list.
pub proof fn law_artist_names(artists: Seq<Seq<char>>, name: Seq<char>)
    ensures
        artist_names(artists).contains(name) <==> exists|i: int|
            0 <= i < artists.len() && single_names(lowercase(#[trigger] artists[i])).contains(name),
    decreases artists.len(),
{
    if artists.len() > 0 {
        let init = artists.drop_last();
        law_artist_names(init, name);
        if artist_names(init).contains(name) {
            let i = choose|i: int|
                0 <= i < init.len() && single_names(lowercase(#[trigger] init[i])).contains(name);
            assert(artists[i] == init[i]);
        }
        if single_names(lowercase(artists.last())).contains(name) {
            assert(artists[artists.len() - 1] == artists.last());
        }
        if exists|i: int|
            0 <= i < artists.len() && single_names(lowercase(#[trigger] artists[i])).contains(
                name,
            ) {
            let i = choose|i: int|
                0 <= i < artists.len() && single_names(lowercase(#[trigger] artists[i])).contains(
                    name,
                );
            if i < init.len() {
                assert(init[i] == artists[i]);
            }
        }
    }
}

/// Of the names of both sides together, those are shared that the catalogue names and that the
/// file names or the track's title mentions. Where neither side has a name there is nothing to
/// share.
pub proof fn law_shared_names(local: Set<Seq<char>>, api: Set<Seq<char>>, title: Seq<char>)
    ensures
        ({
            let shared = api.filter(
                |name: Seq<char>| local.contains(name) || occurs(title, name),
            ).len();
            let total = local.union(api).len();
            names_overlap(local, api, title) == (if total == 0 {
                ArtistAgreement::Nothing
            } else {
                ArtistAgreement::Overlap { shared: shared as u128, total: total as u128 }
            })
        }),
{
    let rescued = rescued_names(local, api, title);
    assert(rescued.intersect(api) =~= api.filter(
        |name: Seq<char>| local.contains(name) || occurs(title, name),
    ));
    assert(rescued.union(api) =~= local.union(api));
}

/// Artists that match as they stand agree in full; else their single names are compared, in lower
/// case, and so is the title.
pub proof fn law_artists_are_compared(
    local: Seq<Seq<char>>,
    api: Seq<Seq<char>>,
    title: Seq<char>,
)
    ensures
        artist_agreement(true, local, api, title) == ArtistAgreement::Full,
        ({
            let a = artist_names(local);
            let b = artist_names(api);
            let shared = b.filter(
                |name: Seq<char>| a.contains(name) || occurs(lowercase(title), name),
            ).len();
            let total = a.union(b).len();
            artist_agreement(false, local, api, title) == (if total == 0 {
                ArtistAgreement::Nothing
            } else {
                ArtistAgreement::Overlap { shared: shared as u128, total: total as u128 }
            })
        }),
{
    law_shared_names(artist_names(local), artist_names(api), lowercase(title));
}

} // verus!
