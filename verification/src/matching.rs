//! Matches of one page of search results: which tracks they are, how accurate, in what order.
//!
//! An accuracy is an integer that ranks as the floating-point accuracy does from which it was
//! made.
use vstd::prelude::*;
use crate::mix::{
    blanked, compare_mixes, law_different_kinds, law_equal_kinds, mix_type, names_agreement,
    normalize_punctuation, telling_words, MixAgreement, MixType,
};
use crate::text::{lowercase, same};
use crate::title::{strip_features, without_features};
use crate::track::{Track, TrackView};

verus! {

/// A track and how accurately it matches.
#[derive(Debug)]
pub struct ScoredTrack {
    pub accuracy: u64,
    pub track: Track,
}

/// The mathematical reading of a [`ScoredTrack`].
#[verifier::ext_equal]
pub struct ScoredView {
    pub accuracy: u64,
    pub track: TrackView,
}

impl View for ScoredTrack {
    type V = ScoredView;

    open spec fn view(&self) -> ScoredView {
        ScoredView { accuracy: self.accuracy, track: self.track@ }
    }
}

impl DeepView for ScoredTrack {
    type V = ScoredView;

    open spec fn deep_view(&self) -> ScoredView {
        self@
    }
}

/// A track of the page whose mix agrees with that of the file, and what its accuracy is made of.
#[derive(Debug)]
pub struct Candidate {
    /// Where the track stands on the page.
    pub index: usize,
    /// How well the mixes agree.
    pub mix: MixAgreement,
    /// The title of the track without its featured-artist notes.
    pub title: String,
}

/// The mathematical reading of a [`Candidate`].
#[verifier::ext_equal]
pub struct CandidateView {
    pub index: usize,
    pub mix: MixAgreement,
    pub title: Seq<char>,
}

impl View for Candidate {
    type V = CandidateView;

    open spec fn view(&self) -> CandidateView {
        CandidateView { index: self.index, mix: self.mix, title: self.title@ }
    }
}

impl DeepView for Candidate {
    type V = CandidateView;

    open spec fn deep_view(&self) -> CandidateView {
        self@
    }
}

/// Where the first track of the given address stands; the number of tracks where there is none.
pub open spec fn track_position(tracks: Seq<TrackView>, url: Seq<char>) -> nat
    decreases tracks.len(),
{
    if tracks.len() == 0 || tracks[0].url == url {
        0
    } else {
        1 + track_position(tracks.skip(1), url)
    }
}

/// Where the first match of the given address stands; the number of matches where there is none.
pub open spec fn match_position(matches: Seq<ScoredView>, url: Seq<char>) -> nat {
    track_position(matches.map_values(|m: ScoredView| m.track), url)
}

/// What the position of an address says.
pub proof fn lemma_track_position(tracks: Seq<TrackView>, url: Seq<char>)
    ensures
        track_position(tracks, url) <= tracks.len(),
        track_position(tracks, url) < tracks.len() ==> tracks[track_position(
            tracks,
            url,
        ) as int].url == url,
        forall|i: int|
            0 <= i < track_position(tracks, url) ==> (#[trigger] tracks[i]).url != url,
    decreases tracks.len(),
{
    if tracks.len() == 0 || tracks[0].url == url {
    } else {
        let rest = tracks.skip(1);
        lemma_track_position(rest, url);
        assert forall|i: int| 0 <= i < track_position(tracks, url) implies (
        #[trigger] tracks[i]).url != url by {
            if i > 0 {
                assert(rest[i - 1] == tracks[i]);
            }
        }
    }
}

/// The position of an address is where it stands first.
pub proof fn lemma_track_position_is(tracks: Seq<TrackView>, url: Seq<char>, n: int)
    requires
        0 <= n <= tracks.len(),
        n < tracks.len() ==> tracks[n].url == url,
        forall|i: int| 0 <= i < n ==> (#[trigger] tracks[i]).url != url,
    ensures
        track_position(tracks, url) == n,
    decreases tracks.len(),
{
    lemma_track_position(tracks, url);
    let k = track_position(tracks, url) as int;
    if k < n {
        assert(tracks[k].url != url);
    } else if n < k {
        assert(tracks[n].url != url);
    }
}

/// Where the first track of the given address stands.
pub fn find_track(tracks: &Vec<Track>, url: &str) -> (r: usize)
    ensures
        r == track_position(tracks.deep_view(), url@),
        r <= tracks@.len(),
{
    let ghost list = tracks.deep_view();
    let mut i: usize = 0;
    while i < tracks.len() && !same(&tracks[i].url, url)
        invariant
            list == tracks.deep_view(),
            i <= tracks@.len(),
            forall|k: int| 0 <= k < i ==> (#[trigger] list[k]).url != url@,
        decreases tracks@.len() - i,
    {
        assert(list[i as int].url == tracks@[i as int].url@);
        i = i + 1;
    }
    proof {
        if i < tracks@.len() {
            assert(list[i as int].url == tracks@[i as int].url@);
        }
        lemma_track_position_is(list, url@, i as int);
    }
    i
}

/// Where the first match of the given address stands.
pub fn find_match(matches: &Vec<ScoredTrack>, url: &str) -> (r: usize)
    ensures
        r == match_position(matches.deep_view(), url@),
        r <= matches@.len(),
{
    let ghost list = matches.deep_view().map_values(|m: ScoredView| m.track);
    let mut i: usize = 0;
    while i < matches.len() && !same(&matches[i].track.url, url)
        invariant
            list == matches.deep_view().map_values(|m: ScoredView| m.track),
            i <= matches@.len(),
            forall|k: int| 0 <= k < i ==> (#[trigger] list[k]).url != url@,
        decreases matches@.len() - i,
    {
        assert(list[i as int].url == matches@[i as int].track.url@);
        i = i + 1;
    }
    proof {
        if i < matches@.len() {
            assert(list[i as int].url == matches@[i as int].track.url@);
        }
        lemma_track_position_is(list, url@, i as int);
    }
    i
}

/// A track without its version.
pub open spec fn unversioned(track: TrackView) -> TrackView {
    TrackView { version: None, ..track }
}

/// The tracks of a page without their versions.
pub fn without_versions(tracks: &Vec<Track>) -> (r: Vec<Track>)
    ensures
        r.deep_view() == tracks.deep_view().map_values(|t: TrackView| unversioned(t)),
{
    let ghost list = tracks.deep_view().map_values(|t: TrackView| unversioned(t));
    let mut r: Vec<Track> = Vec::new();
    let mut i: usize = 0;
    while i < tracks.len()
        invariant
            list == tracks.deep_view().map_values(|t: TrackView| unversioned(t)),
            i <= tracks@.len(),
            r.deep_view() =~= list.take(i as int),
        decreases tracks@.len() - i,
    {
        let ghost before = r.deep_view();
        let mut track = tracks[i].clone();
        track.version = None;
        assert(track@ == list[i as int]);
        r.push(track);
        assert(r.deep_view() =~= before.push(list[i as int]));
        i = i + 1;
    }
    assert(r.deep_view() =~= list);
    r
}

/// A match with the version that the track of its address has on the page; as it is where the
/// page has none.
pub open spec fn versioned(m: ScoredView, tracks: Seq<TrackView>) -> ScoredView {
    let i = track_position(tracks, m.track.url);
    if i < tracks.len() {
        ScoredView {
            accuracy: m.accuracy,
            track: TrackView { version: tracks[i as int].version, ..m.track },
        }
    } else {
        m
    }
}

/// The matches with the versions that their tracks have on the page.
pub fn restore_versions(matches: Vec<ScoredTrack>, tracks: &Vec<Track>) -> (r: Vec<ScoredTrack>)
    ensures
        r.deep_view() == matches.deep_view().map_values(
            |m: ScoredView| versioned(m, tracks.deep_view()),
        ),
{
    let ghost list = matches.deep_view().map_values(
        |m: ScoredView| versioned(m, tracks.deep_view()),
    );
    let ghost given = matches.deep_view();
    let mut rest = matches;
    let mut r: Vec<ScoredTrack> = Vec::new();
    while rest.len() > 0
        invariant
            given == matches.deep_view(),
            list == given.map_values(|m: ScoredView| versioned(m, tracks.deep_view())),
            r@.len() + rest@.len() == given.len(),
            r.deep_view() =~= list.take(r@.len() as int),
            rest.deep_view() =~= given.skip(r@.len() as int),
        decreases rest@.len(),
    {
        let ghost n = r@.len() as int;
        let ghost before = r.deep_view();
        let ghost left = rest.deep_view();
        let mut m = rest.remove(0);
        let ghost original = m@;
        assert(original == given[n]) by {
            assert(left[0] == given[n]);
        }
        let i = find_track(tracks, &m.track.url);
        if i < tracks.len() {
            m.track.version = match &tracks[i].version {
                Some(v) => Some(v.clone()),
                None => None,
            };
            assert(tracks.deep_view()[i as int].version == tracks@[i as int].version.deep_view());
        }
        assert(m@ == list[n]);
        r.push(m);
        assert(r.deep_view() =~= before.push(list[n]));
        assert(rest.deep_view() =~= left.skip(1));
    }
    assert(r.deep_view() =~= list);
    r
}

/// The normalized form of a mix name.
pub open spec fn normalized(mix: Seq<char>) -> Seq<char> {
    blanked(lowercase(mix))
}

/// The kind of a normalized mix name.
pub open spec fn kind_of(name: Seq<char>) -> MixType {
    mix_type(lowercase(name))
}

/// The mix name of a track; empty where it has none.
pub open spec fn mix_name(track: TrackView) -> Seq<char> {
    match track.version {
        Some(v) => v,
        None => Seq::empty(),
    }
}

/// How well the mix name of a file agrees with the version of a track.
pub open spec fn track_agreement(track: TrackView, local_mix: Seq<char>) -> MixAgreement {
    let local = normalized(local_mix);
    let api = normalized(mix_name(track));
    names_agreement(kind_of(local), local, kind_of(api), api)
}

/// The candidates among the first `n` tracks of a page.
pub open spec fn candidates_among(tracks: Seq<TrackView>, local_mix: Seq<char>, n: nat) -> Seq<
    CandidateView,
>
    decreases n,
{
    if n == 0 {
        Seq::empty()
    } else {
        let before = candidates_among(tracks, local_mix, (n - 1) as nat);
        let track = tracks[n - 1];
        let mix = track_agreement(track, local_mix);
        if mix == MixAgreement::Incompatible {
            before
        } else {
            before.push(
                CandidateView {
                    index: (n - 1) as usize,
                    mix,
                    title: without_features(track.title),
                },
            )
        }
    }
}

/// The tracks of a page whose mix agrees with that of the file, in order.
pub open spec fn page_candidates(tracks: Seq<TrackView>, local_mix: Seq<char>) -> Seq<
    CandidateView,
> {
    candidates_among(tracks, local_mix, tracks.len())
}

/// The tracks of a page whose mix agrees with that of the file, in order.
pub fn find_candidates(tracks: &Vec<Track>, local_mix: &str) -> (r: Vec<Candidate>)
    ensures
        r.deep_view() == page_candidates(tracks.deep_view(), local_mix@),
{
    let local = normalize_punctuation(local_mix);
    let local_kind = MixType::from_str(&local);
    let mut r: Vec<Candidate> = Vec::new();
    let mut i: usize = 0;
    let ghost list = tracks.deep_view();
    assert(r.deep_view() =~= candidates_among(list, local_mix@, 0));
    while i < tracks.len()
        invariant
            list == tracks.deep_view(),
            local@ == normalized(local_mix@),
            local_kind == kind_of(local@),
            i <= tracks@.len(),
            r.deep_view() == candidates_among(list, local_mix@, i as nat),
        decreases tracks@.len() - i,
    {
        let track = &tracks[i];
        assert(list[i as int] == track@);
        let api = match &track.version {
            Some(v) => normalize_punctuation(v),
            None => normalize_punctuation(""),
        };
        proof {
            reveal_strlit("");
            assert(""@ =~= Seq::<char>::empty());
            assert(api@ == normalized(mix_name(track@)));
        }
        let api_kind = MixType::from_str(&api);
        let mix = compare_mixes(local_kind, &local, api_kind, &api);
        if mix != MixAgreement::Incompatible {
            let ghost before = r.deep_view();
            let candidate = Candidate { index: i, mix, title: strip_features(&track.title) };
            r.push(candidate);
            assert(r.deep_view() =~= before.push(candidate@));
        }
        i = i + 1;
    }
    r
}

/// What the candidates of a page are: each stands on the page, in order, and agrees.
pub proof fn lemma_candidates(tracks: Seq<TrackView>, local_mix: Seq<char>, n: nat)
    requires
        n <= tracks.len(),
        tracks.len() <= usize::MAX,
    ensures
        ({
            let list = candidates_among(tracks, local_mix, n);
            &&& list.len() <= n
            &&& forall|i: int|
                0 <= i < list.len() ==> {
                    &&& (#[trigger] list[i]).index < n
                    &&& list[i].mix == track_agreement(tracks[list[i].index as int], local_mix)
                    &&& list[i].mix != MixAgreement::Incompatible
                }
        }),
    decreases n,
{
    if n > 0 {
        lemma_candidates(tracks, local_mix, (n - 1) as nat);
    }
}

/// The matches of a page after a track of the given accuracy was taken in: left alone where it
/// falls short, else the match of the same address is raised to it, or the track is added.
pub open spec fn taken_in(
    matches: Seq<ScoredView>,
    track: TrackView,
    accuracy: u64,
    strictness: u64,
) -> Seq<ScoredView> {
    let i = match_position(matches, track.url);
    if accuracy < strictness {
        matches
    } else if i < matches.len() {
        if accuracy > matches[i as int].accuracy {
            matches.update(i as int, ScoredView { accuracy, track: matches[i as int].track })
        } else {
            matches
        }
    } else {
        matches.push(ScoredView { accuracy, track })
    }
}

/// Takes a track of the given accuracy into the matches of a page.
pub fn take_in(matches: &mut Vec<ScoredTrack>, track: &Track, accuracy: u64, strictness: u64)
    ensures
        final(matches).deep_view() == taken_in(
            old(matches).deep_view(),
            track@,
            accuracy,
            strictness,
        ),
{
    let ghost before = matches.deep_view();
    if accuracy < strictness {
        return;
    }
    let i = find_match(matches, &track.url);
    if i < matches.len() {
        assert(before[i as int] == matches@[i as int]@);
        if accuracy > matches[i].accuracy {
            let mut m = matches.remove(i);
            m.accuracy = accuracy;
            matches.insert(i, m);
            assert(matches.deep_view() =~= before.update(
                i as int,
                ScoredView { accuracy, track: before[i as int].track },
            ));
        }
    } else {
        matches.push(ScoredTrack { accuracy, track: track.clone() });
        assert(matches.deep_view() =~= before.push(ScoredView { accuracy, track: track@ }));
    }
}

/// The matches of a page after its first `n` candidates were taken in, each with its accuracy.
pub open spec fn all_taken_in(
    matches: Seq<ScoredView>,
    tracks: Seq<TrackView>,
    candidates: Seq<CandidateView>,
    scores: Seq<u64>,
    strictness: u64,
    n: nat,
) -> Seq<ScoredView>
    decreases n,
{
    if n == 0 {
        matches
    } else {
        taken_in(
            all_taken_in(matches, tracks, candidates, scores, strictness, (n - 1) as nat),
            tracks[candidates[n - 1].index as int],
            scores[n - 1],
            strictness,
        )
    }
}

/// Takes the candidates of a page in, each with its accuracy.
pub fn take_all_in(
    matches: &mut Vec<ScoredTrack>,
    tracks: &Vec<Track>,
    candidates: &Vec<Candidate>,
    scores: &Vec<u64>,
    strictness: u64,
)
    requires
        scores@.len() == candidates@.len(),
        forall|i: int|
            0 <= i < candidates@.len() ==> (#[trigger] candidates@[i]).index < tracks@.len(),
    ensures
        final(matches).deep_view() == all_taken_in(
            old(matches).deep_view(),
            tracks.deep_view(),
            candidates.deep_view(),
            scores@,
            strictness,
            candidates@.len(),
        ),
{
    let ghost start = matches.deep_view();
    let mut i: usize = 0;
    while i < candidates.len()
        invariant
            scores@.len() == candidates@.len(),
            forall|k: int|
                0 <= k < candidates@.len() ==> (#[trigger] candidates@[k]).index < tracks@.len(),
            i <= candidates@.len(),
            matches.deep_view() == all_taken_in(
                start,
                tracks.deep_view(),
                candidates.deep_view(),
                scores@,
                strictness,
                i as nat,
            ),
        decreases candidates@.len() - i,
    {
        let candidate = &candidates[i];
        assert(candidates.deep_view()[i as int] == candidate@);
        assert(tracks.deep_view()[candidate.index as int] == tracks@[candidate.index as int]@);
        take_in(matches, &tracks[candidate.index], scores[i], strictness);
        i = i + 1;
    }
}

/// The number of leading matches that are at least as accurate as `accuracy`.
pub open spec fn place_for(matches: Seq<ScoredView>, accuracy: u64) -> nat
    decreases matches.len(),
{
    if matches.len() == 0 || matches[0].accuracy < accuracy {
        0
    } else {
        1 + place_for(matches.skip(1), accuracy)
    }
}

/// The matches in order of falling accuracy; equally accurate ones keep their order.
pub open spec fn ranked(matches: Seq<ScoredView>) -> Seq<ScoredView>
    decreases matches.len(),
{
    if matches.len() == 0 {
        Seq::empty()
    } else {
        let before = ranked(matches.drop_last());
        before.insert(place_for(before, matches.last().accuracy) as int, matches.last())
    }
}

/// What the place for an accuracy says.
pub proof fn lemma_place_for(matches: Seq<ScoredView>, accuracy: u64)
    ensures
        place_for(matches, accuracy) <= matches.len(),
        forall|i: int|
            0 <= i < place_for(matches, accuracy) ==> (#[trigger] matches[i]).accuracy >= accuracy,
        place_for(matches, accuracy) < matches.len() ==> matches[place_for(
            matches,
            accuracy,
        ) as int].accuracy < accuracy,
    decreases matches.len(),
{
    if matches.len() == 0 || matches[0].accuracy < accuracy {
    } else {
        let rest = matches.skip(1);
        lemma_place_for(rest, accuracy);
        assert forall|i: int| 0 <= i < place_for(matches, accuracy) implies (
        #[trigger] matches[i]).accuracy >= accuracy by {
            if i > 0 {
                assert(rest[i - 1] == matches[i]);
            }
        }
    }
}

/// Puts matches in order of falling accuracy; equally accurate ones keep their order.
pub fn rank(matches: Vec<ScoredTrack>) -> (r: Vec<ScoredTrack>)
    ensures
        r.deep_view() == ranked(matches.deep_view()),
{
    let ghost given = matches.deep_view();
    let mut rest = matches;
    let mut r: Vec<ScoredTrack> = Vec::new();
    assert(r.deep_view() =~= ranked(given.take(0)));
    assert(rest.deep_view() =~= given.skip(0));
    let ghost mut n: int = 0;
    while rest.len() > 0
        invariant
            0 <= n <= given.len(),
            rest@.len() == given.len() - n,
            r@.len() == n,
            r.deep_view() == ranked(given.take(n)),
            rest.deep_view() == given.skip(n),
        decreases rest@.len(),
    {
        let ghost left = rest.deep_view();
        let ghost before = r.deep_view();
        let m = rest.remove(0);
        assert(m@ == given[n]) by {
            assert(left[0] == given[n]);
        }
        let mut i: usize = 0;
        assert(before.skip(0) =~= before);
        while i < r.len() && r[i].accuracy >= m.accuracy
            invariant
                before == r.deep_view(),
                i <= r@.len(),
                place_for(before, m.accuracy) == i + place_for(before.skip(i as int), m.accuracy),
            decreases r@.len() - i,
        {
            assert(before.skip(i as int)[0] == r@[i as int]@);
            assert(before.skip(i as int).skip(1) =~= before.skip(i + 1));
            i = i + 1;
        }
        proof {
            if i < r@.len() {
                assert(before.skip(i as int)[0] == r@[i as int]@);
            }
            assert(place_for(before, m.accuracy) == i);
            assert(given.take(n + 1).drop_last() =~= given.take(n));
            assert(rest.deep_view() =~= left.skip(1));
            assert(left.skip(1) =~= given.skip(n + 1));
        }
        let ghost inserted = m@;
        r.insert(i, m);
        assert(r.deep_view() =~= before.insert(i as int, inserted));
        proof {
            n = n + 1;
        }
    }
    assert(given.take(n) =~= given);
    r
}

/// Accuracies fall from front to back.
pub open spec fn falling(matches: Seq<ScoredView>) -> bool {
    forall|i: int, j: int|
        0 <= i <= j < matches.len() ==> (#[trigger] matches[i]).accuracy >= (
        #[trigger] matches[j]).accuracy
}

/// Ranking puts the accuracies in falling order.
pub proof fn law_ranked_falls(matches: Seq<ScoredView>)
    ensures
        falling(ranked(matches)),
        ranked(matches).len() == matches.len(),
    decreases matches.len(),
{
    if matches.len() > 0 {
        let before = ranked(matches.drop_last());
        let m = matches.last();
        let n = place_for(before, m.accuracy) as int;
        law_ranked_falls(matches.drop_last());
        lemma_place_for(before, m.accuracy);
        let after = before.insert(n, m);
        assert forall|i: int, j: int| 0 <= i <= j < after.len() implies (
        #[trigger] after[i]).accuracy >= (#[trigger] after[j]).accuracy by {
            let a = if i < n {
                i
            } else {
                i - 1
            };
            let b = if j < n {
                j
            } else {
                j - 1
            };
            if i != n && j != n {
                assert(before[a].accuracy >= before[b].accuracy);
            } else if i == n && j > n {
                assert(before[n].accuracy >= before[b].accuracy);
            } else if j == n && i < n {
                assert(before[i].accuracy >= m.accuracy);
            }
        }
    }
}

/// Ranking loses no match and invents none.
pub proof fn law_ranked_keeps_matches(matches: Seq<ScoredView>)
    ensures
        ranked(matches).to_multiset() == matches.to_multiset(),
    decreases matches.len(),
{
    if matches.len() == 0 {
        assert(ranked(matches) =~= matches);
    } else {
        let init = matches.drop_last();
        let before = ranked(init);
        let m = matches.last();
        law_ranked_keeps_matches(init);
        lemma_place_for(before, m.accuracy);
        let n = place_for(before, m.accuracy) as int;
        broadcast use vstd::seq_lib::group_to_multiset_ensures;

        assert(before.insert(n, m).to_multiset() =~= before.to_multiset().insert(m));
        assert(init.push(m) =~= matches);
        assert(init.push(m).to_multiset() =~= init.to_multiset().insert(m));
    }
}

/// The matches of one accuracy, in order.
pub open spec fn of_accuracy(matches: Seq<ScoredView>, accuracy: u64) -> Seq<ScoredView> {
    matches.filter(|m: ScoredView| m.accuracy == accuracy)
}

/// Where no match has an accuracy, there are none of it.
proof fn lemma_none_of_accuracy(matches: Seq<ScoredView>, accuracy: u64)
    requires
        forall|i: int| 0 <= i < matches.len() ==> (#[trigger] matches[i]).accuracy != accuracy,
    ensures
        of_accuracy(matches, accuracy) == Seq::<ScoredView>::empty(),
    decreases matches.len(),
{
    reveal(Seq::filter);
    if matches.len() > 0 {
        lemma_none_of_accuracy(matches.drop_last(), accuracy);
    }
}

/// Equally accurate matches keep their order.
pub proof fn law_ranked_keeps_order(matches: Seq<ScoredView>, accuracy: u64)
    ensures
        of_accuracy(ranked(matches), accuracy) == of_accuracy(matches, accuracy),
    decreases matches.len(),
{
    reveal(Seq::filter);
    if matches.len() > 0 {
        let pred = |m: ScoredView| m.accuracy == accuracy;
        let init = matches.drop_last();
        let before = ranked(init);
        let m = matches.last();
        let n = place_for(before, m.accuracy) as int;
        law_ranked_keeps_order(init, accuracy);
        law_ranked_falls(init);
        lemma_place_for(before, m.accuracy);
        let front = before.take(n);
        let back = before.skip(n);
        let one = seq![m];
        assert(before =~= front + back);
        assert(before.insert(n, m) =~= (front + one) + back);
        Seq::filter_distributes_over_add(front, back, pred);
        Seq::filter_distributes_over_add(front + one, back, pred);
        Seq::filter_distributes_over_add(front, one, pred);
        assert(one.drop_last() =~= Seq::<ScoredView>::empty());
        assert(one.drop_last().filter(pred) =~= Seq::<ScoredView>::empty());
        if m.accuracy == accuracy {
            assert forall|i: int| 0 <= i < back.len() implies (#[trigger] back[i]).accuracy
                != accuracy by {
                assert(before[n].accuracy >= before[n + i].accuracy);
            }
            lemma_none_of_accuracy(back, accuracy);
            assert(one.filter(pred) =~= one);
            assert(of_accuracy(ranked(matches), accuracy) =~= front.filter(pred) + one);
            assert(of_accuracy(before, accuracy) =~= front.filter(pred));
            assert(of_accuracy(matches, accuracy) =~= init.filter(pred).push(m));
        } else {
            assert(one.filter(pred) =~= Seq::<ScoredView>::empty());
            assert(of_accuracy(ranked(matches), accuracy) =~= of_accuracy(before, accuracy));
        }
    }
}

/// No two matches have the same address.
pub open spec fn addresses_differ(matches: Seq<ScoredView>) -> bool {
    forall|i: int, j: int|
        0 <= i < j < matches.len() ==> (#[trigger] matches[i]).track.url != (
        #[trigger] matches[j]).track.url
}

/// The match `m` stands in the list, at least as accurate as the bound.
pub open spec fn listed(matches: Seq<ScoredView>, url: Seq<char>, accuracy: u64) -> bool {
    exists|i: int|
        0 <= i < matches.len() && (#[trigger] matches[i]).track.url == url && matches[i].accuracy
            >= accuracy
}

/// Taking a track in never adds a second match of one address, changes no track, lowers no
/// accuracy, adds nothing that falls short, and lists the track where it does not fall short.
pub proof fn law_taken_in(
    matches: Seq<ScoredView>,
    track: TrackView,
    accuracy: u64,
    strictness: u64,
)
    ensures
        ({
            let after = taken_in(matches, track, accuracy, strictness);
            &&& addresses_differ(matches) ==> addresses_differ(after)
            &&& matches.len() <= after.len()
            &&& forall|i: int|
                0 <= i < matches.len() ==> {
                    &&& (#[trigger] after[i]).track == matches[i].track
                    &&& after[i].accuracy >= matches[i].accuracy
                }
            &&& forall|i: int|
                matches.len() <= i < after.len() ==> {
                    &&& (#[trigger] after[i]).track == track
                    &&& after[i].accuracy >= strictness
                }
            &&& accuracy >= strictness ==> listed(after, track.url, accuracy)
        }),
{
    let after = taken_in(matches, track, accuracy, strictness);
    let list = matches.map_values(|m: ScoredView| m.track);
    lemma_track_position(list, track.url);
    let i = match_position(matches, track.url) as int;
    if accuracy >= strictness {
        if i < matches.len() {
            assert(list[i].url == track.url);
            assert(after[i].track.url == track.url && after[i].accuracy >= accuracy);
        } else {
            assert(after[matches.len() as int].track.url == track.url);
            assert forall|k: int| 0 <= k < matches.len() implies (#[trigger] matches[k]).track.url
                != track.url by {
                assert(list[k].url != track.url);
            }
        }
    }
}

/// The track is that of one of the given matches.
pub open spec fn is_given(matches: Seq<ScoredView>, track: TrackView) -> bool {
    exists|i: int| 0 <= i < matches.len() && (#[trigger] matches[i]).track == track
}

/// The track is that of one of the first `n` candidates of a page.
pub open spec fn is_candidate(
    tracks: Seq<TrackView>,
    candidates: Seq<CandidateView>,
    n: nat,
    track: TrackView,
) -> bool {
    exists|k: int| 0 <= k < n && track == tracks[(#[trigger] candidates[k]).index as int]
}

/// Taking a page's candidates in never adds a second match of one address, keeps every match
/// at its place with an accuracy that does not fall, adds only candidates that do not fall
/// short, and lists every candidate that does not fall short.
pub proof fn law_all_taken_in(
    matches: Seq<ScoredView>,
    tracks: Seq<TrackView>,
    candidates: Seq<CandidateView>,
    scores: Seq<u64>,
    strictness: u64,
    n: nat,
)
    ensures
        ({
            let after = all_taken_in(matches, tracks, candidates, scores, strictness, n);
            &&& addresses_differ(matches) ==> addresses_differ(after)
            &&& matches.len() <= after.len()
            &&& forall|i: int|
                0 <= i < matches.len() ==> {
                    &&& (#[trigger] after[i]).track == matches[i].track
                    &&& after[i].accuracy >= matches[i].accuracy
                }
            &&& forall|i: int|
                matches.len() <= i < after.len() ==> {
                    &&& (#[trigger] after[i]).accuracy >= strictness
                    &&& is_candidate(tracks, candidates, n, after[i].track)
                }
            &&& forall|k: int|
                0 <= k < n && (#[trigger] scores[k]) >= strictness ==> listed(
                    after,
                    tracks[candidates[k].index as int].url,
                    scores[k],
                )
        }),
    decreases n,
{
    if n > 0 {
        let before = all_taken_in(matches, tracks, candidates, scores, strictness, (n - 1) as nat);
        let track = tracks[candidates[n - 1].index as int];
        law_all_taken_in(matches, tracks, candidates, scores, strictness, (n - 1) as nat);
        law_taken_in(before, track, scores[n - 1], strictness);
        let after = all_taken_in(matches, tracks, candidates, scores, strictness, n);
        assert forall|i: int| matches.len() <= i < after.len() implies {
            &&& (#[trigger] after[i]).accuracy >= strictness
            &&& is_candidate(tracks, candidates, n, after[i].track)
        } by {
            if i < before.len() {
                assert(before[i].accuracy >= strictness);
                assert(after[i].track == before[i].track);
                let k = choose|k: int|
                    0 <= k < n - 1 && before[i].track == tracks[(
                    #[trigger] candidates[k]).index as int];
                assert(0 <= k < n && after[i].track == tracks[candidates[k].index as int]);
            } else {
                assert(after[i].track == tracks[candidates[n - 1].index as int]);
            }
        }
        assert forall|k: int| 0 <= k < n && (#[trigger] scores[k]) >= strictness implies listed(
            after,
            tracks[candidates[k].index as int].url,
            scores[k],
        ) by {
            if k < n - 1 {
                let url = tracks[candidates[k].index as int].url;
                assert(listed(before, url, scores[k]));
                let i = choose|i: int|
                    0 <= i < before.len() && (#[trigger] before[i]).track.url == url
                        && before[i].accuracy >= scores[k];
                assert(after[i].track.url == url && after[i].accuracy >= scores[k]);
            }
        }
    }
}

/// A match made of a page's track without its version gets that track's version back.
pub proof fn law_versions_come_back(tracks: Seq<TrackView>, i: int, accuracy: u64)
    requires
        0 <= i < tracks.len(),
        forall|a: int, b: int|
            0 <= a < b < tracks.len() ==> (#[trigger] tracks[a]).url != (#[trigger] tracks[b]).url,
    ensures
        versioned(ScoredView { accuracy, track: unversioned(tracks[i]) }, tracks) == (ScoredView {
            accuracy,
            track: tracks[i],
        }),
{
    lemma_track_position(tracks, tracks[i].url);
    let k = track_position(tracks, tracks[i].url) as int;
    if k < i {
        assert(tracks[k].url != tracks[i].url);
    } else if i < k {
        assert(tracks[i].url != tracks[i].url);
    }
    assert(unversioned(tracks[i]).url == tracks[i].url);
}

/// What was listed is listed after ranking.
pub proof fn lemma_listed_ranked(matches: Seq<ScoredView>, url: Seq<char>, accuracy: u64)
    requires
        listed(matches, url, accuracy),
    ensures
        listed(ranked(matches), url, accuracy),
    decreases matches.len(),
{
    let i = choose|i: int|
        0 <= i < matches.len() && (#[trigger] matches[i]).track.url == url && matches[i].accuracy
            >= accuracy;
    let init = matches.drop_last();
    let before = ranked(init);
    let m = matches.last();
    let n = place_for(before, m.accuracy) as int;
    lemma_place_for(before, m.accuracy);
    let after = ranked(matches);
    if i < init.len() {
        assert(init[i].track.url == url);
        assert(listed(init, url, accuracy));
        lemma_listed_ranked(init, url, accuracy);
        let k = choose|k: int|
            0 <= k < before.len() && (#[trigger] before[k]).track.url == url
                && before[k].accuracy >= accuracy;
        let p = if k < n {
            k
        } else {
            k + 1
        };
        assert(after[p].track.url == url && after[p].accuracy >= accuracy);
    } else {
        assert(after[n].track.url == url && after[n].accuracy >= accuracy);
    }
}

/// Every match of a ranked list was there before.
pub proof fn lemma_ranked_from(matches: Seq<ScoredView>, i: int)
    requires
        0 <= i < ranked(matches).len(),
    ensures
        exists|k: int| 0 <= k < matches.len() && #[trigger] matches[k] == ranked(matches)[i],
    decreases matches.len(),
{
    if matches.len() > 0 {
        let init = matches.drop_last();
        let before = ranked(init);
        let n = place_for(before, matches.last().accuracy) as int;
        lemma_place_for(before, matches.last().accuracy);
        if i == n {
            assert(matches[matches.len() - 1] == ranked(matches)[i]);
        } else {
            let b = if i < n {
                i
            } else {
                i - 1
            };
            lemma_ranked_from(init, b);
            let k = choose|k: int| 0 <= k < init.len() && #[trigger] init[k] == before[b];
            assert(matches[k] == ranked(matches)[i]);
        }
    }
}

/// Ranking brings no address in a second time.
pub proof fn law_ranked_keeps_addresses(matches: Seq<ScoredView>)
    requires
        addresses_differ(matches),
    ensures
        addresses_differ(ranked(matches)),
    decreases matches.len(),
{
    if matches.len() > 0 {
        let init = matches.drop_last();
        let before = ranked(init);
        let m = matches.last();
        let n = place_for(before, m.accuracy) as int;
        lemma_place_for(before, m.accuracy);
        assert forall|i: int, j: int| 0 <= i < j < init.len() implies (
        #[trigger] init[i]).track.url != (#[trigger] init[j]).track.url by {
            assert(matches[i].track.url != matches[j].track.url);
        }
        law_ranked_keeps_addresses(init);
        assert forall|b: int| 0 <= b < before.len() implies (#[trigger] before[b]).track.url
            != m.track.url by {
            lemma_ranked_from(init, b);
            let k = choose|k: int| 0 <= k < init.len() && #[trigger] init[k] == before[b];
            assert(matches[k].track.url != matches[matches.len() - 1].track.url);
        }
        let after = ranked(matches);
        assert forall|i: int, j: int| 0 <= i < j < after.len() implies (
        #[trigger] after[i]).track.url != (#[trigger] after[j]).track.url by {
            let a = if i < n {
                i
            } else {
                i - 1
            };
            let b = if j < n {
                j
            } else {
                j - 1
            };
            if i == n {
                assert(before[b].track.url != m.track.url);
            } else if j == n {
                assert(before[a].track.url != m.track.url);
            } else {
                assert(before[a].track.url != before[b].track.url);
            }
        }
    }
}

/// A candidate among the first tracks of a page stays one among more of them.
proof fn lemma_candidates_grow(tracks: Seq<TrackView>, local_mix: Seq<char>, n: nat, m: nat)
    requires
        n <= m,
    ensures
        candidates_among(tracks, local_mix, n).is_prefix_of(candidates_among(tracks, local_mix, m)),
    decreases m,
{
    let a = candidates_among(tracks, local_mix, n);
    let b = candidates_among(tracks, local_mix, m);
    if n < m {
        lemma_candidates_grow(tracks, local_mix, n, (m - 1) as nat);
        let c = candidates_among(tracks, local_mix, (m - 1) as nat);
        assert forall|i: int| 0 <= i < a.len() implies a[i] == b[i] by {
            assert(c.subrange(0, a.len() as int)[i] == a[i]);
        }
        assert(a =~= b.subrange(0, a.len() as int));
    } else {
        assert(a =~= b.subrange(0, a.len() as int));
    }
}

/// Every track of a page whose mix agrees with the file's is a candidate.
pub proof fn law_agreeing_track_is_a_candidate(
    tracks: Seq<TrackView>,
    local_mix: Seq<char>,
    n: int,
)
    requires
        0 <= n < tracks.len() <= usize::MAX,
        track_agreement(tracks[n], local_mix) != MixAgreement::Incompatible,
    ensures
        exists|k: int|
            0 <= k < page_candidates(tracks, local_mix).len() && (#[trigger] page_candidates(
                tracks,
                local_mix,
            )[k]).index == n,
{
    let all = page_candidates(tracks, local_mix);
    let some = candidates_among(tracks, local_mix, (n + 1) as nat);
    lemma_candidates_grow(tracks, local_mix, (n + 1) as nat, tracks.len());
    let k = some.len() - 1;
    assert(some[k].index == n);
    assert(all.subrange(0, some.len() as int)[k] == some[k]);
    assert(all[k].index == n);
}

/// The candidates of a page stand in the order of the page, each track at most once.
pub proof fn law_candidates_in_page_order(
    tracks: Seq<TrackView>,
    local_mix: Seq<char>,
    n: nat,
)
    requires
        n <= tracks.len() <= usize::MAX,
    ensures
        forall|i: int, j: int|
            0 <= i < j < candidates_among(tracks, local_mix, n).len() ==> (
            #[trigger] candidates_among(tracks, local_mix, n)[i]).index < (
            #[trigger] candidates_among(tracks, local_mix, n)[j]).index,
    decreases n,
{
    if n > 0 {
        law_candidates_in_page_order(tracks, local_mix, (n - 1) as nat);
        lemma_candidates(tracks, local_mix, (n - 1) as nat);
        let before = candidates_among(tracks, local_mix, (n - 1) as nat);
        let after = candidates_among(tracks, local_mix, n);
        assert forall|i: int, j: int| 0 <= i < j < after.len() implies (#[trigger] after[i]).index
            < (#[trigger] after[j]).index by {
            assert(after[i] == before[i]);
            if j < before.len() {
                assert(after[j] == before[j]);
            }
        }
    }
}

/// A track without its version has no version, and is the track again once it has it back.
pub proof fn law_only_the_version_is_left_out(t: TrackView)
    ensures
        unversioned(t).version is None,
        (TrackView { version: t.version, ..unversioned(t) }) == t,
{
}

/// A match gets the version of the first track of its address on the page, and nothing else of it
/// changes. Where the page has no track of its address it stays as it is.
pub proof fn law_only_the_version_is_restored(m: ScoredView, tracks: Seq<TrackView>, n: int)
    requires
        0 <= n <= tracks.len(),
        n < tracks.len() ==> tracks[n].url == m.track.url,
        forall|i: int| 0 <= i < n ==> (#[trigger] tracks[i]).url != m.track.url,
    ensures
        versioned(m, tracks).accuracy == m.accuracy,
        (TrackView { version: m.track.version, ..versioned(m, tracks).track }) == m.track,
        versioned(m, tracks).track.version == (if n < tracks.len() {
            tracks[n].version
        } else {
            m.track.version
        }),
{
    lemma_track_position_is(tracks, m.track.url, n);
}

/// The mix of a file is compared with the version of a track by what kind each is, in lower case
/// and with punctuation blanked out. A track without a version counts as one with an empty one.
pub proof fn law_versions_are_compared_by_kind(
    track: TrackView,
    local_mix: Seq<char>,
)
    ensures
        ({
            let version = if track.version is Some {
                track.version->0
            } else {
                Seq::empty()
            };
            let local = mix_type(lowercase(blanked(lowercase(local_mix))));
            let api = mix_type(lowercase(blanked(lowercase(version))));
            let r = track_agreement(track, local_mix);
            &&& local != api ==> r == (match (local, api) {
                (MixType::Club, MixType::Extended) => MixAgreement::Full,
                (MixType::Extended, MixType::Club) => MixAgreement::Full,
                (MixType::Original, MixType::Unknown) => MixAgreement::Loose,
                (MixType::Unknown, MixType::Original) => MixAgreement::Loose,
                _ => MixAgreement::Incompatible,
            })
            &&& local == api && local != MixType::Remix && local != MixType::Dub ==> r
                == MixAgreement::Full
        }),
{
    let version = if track.version is Some {
        track.version->0
    } else {
        Seq::empty()
    };
    let a = blanked(lowercase(local_mix));
    let b = blanked(lowercase(version));
    if mix_type(lowercase(a)) != mix_type(lowercase(b)) {
        law_different_kinds(mix_type(lowercase(a)), a, mix_type(lowercase(b)), b);
    } else {
        law_equal_kinds(mix_type(lowercase(a)), a, b);
    }
}

/// Remixes and dubs are compared by the telling words of the two mixes, in lower case and with
/// punctuation blanked out: they are taken for the same if they share at least half of them.
pub proof fn law_remixes_are_compared_by_words(track: TrackView, local_mix: Seq<char>)
    ensures
        ({
            let version = if track.version is Some {
                track.version->0
            } else {
                Seq::empty()
            };
            let local = blanked(lowercase(local_mix));
            let api = blanked(lowercase(version));
            let kind = mix_type(lowercase(local));
            let shared = telling_words(local).intersect(telling_words(api)).len();
            let total = telling_words(local).union(telling_words(api)).len();
            kind == mix_type(lowercase(api)) && (kind == MixType::Remix || kind == MixType::Dub)
                ==> track_agreement(track, local_mix) == (if total == 0 {
                MixAgreement::Full
            } else if shared + shared < total {
                MixAgreement::Incompatible
            } else {
                MixAgreement::Overlap { shared: shared as u128, total: total as u128 }
            })
        }),
{
    let version = if track.version is Some {
        track.version->0
    } else {
        Seq::empty()
    };
    let local = blanked(lowercase(local_mix));
    law_equal_kinds(mix_type(lowercase(local)), local, blanked(lowercase(version)));
}

/// A track of a page is a candidate exactly if its mix agrees with that of the file; a candidate
/// has the measure of that agreement, and the title of its track without featured-artist notes.
pub proof fn law_candidates(tracks: Seq<TrackView>, local_mix: Seq<char>, n: int)
    requires
        0 <= n < tracks.len() <= usize::MAX,
    ensures
        ({
            let list = page_candidates(tracks, local_mix);
            &&& list.len() <= tracks.len()
            &&& (exists|k: int| 0 <= k < list.len() && (#[trigger] list[k]).index == n)
                <==> track_agreement(tracks[n], local_mix) != MixAgreement::Incompatible
            &&& forall|k: int|
                0 <= k < list.len() && (#[trigger] list[k]).index == n ==> {
                    &&& list[k].mix == track_agreement(tracks[n], local_mix)
                    &&& list[k].title == without_features(tracks[n].title)
                }
        }),
{
    lemma_candidates(tracks, local_mix, tracks.len());
    lemma_candidate_titles(tracks, local_mix, tracks.len());
    if track_agreement(tracks[n], local_mix) != MixAgreement::Incompatible {
        law_agreeing_track_is_a_candidate(tracks, local_mix, n);
    }
}

/// Each candidate has the title of its track without featured-artist notes.
proof fn lemma_candidate_titles(tracks: Seq<TrackView>, local_mix: Seq<char>, n: nat)
    requires
        n <= tracks.len() <= usize::MAX,
    ensures
        forall|k: int|
            0 <= k < candidates_among(tracks, local_mix, n).len() ==> (#[trigger] candidates_among(
                tracks,
                local_mix,
                n,
            )[k]).title == without_features(
                tracks[candidates_among(tracks, local_mix, n)[k].index as int].title,
            ),
    decreases n,
{
    if n > 0 {
        lemma_candidate_titles(tracks, local_mix, (n - 1) as nat);
        let before = candidates_among(tracks, local_mix, (n - 1) as nat);
        let after = candidates_among(tracks, local_mix, n);
        assert forall|k: int| 0 <= k < after.len() implies (#[trigger] after[k]).title
            == without_features(tracks[after[k].index as int].title) by {
            if k < before.len() {
                assert(after[k] == before[k]);
            }
        }
    }
}

/// What becomes of the matches of a page when a track is taken in. Where the track falls short,
/// nothing. Else, where a match of its address stands, the first such has the better of the two
/// accuracies, and nothing else changes; and where none stands, the track comes last with its
/// accuracy.
pub proof fn law_taken_in_exactly(
    matches: Seq<ScoredView>,
    track: TrackView,
    accuracy: u64,
    strictness: u64,
    n: int,
)
    requires
        0 <= n <= matches.len(),
        n < matches.len() ==> matches[n].track.url == track.url,
        forall|i: int| 0 <= i < n ==> (#[trigger] matches[i]).track.url != track.url,
    ensures
        ({
            let after = taken_in(matches, track, accuracy, strictness);
            &&& accuracy < strictness ==> after == matches
            &&& n < matches.len() ==> after.len() == matches.len()
            &&& forall|i: int|
                0 <= i < matches.len() && i != n ==> #[trigger] after[i] == matches[i]
            &&& accuracy >= strictness && n < matches.len() ==> {
                &&& after[n].track == matches[n].track
                &&& after[n].accuracy == (if accuracy > matches[n].accuracy {
                    accuracy
                } else {
                    matches[n].accuracy
                })
            }
            &&& accuracy >= strictness && n == matches.len() ==> {
                &&& after.len() == n + 1
                &&& after[n].track == track
                &&& after[n].accuracy == accuracy
            }
        }),
{
    let list = matches.map_values(|m: ScoredView| m.track);
    assert forall|i: int| 0 <= i < n implies (#[trigger] list[i]).url != track.url by {
        assert(matches[i].track.url != track.url);
    }
    lemma_track_position_is(list, track.url, n);
}

/// Every accuracy of a page's matches comes from somewhere: it is that which the match was given
/// with, or that of a candidate of the same address.
pub proof fn law_accuracies_are_not_made_up(
    matches: Seq<ScoredView>,
    tracks: Seq<TrackView>,
    candidates: Seq<CandidateView>,
    scores: Seq<u64>,
    strictness: u64,
    n: nat,
    i: int,
)
    requires
        0 <= i < all_taken_in(matches, tracks, candidates, scores, strictness, n).len(),
    ensures
        ({
            let m = all_taken_in(matches, tracks, candidates, scores, strictness, n)[i];
            ||| i < matches.len() && m.accuracy == matches[i].accuracy
            ||| exists|k: int|
                0 <= k < n && m.accuracy == #[trigger] scores[k] && m.track.url
                    == tracks[candidates[k].index as int].url
        }),
    decreases n,
{
    if n > 0 {
        let before = all_taken_in(matches, tracks, candidates, scores, strictness, (n - 1) as nat);
        let after = all_taken_in(matches, tracks, candidates, scores, strictness, n);
        let track = tracks[candidates[n - 1].index as int];
        let list = before.map_values(|m: ScoredView| m.track);
        lemma_track_position(list, track.url);
        let p = match_position(before, track.url) as int;
        if p < before.len() {
            assert(list[p].url == track.url);
        }
        if i < before.len() && after[i] == before[i] {
            law_accuracies_are_not_made_up(
                matches,
                tracks,
                candidates,
                scores,
                strictness,
                (n - 1) as nat,
                i,
            );
            if !(i < matches.len() && before[i].accuracy == matches[i].accuracy) {
                let k = choose|k: int|
                    0 <= k < n - 1 && before[i].accuracy == #[trigger] scores[k]
                        && before[i].track.url == tracks[candidates[k].index as int].url;
                assert(after[i].accuracy == scores[k]);
            }
        } else {
            assert(after[i].accuracy == scores[n - 1]);
            assert(after[i].track.url == track.url);
        }
    }
}

/// What is read of a match or a candidate is what it holds.
pub proof fn law_match_reading(m: ScoredTrack, c: Candidate)
    ensures
        m@.accuracy == m.accuracy,
        m@.track == m.track@,
        m.deep_view() == m@,
        c@.index == c.index,
        c@.mix == c.mix,
        c@.title == c.title@,
        c.deep_view() == c@,
{
}

/// The tracks that a page's candidates add to its matches stand in the order of the candidates.
pub proof fn law_added_in_order_of_candidates(
    matches: Seq<ScoredView>,
    tracks: Seq<TrackView>,
    candidates: Seq<CandidateView>,
    scores: Seq<u64>,
    strictness: u64,
    n: nat,
    i: int,
    j: int,
)
    requires
        matches.len() <= i < j < all_taken_in(
            matches,
            tracks,
            candidates,
            scores,
            strictness,
            n,
        ).len(),
    ensures
        ({
            let after = all_taken_in(matches, tracks, candidates, scores, strictness, n);
            exists|k: int, l: int|
                0 <= k < l < n && after[i].track == tracks[(#[trigger] candidates[k]).index as int]
                    && after[j].track == tracks[(#[trigger] candidates[l]).index as int]
        }),
    decreases n,
{
    if n > 0 {
        let m = (n - 1) as nat;
        let before = all_taken_in(matches, tracks, candidates, scores, strictness, m);
        let after = all_taken_in(matches, tracks, candidates, scores, strictness, n);
        let track = tracks[candidates[n - 1].index as int];
        law_taken_in(before, track, scores[n - 1], strictness);
        if j < before.len() {
            law_added_in_order_of_candidates(
                matches,
                tracks,
                candidates,
                scores,
                strictness,
                m,
                i,
                j,
            );
            let (k, l) = choose|k: int, l: int|
                0 <= k < l < m && before[i].track == tracks[(
                #[trigger] candidates[k]).index as int] && before[j].track == tracks[(
                #[trigger] candidates[l]).index as int];
            assert(after[i].track == before[i].track && after[j].track == before[j].track);
            assert(after[i].track == tracks[candidates[k].index as int]);
        } else {
            assert(j == before.len());
            law_all_taken_in(matches, tracks, candidates, scores, strictness, m);
            assert(is_candidate(tracks, candidates, m, before[i].track));
            let k = choose|k: int|
                0 <= k < m && before[i].track == tracks[(
                #[trigger] candidates[k]).index as int];
            assert(after[i].track == tracks[candidates[k].index as int]);
            assert(after[j].track == tracks[candidates[n - 1].index as int]);
        }
    }
}

} // verus!
