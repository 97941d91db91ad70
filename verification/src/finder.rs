//! The search for a file's tracks, step by step: what to ask for next, given what came back.
use vstd::prelude::*;
use crate::artists::{artist_agreement, compare_artists, ArtistAgreement};
use crate::catalog::{BeatportTrack, BeatportTrackResults};
use crate::matching::{
    addresses_differ, all_taken_in, falling, find_candidates, is_candidate, is_given,
    law_accuracies_are_not_made_up, law_agreeing_track_is_a_candidate, law_all_taken_in,
    law_candidates, law_ranked_falls, law_ranked_keeps_addresses, lemma_candidates,
    lemma_listed_ranked, lemma_ranked_from, lemma_track_position, listed, page_candidates, rank,
    ranked, restore_versions, take_all_in, track_agreement, unversioned, versioned,
    without_versions, Candidate, CandidateView, ScoredTrack, ScoredView,
};
use crate::mix::MixAgreement;
use crate::number::{
    i64_value, int_text, law_int_text_reads_back, lemma_int_text_is_unbroken, parse_i64,
};
use crate::outside::{similarity, similarity_bits, ONE_BITS};
use crate::session::{SearchReply, TrackReply};
use crate::text::{
    is_blank, is_space, law_removed_character, law_trimmed_is_the_middle, lemma_replaced_after,
    occurs_at, replace, replaced, trim, trimmed,
};
use crate::title::{split_title, strip_features, title_and_mix, without_features};
use crate::track::{copy_tracks, to_tracks, track_of, tracks_of, Track, TrackView};

verus! {

/// The number of results asked for when looking for an ISRC.
pub const ISRC_RESULTS: usize = 25;

/// The number of results on a page when looking for a title.
pub const PAGE_RESULTS: usize = 50;

/// The options of the platform.
#[derive(Debug, Clone, Copy, PartialEq, Eq, Structural)]
pub struct BeatportConfig {
    pub art_resolution: u32,
    pub max_pages: i32,
    pub ignore_version: bool,
}

/// The options of every search.
#[derive(Debug, Clone, Copy, PartialEq, Eq, Structural)]
pub struct MatchOptions {
    /// Go on after a match, and gather all.
    pub fetch_all_results: bool,
    /// The accuracy that a match has to reach.
    pub strictness: u64,
}

/// What is known of a file.
#[derive(Debug)]
pub struct FileInfo {
    /// The values of its Beatport track identifier tag.
    pub id_tag: Vec<String>,
    pub isrc: Option<String>,
    pub title: Option<String>,
    /// Its artist as a search is made for it, where it has any.
    pub artist: Option<String>,
    pub artists: Vec<String>,
}

/// The mathematical reading of a [`FileInfo`].
#[verifier::ext_equal]
pub struct FileView {
    pub id_tag: Seq<Seq<char>>,
    pub isrc: Option<Seq<char>>,
    pub title: Option<Seq<char>>,
    pub artist: Option<Seq<char>>,
    pub artists: Seq<Seq<char>>,
}

impl View for FileInfo {
    type V = FileView;

    open spec fn view(&self) -> FileView {
        FileView {
            id_tag: self.id_tag.deep_view(),
            isrc: self.isrc.deep_view(),
            title: self.title.deep_view(),
            artist: self.artist.deep_view(),
            artists: self.artists.deep_view(),
        }
    }
}

/// A track that was found, and how.
#[derive(Debug)]
pub enum TrackMatch {
    /// By the identifier in the file's tags.
    Id(Track),
    /// By the file's ISRC.
    Isrc(Track),
    /// By likeness.
    Similar(ScoredTrack),
}

/// The mathematical reading of a [`TrackMatch`].
pub enum MatchView {
    Id(TrackView),
    Isrc(TrackView),
    Similar(ScoredView),
}

impl View for TrackMatch {
    type V = MatchView;

    open spec fn view(&self) -> MatchView {
        match self {
            TrackMatch::Id(t) => MatchView::Id(t@),
            TrackMatch::Isrc(t) => MatchView::Isrc(t@),
            TrackMatch::Similar(s) => MatchView::Similar(s@),
        }
    }
}

impl DeepView for TrackMatch {
    type V = MatchView;

    open spec fn deep_view(&self) -> MatchView {
        self@
    }
}

/// What the search waits for.
#[derive(Debug, Clone, Copy, PartialEq, Eq, Structural)]
pub enum Stage {
    /// To be started.
    Start,
    /// The track of the file's identifier.
    IdTrack,
    /// The results for the file's ISRC.
    IsrcResults,
    /// The track of the first of those results.
    IsrcTrack,
    /// The cleaned title.
    CleanTitle,
    /// The results of a page.
    PageResults,
    /// The matches among them.
    PageMatches,
    /// The accuracies of the candidates among them.
    PageScores,
    /// Nothing more.
    Done,
}

/// What came back.
#[derive(Debug)]
pub enum MatchEvent {
    Start,
    Track(TrackReply),
    Results(SearchReply),
    CleanTitle(String),
    Matches(Vec<ScoredTrack>),
    Scores(Vec<u64>),
}

/// The mathematical reading of a [`MatchEvent`].
pub enum EventView {
    Start,
    Track(TrackReply),
    Results(SearchReply),
    CleanTitle(Seq<char>),
    Matches(Seq<ScoredView>),
    Scores(Seq<u64>),
}

impl View for MatchEvent {
    type V = EventView;

    open spec fn view(&self) -> EventView {
        match self {
            MatchEvent::Start => EventView::Start,
            MatchEvent::Track(r) => EventView::Track(*r),
            MatchEvent::Results(r) => EventView::Results(*r),
            MatchEvent::CleanTitle(s) => EventView::CleanTitle(s@),
            MatchEvent::Matches(v) => EventView::Matches(v.deep_view()),
            MatchEvent::Scores(v) => EventView::Scores(v@),
        }
    }
}

/// What to do next.
#[derive(Debug)]
pub enum MatchAction {
    /// Fetch the track of this identifier.
    FetchTrack(i64),
    /// Search for this.
    Search { query: String, page: i32, per_page: usize },
    /// Clean this title for a search.
    CleanTitle(String),
    /// Match the file against these tracks.
    MatchTracks(Vec<Track>),
    /// Find the accuracy of each of these candidates for this title.
    Score { local_title: String, candidates: Vec<Candidate> },
    /// Hand the matches out.
    Finish,
    /// Report that the file has no artist.
    NoArtist,
}

/// The mathematical reading of a [`MatchAction`].
pub enum ActionView {
    FetchTrack(i64),
    Search { query: Seq<char>, page: i32, per_page: usize },
    CleanTitle(Seq<char>),
    MatchTracks(Seq<TrackView>),
    Score { local_title: Seq<char>, candidates: Seq<CandidateView> },
    Finish,
    NoArtist,
}

impl View for MatchAction {
    type V = ActionView;

    open spec fn view(&self) -> ActionView {
        match self {
            MatchAction::FetchTrack(id) => ActionView::FetchTrack(*id),
            MatchAction::Search { query, page, per_page } => ActionView::Search {
                query: query@,
                page: *page,
                per_page: *per_page,
            },
            MatchAction::CleanTitle(s) => ActionView::CleanTitle(s@),
            MatchAction::MatchTracks(v) => ActionView::MatchTracks(v.deep_view()),
            MatchAction::Score { local_title, candidates } => ActionView::Score {
                local_title: local_title@,
                candidates: candidates.deep_view(),
            },
            MatchAction::Finish => ActionView::Finish,
            MatchAction::NoArtist => ActionView::NoArtist,
        }
    }
}

/// What the accuracy of a candidate is made of.
#[derive(Debug, Clone, Copy, PartialEq, Eq, Structural)]
pub struct ScoreParts {
    /// The bit pattern of the likeness of the titles, between zero and one.
    pub title: u64,
    /// How well the artists agree.
    pub artist: ArtistAgreement,
    /// How well the mixes agree.
    pub mix: MixAgreement,
}

/// The state of a search.
#[derive(Debug)]
pub struct Finder {
    pub config: BeatportConfig,
    pub options: MatchOptions,
    pub file: FileInfo,
    pub stage: Stage,
    /// The file's title without featured-artist notes.
    pub title: String,
    pub query: String,
    pub page: i32,
    /// The tracks of the page.
    pub tracks: Vec<Track>,
    /// The matches of the page.
    pub matches: Vec<ScoredTrack>,
    pub candidates: Vec<Candidate>,
    /// What was found.
    pub output: Vec<TrackMatch>,
}

/// The mathematical reading of a [`Finder`].
#[verifier::ext_equal]
pub struct FinderView {
    pub config: BeatportConfig,
    pub options: MatchOptions,
    pub file: FileView,
    pub stage: Stage,
    pub title: Seq<char>,
    pub query: Seq<char>,
    pub page: i32,
    pub tracks: Seq<TrackView>,
    pub matches: Seq<ScoredView>,
    pub candidates: Seq<CandidateView>,
    pub output: Seq<MatchView>,
}

impl View for Finder {
    type V = FinderView;

    open spec fn view(&self) -> FinderView {
        FinderView {
            config: self.config,
            options: self.options,
            file: self.file@,
            stage: self.stage,
            title: self.title@,
            query: self.query@,
            page: self.page,
            tracks: self.tracks.deep_view(),
            matches: self.matches.deep_view(),
            candidates: self.candidates.deep_view(),
            output: self.output.deep_view(),
        }
    }
}

/// The track identifier in a file's tags: its first value, trimmed and without null characters,
/// where that writes a number.
pub open spec fn tagged_id(values: Seq<Seq<char>>) -> Option<i64> {
    if values.len() == 0 {
        None
    } else {
        i64_value(replaced(trimmed(values[0]), "\0"@, ""@))
    }
}

/// The track identifier in a file's tags.
pub fn read_tagged_id(values: &Vec<String>) -> (r: Option<i64>)
    ensures
        r == tagged_id(values.deep_view()),
{
    if values.len() == 0 {
        return None;
    }
    proof {
        reveal_strlit("\0");
    }
    let text = trim(&values[0]);
    parse_i64(replace(&text, "\0", "").as_str())
}

/// A match reaches an accuracy. One that was found by an identifier always does.
pub open spec fn reaches(m: MatchView, strictness: u64) -> bool {
    match m {
        MatchView::Similar(s) => s.accuracy >= strictness,
        _ => true,
    }
}

/// Some match reaches an accuracy.
pub open spec fn any_reaches(matches: Seq<MatchView>, strictness: u64) -> bool {
    exists|i: int| 0 <= i < matches.len() && #[trigger] reaches(matches[i], strictness)
}

/// The state before a search.
pub open spec fn initial(config: BeatportConfig, options: MatchOptions, file: FileView) -> FinderView {
    FinderView {
        config,
        options,
        file,
        stage: Stage::Start,
        title: Seq::empty(),
        query: Seq::empty(),
        page: 0,
        tracks: Seq::empty(),
        matches: Seq::empty(),
        candidates: Seq::empty(),
        output: Seq::empty(),
    }
}

impl FinderView {
    /// The event is what the search waits for.
    pub open spec fn awaits(self, event: EventView) -> bool {
        match event {
            EventView::Start => self.stage == Stage::Start,
            EventView::Track(_) => self.stage == Stage::IdTrack || self.stage == Stage::IsrcTrack,
            EventView::Results(_) => self.stage == Stage::IsrcResults || self.stage
                == Stage::PageResults,
            EventView::CleanTitle(_) => self.stage == Stage::CleanTitle,
            EventView::Matches(_) => self.stage == Stage::PageMatches,
            EventView::Scores(scores) => {
                &&& self.stage == Stage::PageScores
                &&& scores.len() == self.candidates.len()
            },
        }
    }

    /// What holds of every state of a search.
    pub open spec fn valid(self) -> bool {
        &&& self.config.max_pages < i32::MAX
        &&& self.stage == Stage::CleanTitle ==> self.file.artist is Some
        &&& self.paging() ==> 1 <= self.page <= self.config.max_pages
        &&& self.stage == Stage::PageMatches || self.stage == Stage::PageScores
            ==> self.tracks.len() <= usize::MAX
        &&& self.stage == Stage::PageScores ==> self.candidates == page_candidates(
            self.tracks,
            title_and_mix(self.title).1,
        )
    }

    /// The search is at a page.
    pub open spec fn paging(self) -> bool {
        self.stage == Stage::PageResults || self.stage == Stage::PageMatches || self.stage
            == Stage::PageScores
    }

    /// The search ends.
    pub open spec fn finished(self) -> (FinderView, ActionView) {
        (FinderView { stage: Stage::Done, ..self }, ActionView::Finish)
    }

    /// Go on to a page, or end after the last.
    pub open spec fn at_page(self, page: int) -> (FinderView, ActionView) {
        if page <= self.config.max_pages {
            (
                FinderView { stage: Stage::PageResults, page: page as i32, ..self },
                ActionView::Search {
                    query: self.query,
                    page: page as i32,
                    per_page: PAGE_RESULTS,
                },
            )
        } else {
            self.finished()
        }
    }

    /// Go on to the file's title. It takes an artist to search by.
    pub open spec fn at_title(self) -> (FinderView, ActionView) {
        let title = without_features(
            match self.file.title {
                Some(t) => t,
                None => Seq::empty(),
            },
        );
        if self.file.artist is Some {
            (
                FinderView { stage: Stage::CleanTitle, title, ..self },
                ActionView::CleanTitle(title),
            )
        } else {
            (FinderView { stage: Stage::Done, title, ..self }, ActionView::NoArtist)
        }
    }

    /// Go on to the file's ISRC, or past it where it has none.
    pub open spec fn at_isrc(self) -> (FinderView, ActionView) {
        match self.file.isrc {
            Some(isrc) => (
                FinderView { stage: Stage::IsrcResults, ..self },
                ActionView::Search { query: isrc, page: 1, per_page: ISRC_RESULTS },
            ),
            None => self.at_title(),
        }
    }

    /// Begin with the identifier in the file's tags, or go past it where there is none.
    pub open spec fn at_start(self) -> (FinderView, ActionView) {
        match tagged_id(self.file.id_tag) {
            Some(id) => (
                FinderView { stage: Stage::IdTrack, ..self },
                ActionView::FetchTrack(id),
            ),
            None => self.at_isrc(),
        }
    }

    /// A track was found by an identifier: it is all that is handed out, unless all results are
    /// to be gathered.
    pub open spec fn with_exact(self, m: MatchView) -> FinderView {
        if self.options.fetch_all_results {
            FinderView { output: self.output.push(m), ..self }
        } else {
            FinderView { output: seq![m], ..self }
        }
    }

    /// A track came back, or did not.
    pub open spec fn on_track(self, reply: TrackReply) -> (FinderView, ActionView) {
        let by_id = self.stage == Stage::IdTrack;
        match reply {
            TrackReply::Found(t) => {
                let track = track_of(t, self.config.art_resolution);
                let found = self.with_exact(
                    if by_id {
                        MatchView::Id(track)
                    } else {
                        MatchView::Isrc(track)
                    },
                );
                if !self.options.fetch_all_results {
                    found.finished()
                } else if by_id {
                    found.at_isrc()
                } else {
                    found.at_title()
                }
            },
            _ => if by_id {
                self.at_isrc()
            } else {
                self.at_title()
            },
        }
    }

    /// Search results came back, or did not.
    pub open spec fn on_results(self, reply: SearchReply) -> (FinderView, ActionView) {
        if self.stage == Stage::IsrcResults {
            match reply {
                SearchReply::Found(results) => if results.data@.len() > 0 {
                    (
                        FinderView { stage: Stage::IsrcTrack, ..self },
                        ActionView::FetchTrack(results.data@[0].id),
                    )
                } else {
                    self.at_title()
                },
                SearchReply::Failed => self.at_title(),
            }
        } else {
            match reply {
                SearchReply::Found(results) => {
                    let tracks = tracks_of(results.data@, self.config.art_resolution);
                    (
                        FinderView { stage: Stage::PageMatches, tracks, ..self },
                        ActionView::MatchTracks(
                            if self.config.ignore_version {
                                tracks.map_values(|t: TrackView| unversioned(t))
                            } else {
                                tracks
                            },
                        ),
                    )
                },
                SearchReply::Failed => self.finished(),
            }
        }
    }

    /// The cleaned title came back: search for it with the artist, from the first page on.
    pub open spec fn on_clean_title(self, clean: Seq<char>) -> (FinderView, ActionView) {
        FinderView { query: self.file.artist->0 + " "@ + clean, ..self }.at_page(1)
    }

    /// The matches of the page came back: look for candidates by their mix.
    pub open spec fn on_matches(self, found: Seq<ScoredView>) -> (FinderView, ActionView) {
        let tracks = self.tracks;
        let matches = if self.config.ignore_version {
            found.map_values(|m: ScoredView| versioned(m, tracks))
        } else {
            found
        };
        let (local_title, local_mix) = title_and_mix(self.title);
        let candidates = page_candidates(tracks, local_mix);
        (
            FinderView { stage: Stage::PageScores, matches, candidates, ..self },
            ActionView::Score { local_title, candidates },
        )
    }

    /// The matches of the page once its candidates have their accuracies.
    pub open spec fn page_result(self, scores: Seq<u64>) -> Seq<ScoredView> {
        ranked(
            all_taken_in(
                self.matches,
                self.tracks,
                self.candidates,
                scores,
                self.options.strictness,
                self.candidates.len(),
            ),
        )
    }

    /// The accuracies of the page's candidates came back: hand out what was found if it is good
    /// enough and not all results are wanted, else go on to the next page.
    pub open spec fn on_scores(self, scores: Seq<u64>) -> (FinderView, ActionView) {
        let output = self.output + self.page_result(scores).map_values(
            |s: ScoredView| MatchView::Similar(s),
        );
        let found = FinderView {
            output,
            tracks: Seq::empty(),
            matches: Seq::empty(),
            candidates: Seq::empty(),
            ..self
        };
        if !self.options.fetch_all_results && any_reaches(output, self.options.strictness) {
            found.finished()
        } else {
            found.at_page(self.page + 1)
        }
    }

    /// What the accuracy of a page's candidate is made of, given whether its artists were found
    /// to match as they stand, and the two titles as they are compared.
    pub open spec fn parts_of(
        self,
        n: int,
        artists_matched: bool,
        local_title: Seq<char>,
        api_title: Seq<char>,
    ) -> ScoreParts {
        let candidate = self.candidates[n];
        let track = self.tracks[candidate.index as int];
        ScoreParts {
            title: similarity_bits(local_title, api_title),
            artist: artist_agreement(
                artists_matched,
                self.file.artists,
                track.artists,
                track.title,
            ),
            mix: candidate.mix,
        }
    }

    /// The next state and what to do, given what came back.
    pub open spec fn next(self, event: EventView) -> (FinderView, ActionView) {
        match event {
            EventView::Start => self.at_start(),
            EventView::Track(reply) => self.on_track(reply),
            EventView::Results(reply) => self.on_results(reply),
            EventView::CleanTitle(clean) => self.on_clean_title(clean),
            EventView::Matches(found) => self.on_matches(found),
            EventView::Scores(scores) => self.on_scores(scores),
        }
    }
}

/// Whether some match reaches an accuracy.
pub fn some_reaches(matches: &Vec<TrackMatch>, strictness: u64) -> (r: bool)
    ensures
        r == any_reaches(matches.deep_view(), strictness),
{
    let ghost list = matches.deep_view();
    let mut i: usize = 0;
    while i < matches.len()
        invariant
            list == matches.deep_view(),
            i <= matches@.len(),
            forall|k: int| 0 <= k < i ==> !#[trigger] reaches(list[k], strictness),
        decreases matches@.len() - i,
    {
        assert(list[i as int] == matches@[i as int]@);
        let good = match &matches[i] {
            TrackMatch::Similar(s) => s.accuracy >= strictness,
            _ => true,
        };
        if good {
            assert(reaches(list[i as int], strictness));
            return true;
        }
        i = i + 1;
    }
    false
}

/// Appends the matches of a page to what was found.
fn append_matches(output: &mut Vec<TrackMatch>, page: Vec<ScoredTrack>)
    ensures
        final(output).deep_view() == old(output).deep_view() + page.deep_view().map_values(
            |s: ScoredView| MatchView::Similar(s),
        ),
{
    let ghost start = output.deep_view();
    let ghost list = page.deep_view().map_values(|s: ScoredView| MatchView::Similar(s));
    let ghost given = page.deep_view();
    let mut rest = page;
    let ghost mut n: int = 0;
    while rest.len() > 0
        invariant
            0 <= n <= given.len(),
            list == given.map_values(|s: ScoredView| MatchView::Similar(s)),
            rest@.len() == given.len() - n,
            rest.deep_view() =~= given.skip(n),
            output.deep_view() =~= start + list.take(n),
        decreases rest@.len(),
    {
        let ghost left = rest.deep_view();
        let ghost before = output.deep_view();
        let s = rest.remove(0);
        assert(s@ == given[n]) by {
            assert(left[0] == given[n]);
        }
        let m = TrackMatch::Similar(s);
        assert(m@ == list[n]);
        output.push(m);
        assert(output.deep_view() =~= before.push(list[n]));
        assert(rest.deep_view() =~= left.skip(1));
        proof {
            n = n + 1;
        }
    }
    assert(list.take(n) =~= list);
}

/// A copy of a list of candidates.
fn copy_candidates(list: &Vec<Candidate>) -> (r: Vec<Candidate>)
    ensures
        r.deep_view() == list.deep_view(),
{
    let ghost all = list.deep_view();
    let mut r: Vec<Candidate> = Vec::new();
    let mut i: usize = 0;
    while i < list.len()
        invariant
            all == list.deep_view(),
            i <= list@.len(),
            r.deep_view() =~= all.take(i as int),
        decreases list@.len() - i,
    {
        let ghost before = r.deep_view();
        let c = &list[i];
        let copy = Candidate { index: c.index, mix: c.mix, title: c.title.clone() };
        assert(copy@ == all[i as int]);
        r.push(copy);
        assert(r.deep_view() =~= before.push(all[i as int]));
        i = i + 1;
    }
    assert(r.deep_view() =~= all);
    r
}

impl Finder {
    /// The state before a search.
    pub fn new(config: BeatportConfig, options: MatchOptions, file: FileInfo) -> (r: Finder)
        requires
            config.max_pages < i32::MAX,
        ensures
            r@ == initial(config, options, file@),
            r@.valid(),
    {
        let r = Finder {
            config,
            options,
            file,
            stage: Stage::Start,
            title: String::new(),
            query: String::new(),
            page: 0,
            tracks: Vec::new(),
            matches: Vec::new(),
            candidates: Vec::new(),
            output: Vec::new(),
        };
        assert(r@ =~= initial(config, options, file@));
        r
    }

    /// The search ends.
    fn finished(self) -> (r: (Finder, MatchAction))
        ensures
            (r.0@, r.1@) == self@.finished(),
    {
        (Finder { stage: Stage::Done, ..self }, MatchAction::Finish)
    }

    /// Go on to a page, or end after the last.
    fn at_page(self, page: i32) -> (r: (Finder, MatchAction))
        ensures
            (r.0@, r.1@) == self@.at_page(page as int),
    {
        if page <= self.config.max_pages {
            let query = self.query.clone();
            (
                Finder { stage: Stage::PageResults, page, ..self },
                MatchAction::Search { query, page, per_page: PAGE_RESULTS },
            )
        } else {
            self.finished()
        }
    }

    /// Go on to the file's title.
    fn at_title(self) -> (r: (Finder, MatchAction))
        ensures
            (r.0@, r.1@) == self@.at_title(),
    {
        let title = match &self.file.title {
            Some(t) => strip_features(t),
            None => strip_features(""),
        };
        proof {
            reveal_strlit("");
            assert(""@ =~= Seq::<char>::empty());
        }
        if self.file.artist.is_some() {
            let action = MatchAction::CleanTitle(title.clone());
            (Finder { stage: Stage::CleanTitle, title, ..self }, action)
        } else {
            (Finder { stage: Stage::Done, title, ..self }, MatchAction::NoArtist)
        }
    }

    /// Go on to the file's ISRC, or past it where it has none.
    fn at_isrc(self) -> (r: (Finder, MatchAction))
        ensures
            (r.0@, r.1@) == self@.at_isrc(),
    {
        match &self.file.isrc {
            Some(isrc) => {
                let action = MatchAction::Search {
                    query: isrc.clone(),
                    page: 1,
                    per_page: ISRC_RESULTS,
                };
                (Finder { stage: Stage::IsrcResults, ..self }, action)
            },
            None => self.at_title(),
        }
    }

    /// Begin with the identifier in the file's tags, or go past it where there is none.
    fn at_start(self) -> (r: (Finder, MatchAction))
        ensures
            (r.0@, r.1@) == self@.at_start(),
    {
        match read_tagged_id(&self.file.id_tag) {
            Some(id) => (
                Finder { stage: Stage::IdTrack, ..self },
                MatchAction::FetchTrack(id),
            ),
            None => self.at_isrc(),
        }
    }

    /// A track was found by an identifier.
    fn with_exact(self, m: TrackMatch) -> (r: Finder)
        ensures
            r@ == self@.with_exact(m@),
    {
        let ghost start = self@;
        let ghost found = m@;
        if self.options.fetch_all_results {
            let mut output = self.output;
            output.push(m);
            assert(output.deep_view() =~= start.output.push(found));
            Finder { output, ..self }
        } else {
            let mut output: Vec<TrackMatch> = Vec::new();
            output.push(m);
            assert(output.deep_view() =~= seq![found]);
            Finder { output, ..self }
        }
    }

    /// A track came back, or did not.
    fn on_track(self, reply: TrackReply) -> (r: (Finder, MatchAction))
        ensures
            (r.0@, r.1@) == self@.on_track(reply),
    {
        let by_id = self.stage == Stage::IdTrack;
        match reply {
            TrackReply::Found(t) => {
                let all = self.options.fetch_all_results;
                let track = t.to_track(self.config.art_resolution);
                let m = if by_id {
                    TrackMatch::Id(track)
                } else {
                    TrackMatch::Isrc(track)
                };
                let found = self.with_exact(m);
                if !all {
                    found.finished()
                } else if by_id {
                    found.at_isrc()
                } else {
                    found.at_title()
                }
            },
            _ => if by_id {
                self.at_isrc()
            } else {
                self.at_title()
            },
        }
    }

    /// Search results came back, or did not.
    fn on_results(self, reply: SearchReply) -> (r: (Finder, MatchAction))
        ensures
            (r.0@, r.1@) == self@.on_results(reply),
    {
        if self.stage == Stage::IsrcResults {
            match reply {
                SearchReply::Found(results) => if results.data.len() > 0 {
                    let id = results.data[0].id;
                    (Finder { stage: Stage::IsrcTrack, ..self }, MatchAction::FetchTrack(id))
                } else {
                    self.at_title()
                },
                SearchReply::Failed => self.at_title(),
            }
        } else {
            match reply {
                SearchReply::Found(results) => {
                    let tracks = to_tracks(results.data, self.config.art_resolution);
                    let asked = if self.config.ignore_version {
                        without_versions(&tracks)
                    } else {
                        copy_tracks(&tracks)
                    };
                    (
                        Finder { stage: Stage::PageMatches, tracks, ..self },
                        MatchAction::MatchTracks(asked),
                    )
                },
                SearchReply::Failed => self.finished(),
            }
        }
    }

    /// The cleaned title came back.
    fn on_clean_title(self, clean: String) -> (r: (Finder, MatchAction))
        requires
            self@.file.artist is Some,
        ensures
            (r.0@, r.1@) == self@.on_clean_title(clean@),
    {
        let mut query = match &self.file.artist {
            Some(artist) => artist.clone(),
            None => String::new(),
        };
        query.append(" ");
        query.append(clean.as_str());
        Finder { query, ..self }.at_page(1)
    }

    /// The matches of the page came back.
    fn on_matches(self, found: Vec<ScoredTrack>) -> (r: (Finder, MatchAction))
        ensures
            (r.0@, r.1@) == self@.on_matches(found.deep_view()),
    {
        let matches = if self.config.ignore_version {
            restore_versions(found, &self.tracks)
        } else {
            found
        };
        let (local_title, local_mix) = split_title(&self.title);
        let candidates = find_candidates(&self.tracks, &local_mix);
        let asked = copy_candidates(&candidates);
        (
            Finder { stage: Stage::PageScores, matches, candidates, ..self },
            MatchAction::Score { local_title, candidates: asked },
        )
    }

    /// The accuracies of the page's candidates came back.
    fn on_scores(self, scores: Vec<u64>) -> (r: (Finder, MatchAction))
        requires
            self@.valid(),
            self@.stage == Stage::PageScores,
            scores@.len() == self@.candidates.len(),
        ensures
            (r.0@, r.1@) == self@.on_scores(scores@),
    {
        let ghost start = self@;
        let strictness = self.options.strictness;
        let all = self.options.fetch_all_results;
        let page = self.page;
        let mut matches = self.matches;
        proof {
            lemma_candidates(start.tracks, title_and_mix(start.title).1, start.tracks.len());
            assert forall|i: int| 0 <= i < self.candidates@.len() implies (
            #[trigger] self.candidates@[i]).index < self.tracks@.len() by {
                assert(start.candidates[i] == self.candidates@[i]@);
            }
        }
        take_all_in(&mut matches, &self.tracks, &self.candidates, &scores, strictness);
        let ranked_page = rank(matches);
        let mut output = self.output;
        append_matches(&mut output, ranked_page);
        let good = some_reaches(&output, strictness);
        let found = Finder {
            tracks: Vec::new(),
            matches: Vec::new(),
            candidates: Vec::new(),
            output,
            ..self
        };
        assert(found@ =~= FinderView {
            output: found@.output,
            tracks: Seq::empty(),
            matches: Seq::empty(),
            candidates: Seq::empty(),
            ..start
        });
        if !all && good {
            found.finished()
        } else {
            found.at_page(page + 1)
        }
    }

    /// What the accuracy of the page's candidate number `n` is made of.
    pub fn score_parts(
        &self,
        n: usize,
        artists_matched: bool,
        local_title: &str,
        api_title: &str,
    ) -> (r: ScoreParts)
        requires
            self@.valid(),
            self@.stage == Stage::PageScores,
            n < self@.candidates.len(),
        ensures
            r == self@.parts_of(n as int, artists_matched, local_title@, api_title@),
            r.title <= ONE_BITS,
            local_title@ == api_title@ ==> r.title == ONE_BITS,
            r.mix != MixAgreement::Incompatible,
    {
        let ghost s = self@;
        proof {
            lemma_candidates(s.tracks, title_and_mix(s.title).1, s.tracks.len());
            assert(s.candidates[n as int] == self.candidates@[n as int]@);
            assert(s.tracks[s.candidates[n as int].index as int]
                == self.tracks@[self.candidates@[n as int].index as int]@);
        }
        let candidate = &self.candidates[n];
        let track = &self.tracks[candidate.index];
        ScoreParts {
            title: similarity(local_title, api_title),
            artist: compare_artists(
                artists_matched,
                &self.file.artists,
                &track.artists,
                &track.title,
            ),
            mix: candidate.mix,
        }
    }

    /// Takes what came back, and says what to do next.
    pub fn match_track(self, event: MatchEvent) -> (r: (Finder, MatchAction))
        requires
            self@.valid(),
            self@.awaits(event@),
        ensures
            (r.0@, r.1@) == self@.next(event@),
            r.0@.valid(),
    {
        proof {
            law_search_stays_valid(self@, event@);
        }
        match event {
            MatchEvent::Start => self.at_start(),
            MatchEvent::Track(reply) => self.on_track(reply),
            MatchEvent::Results(reply) => self.on_results(reply),
            MatchEvent::CleanTitle(clean) => self.on_clean_title(clean),
            MatchEvent::Matches(found) => self.on_matches(found),
            MatchEvent::Scores(scores) => self.on_scores(scores),
        }
    }
}

impl FinderView {
    /// The number of pages that may be searched.
    pub open spec fn page_count(self) -> int {
        if self.config.max_pages > 0 {
            self.config.max_pages as int
        } else {
            0
        }
    }

    /// A bound on the number of replies that the search still waits for.
    pub open spec fn replies_left(self) -> int {
        let pages = 3 * self.page_count();
        let later = 3 * (self.config.max_pages - self.page);
        match self.stage {
            Stage::Start => pages + 5,
            Stage::IdTrack => pages + 4,
            Stage::IsrcResults => pages + 3,
            Stage::IsrcTrack => pages + 2,
            Stage::CleanTitle => pages + 1,
            Stage::PageResults => later + 3,
            Stage::PageMatches => later + 2,
            Stage::PageScores => later + 1,
            Stage::Done => 0,
        }
    }

    /// Where not all results are wanted, a search that goes on has found nothing good enough.
    pub open spec fn unsatisfied(self) -> bool {
        !self.options.fetch_all_results && self.stage != Stage::Done ==> !any_reaches(
            self.output,
            self.options.strictness,
        )
    }
}

/// What holds of every state of a search goes on to hold.
pub proof fn law_search_stays_valid(s: FinderView, event: EventView)
    requires
        s.valid(),
        s.awaits(event),
    ensures
        s.next(event).0.valid(),
{
    if let EventView::Results(SearchReply::Found(results)) = event {
        assert(results.data.len() == results.data@.len());
    }
}

/// Every search ends: each reply brings it nearer to its end.
pub proof fn law_search_ends(s: FinderView, event: EventView)
    requires
        s.valid(),
        s.awaits(event),
    ensures
        0 <= s.next(event).0.replies_left() < s.replies_left(),
{
}

/// What is to be done next says what the search waits for, and only the end asks for nothing.
pub proof fn law_action_says_what_is_awaited(s: FinderView, event: EventView)
    requires
        s.valid(),
        s.awaits(event),
    ensures
        ({
            let (after, action) = s.next(event);
            match action {
                ActionView::FetchTrack(_) => forall|reply: TrackReply|
                    #[trigger] after.awaits(EventView::Track(reply)),
                ActionView::Search { .. } => forall|reply: SearchReply|
                    #[trigger] after.awaits(EventView::Results(reply)),
                ActionView::CleanTitle(_) => forall|clean: Seq<char>|
                    #[trigger] after.awaits(EventView::CleanTitle(clean)),
                ActionView::MatchTracks(_) => forall|found: Seq<ScoredView>|
                    #[trigger] after.awaits(EventView::Matches(found)),
                ActionView::Score { candidates, .. } => forall|scores: Seq<u64>|
                    scores.len() == candidates.len() ==> #[trigger] after.awaits(
                        EventView::Scores(scores),
                    ),
                ActionView::Finish => after.stage == Stage::Done,
                ActionView::NoArtist => after.stage == Stage::Done,
            }
        }),
{
}

/// Title searches ask for the pages from the first to the last allowed one, in order.
pub proof fn law_pages_in_order(s: FinderView, event: EventView)
    requires
        s.valid(),
        s.awaits(event),
        s.next(event).0.stage == Stage::PageResults,
    ensures
        ({
            let (after, action) = s.next(event);
            &&& action == ActionView::Search {
                query: after.query,
                page: after.page,
                per_page: PAGE_RESULTS,
            }
            &&& 1 <= after.page <= s.config.max_pages
            &&& if s.paging() {
                after.page == s.page + 1 && after.query == s.query
            } else {
                after.page == 1
            }
        }),
{
}

/// Where not all results are wanted, a track found by an identifier is all that is handed out.
pub proof fn law_exact_match_is_all(s: FinderView, track: BeatportTrack)
    requires
        s.awaits(EventView::Track(TrackReply::Found(track))),
        !s.options.fetch_all_results,
    ensures
        ({
            let (after, action) = s.next(EventView::Track(TrackReply::Found(track)));
            &&& action == ActionView::Finish
            &&& after.output.len() == 1
            &&& after.output[0] == (if s.stage == Stage::IdTrack {
                MatchView::Id(track_of(track, s.config.art_resolution))
            } else {
                MatchView::Isrc(track_of(track, s.config.art_resolution))
            })
        }),
{
}

/// A restricted or failed track never ends a search that could still go on by the title.
pub proof fn law_missing_track_is_passed_over(s: FinderView, reply: TrackReply)
    requires
        s.awaits(EventView::Track(reply)),
        reply is Restricted || reply is Failed,
        s.file.artist is Some,
    ensures
        ({
            let (after, action) = s.next(EventView::Track(reply));
            &&& after.output == s.output
            &&& after.stage == Stage::IsrcResults || after.stage == Stage::CleanTitle
        }),
{
}

/// What was found stays found while all results are gathered.
pub proof fn law_gathered_matches_stay(s: FinderView, event: EventView)
    requires
        s.valid(),
        s.awaits(event),
        s.options.fetch_all_results,
    ensures
        s.output.is_prefix_of(s.next(event).0.output),
{
    assert(s.output =~= s.next(event).0.output.subrange(0, s.output.len() as int));
}

/// A search begins with nothing good enough.
pub proof fn law_search_begins_unsatisfied(
    config: BeatportConfig,
    options: MatchOptions,
    file: FileView,
)
    ensures
        initial(config, options, file).unsatisfied(),
{
}

/// Where not all results are wanted, the search goes on only while it has found nothing good
/// enough: it stops at the first page with a match that reaches the strictness.
pub proof fn law_search_goes_on_unsatisfied(s: FinderView, event: EventView)
    requires
        s.valid(),
        s.awaits(event),
        s.unsatisfied(),
    ensures
        s.next(event).0.unsatisfied(),
{
}

/// The match is a candidate on the page, and reaches the strictness.
pub open spec fn is_page_match(s: FinderView, m: ScoredView) -> bool {
    &&& s.tracks.contains(m.track)
    &&& is_candidate(s.tracks, s.candidates, s.candidates.len(), m.track)
    &&& m.accuracy >= s.options.strictness
}

/// The matches of a page are handed out in order of falling accuracy; the matches given for the
/// page are among them with at least their accuracy, and so is every candidate that reaches the
/// strictness; each of them has a given match's track, or is a candidate on the page that reaches
/// the strictness; no address stands twice unless the given matches had it twice.
pub proof fn law_page_result(s: FinderView, scores: Seq<u64>)
    requires
        s.valid(),
        s.awaits(EventView::Scores(scores)),
    ensures
        falling(s.page_result(scores)),
        forall|i: int|
            0 <= i < s.matches.len() ==> listed(
                s.page_result(scores),
                (#[trigger] s.matches[i]).track.url,
                s.matches[i].accuracy,
            ),
        forall|k: int|
            0 <= k < s.candidates.len() && (#[trigger] scores[k]) >= s.options.strictness
                ==> listed(
                s.page_result(scores),
                s.tracks[s.candidates[k].index as int].url,
                scores[k],
            ),
        forall|i: int|
            0 <= i < s.page_result(scores).len() ==> {
                ||| is_given(s.matches, (#[trigger] s.page_result(scores)[i]).track)
                ||| is_page_match(s, s.page_result(scores)[i])
            },
        addresses_differ(s.matches) ==> addresses_differ(s.page_result(scores)),
{
    let n = s.candidates.len();
    let before = all_taken_in(s.matches, s.tracks, s.candidates, scores, s.options.strictness, n);
    law_all_taken_in(s.matches, s.tracks, s.candidates, scores, s.options.strictness, n);
    law_ranked_falls(before);
    assert forall|i: int| 0 <= i < s.matches.len() implies listed(
        s.page_result(scores),
        (#[trigger] s.matches[i]).track.url,
        s.matches[i].accuracy,
    ) by {
        assert(before[i].track.url == s.matches[i].track.url);
        assert(listed(before, s.matches[i].track.url, s.matches[i].accuracy));
        lemma_listed_ranked(before, s.matches[i].track.url, s.matches[i].accuracy);
    }
    assert forall|k: int|
        0 <= k < s.candidates.len() && (#[trigger] scores[k])
            >= s.options.strictness implies listed(
        s.page_result(scores),
        s.tracks[s.candidates[k].index as int].url,
        scores[k],
    ) by {
        lemma_listed_ranked(before, s.tracks[s.candidates[k].index as int].url, scores[k]);
    }
    assert forall|i: int| 0 <= i < s.page_result(scores).len() implies {
        ||| is_given(s.matches, (#[trigger] s.page_result(scores)[i]).track)
        ||| is_page_match(s, s.page_result(scores)[i])
    } by {
        lemma_ranked_from(before, i);
        let k = choose|k: int| 0 <= k < before.len() && #[trigger] before[k] == ranked(before)[i];
        if k < s.matches.len() {
            assert(s.matches[k].track == before[k].track);
        } else {
            let m = before[k];
            assert(is_candidate(s.tracks, s.candidates, n, m.track));
            let c = choose|c: int|
                0 <= c < n && m.track == s.tracks[(#[trigger] s.candidates[c]).index as int];
            lemma_candidates(s.tracks, title_and_mix(s.title).1, s.tracks.len());
            assert(s.candidates[c].index < s.tracks.len());
            assert(s.tracks.contains(m.track));
        }
    }
    if addresses_differ(s.matches) {
        law_ranked_keeps_addresses(before);
    }
}

/// Every track of a page whose mix agrees with the file's and whose accuracy reaches the
/// strictness is handed out, whether or not it was among the matches given for the page.
pub proof fn law_agreeing_track_is_handed_out(s: FinderView, scores: Seq<u64>, n: int)
    requires
        s.valid(),
        s.awaits(EventView::Scores(scores)),
        0 <= n < s.tracks.len(),
        track_agreement(s.tracks[n], title_and_mix(s.title).1) != MixAgreement::Incompatible,
    ensures
        exists|k: int|
            0 <= k < s.candidates.len() && (#[trigger] s.candidates[k]).index == n && (scores[k]
                >= s.options.strictness ==> listed(
                s.page_result(scores),
                s.tracks[n].url,
                scores[k],
            )),
{
    law_agreeing_track_is_a_candidate(s.tracks, title_and_mix(s.title).1, n);
    let k = choose|k: int|
        0 <= k < s.candidates.len() && (#[trigger] s.candidates[k]).index == n;
    law_page_result(s, scores);
    assert(s.candidates[k].index == n);
    assert(scores[k] == scores[k]);
}

/// The state after a run of replies.
pub open spec fn state_after(s: FinderView, events: Seq<EventView>) -> FinderView
    decreases events.len(),
{
    if events.len() == 0 {
        s
    } else {
        state_after(s, events.drop_last()).next(events.last()).0
    }
}

/// Each reply of a run is what the search waits for.
pub open spec fn answers(s: FinderView, events: Seq<EventView>) -> bool
    decreases events.len(),
{
    events.len() > 0 ==> {
        &&& answers(s, events.drop_last())
        &&& state_after(s, events.drop_last()).awaits(events.last())
    }
}

/// Whatever the replies, a search takes no more of them than five and three for each page, and
/// where not all results are wanted it is over as soon as it has found a match that is good
/// enough.
pub proof fn law_whole_search(
    config: BeatportConfig,
    options: MatchOptions,
    file: FileView,
    events: Seq<EventView>,
)
    requires
        config.max_pages < i32::MAX,
        answers(initial(config, options, file), events),
    ensures
        ({
            let start = initial(config, options, file);
            let s = state_after(start, events);
            &&& events.len() + s.replies_left() <= 5 + 3 * start.page_count()
            &&& 0 <= s.replies_left()
            &&& s.valid()
            &&& s.unsatisfied()
            &&& s.config == config
            &&& s.options == options
            &&& s.file == file
        }),
    decreases events.len(),
{
    let start = initial(config, options, file);
    if events.len() > 0 {
        let before = state_after(start, events.drop_last());
        law_whole_search(config, options, file, events.drop_last());
        law_search_stays_valid(before, events.last());
        law_search_ends(before, events.last());
        law_search_goes_on_unsatisfied(before, events.last());
    }
}

/// `s` is made of null characters.
pub open spec fn is_null(s: Seq<char>) -> bool {
    forall|i: int| 0 <= i < s.len() ==> (#[trigger] s[i]) == '\0'
}

/// Null characters in front of a text are taken out.
proof fn lemma_nulls_are_taken_out(z: Seq<char>, rest: Seq<char>)
    requires
        is_null(z),
    ensures
        replaced(z + rest, "\0"@, ""@) == replaced(rest, "\0"@, ""@),
    decreases z.len(),
{
    reveal_strlit("\0");
    reveal_strlit("");
    if z.len() == 0 {
        assert(z + rest =~= rest);
    } else {
        let s = z + rest;
        assert(s[0] == z[0]);
        assert(s.take(1) =~= "\0"@);
        assert(s.skip(1) =~= z.skip(1) + rest);
        lemma_nulls_are_taken_out(z.skip(1), rest);
        assert(""@ + replaced(rest, "\0"@, ""@) =~= replaced(rest, "\0"@, ""@));
    }
}

/// The identifier in a file's tags is read from the first value, whatever the further ones are,
/// and whatever white space and null characters stand around it. Without a value there is none.
pub proof fn law_tagged_id_is_read(
    a: Seq<char>,
    z1: Seq<char>,
    id: i64,
    z2: Seq<char>,
    b: Seq<char>,
    more: Seq<Seq<char>>,
)
    requires
        is_blank(a),
        is_blank(b),
        is_null(z1),
        is_null(z2),
    ensures
        tagged_id(Seq::empty()) is None,
        tagged_id(seq![a + (z1 + (int_text(id as int) + z2)) + b] + more) == Some(id),
{
    reveal_strlit("\0");
    reveal_strlit("");
    let d = int_text(id as int);
    let m = z1 + (d + z2);
    lemma_int_text_is_unbroken(id as int);
    law_int_text_reads_back(id as int);
    assert(!is_space('\0'));
    assert(!is_space(d[0]) && !is_space(d[d.len() - 1]));
    assert(!is_space(m[0])) by {
        if z1.len() > 0 {
            assert(z1[0] == '\0');
        }
    }
    assert(!is_space(m.last())) by {
        if z2.len() > 0 {
            assert(z2[z2.len() - 1] == '\0');
        }
    }
    law_trimmed_is_the_middle(a, m, b);
    lemma_nulls_are_taken_out(z1, d + z2);
    assert forall|i: int| 0 <= i < d.len() implies !#[trigger] occurs_at(d + z2, "\0"@, i) by {
        if occurs_at(d + z2, "\0"@, i) {
            assert((d + z2).subrange(i, i + 1)[0] == "\0"@[0]);
            assert(d.contains(d[i]));
        }
    }
    lemma_replaced_after(d, z2, "\0"@, ""@);
    lemma_nulls_are_taken_out(z2, Seq::empty());
    assert(z2 + Seq::empty() =~= z2);
    assert(replaced(Seq::<char>::empty(), "\0"@, ""@) =~= Seq::<char>::empty());
    assert(d + Seq::empty() =~= d);
    assert((seq![a + m + b] + more)[0] == a + m + b);
}

/// A search begins with the identifier in the file's tags; without one, with the file's ISRC, of
/// which the first page of results is asked for; and without either, with its title.
pub proof fn law_search_begins(s: FinderView)
    requires
        s.stage == Stage::Start,
    ensures
        ({
            let (after, action) = s.next(EventView::Start);
            &&& after.output == s.output
            &&& match tagged_id(s.file.id_tag) {
                Some(id) => action == ActionView::FetchTrack(id) && after.stage == Stage::IdTrack,
                None => match s.file.isrc {
                    Some(isrc) => action == (ActionView::Search {
                        query: isrc,
                        page: 1,
                        per_page: 25,
                    }),
                    None => if s.file.artist is Some {
                        action is CleanTitle
                    } else {
                        action is NoArtist
                    },
                },
            }
        }),
{
}

/// Where the track of the file's identifier is not the end of the search, the search goes on by
/// the file's ISRC, and without one by its title; after the track of the ISRC it goes on by the
/// title.
pub proof fn law_search_goes_on_after_a_track(s: FinderView, reply: TrackReply)
    requires
        s.awaits(EventView::Track(reply)),
        reply is Found ==> s.options.fetch_all_results,
    ensures
        ({
            let action = s.next(EventView::Track(reply)).1;
            if s.stage == Stage::IdTrack && s.file.isrc is Some {
                action == (ActionView::Search { query: s.file.isrc->0, page: 1, per_page: 25 })
            } else if s.file.artist is Some {
                action is CleanTitle
            } else {
                action is NoArtist
            }
        }),
{
}

/// While all results are gathered, a track that comes back is added to what was found, and says
/// whether it was found by the file's identifier or by its ISRC. One that does not come back adds
/// nothing.
pub proof fn law_track_is_added(s: FinderView, reply: TrackReply)
    requires
        s.awaits(EventView::Track(reply)),
        s.options.fetch_all_results,
    ensures
        ({
            let output = s.next(EventView::Track(reply)).0.output;
            match reply {
                TrackReply::Found(t) => {
                    &&& output.len() == s.output.len() + 1
                    &&& forall|i: int|
                        0 <= i < s.output.len() ==> #[trigger] output[i] == s.output[i]
                    &&& s.stage == Stage::IdTrack ==> output.last() == MatchView::Id(
                        track_of(t, s.config.art_resolution),
                    )
                    &&& s.stage == Stage::IsrcTrack ==> output.last() == MatchView::Isrc(
                        track_of(t, s.config.art_resolution),
                    )
                },
                _ => output == s.output,
            }
        }),
{
}

/// When the search for an ISRC comes back with at least one track, the first of them is fetched,
/// whatever tracks follow it.
pub proof fn law_first_result_of_an_isrc_is_fetched(
    s: FinderView,
    results: BeatportTrackResults,
    first: BeatportTrack,
    others: Seq<BeatportTrack>,
)
    requires
        s.stage == Stage::IsrcResults,
        results.data@ == seq![first] + others,
    ensures
        ({
            let (after, action) = s.next(EventView::Results(SearchReply::Found(results)));
            &&& action == ActionView::FetchTrack(first.id)
            &&& after.stage == Stage::IsrcTrack
            &&& after.output == s.output
        }),
{
    assert(results.data@[0] == first);
}

/// An ISRC search that fails or finds nothing is passed over: the search goes on by the title.
pub proof fn law_empty_isrc_search_is_passed_over(s: FinderView, reply: SearchReply)
    requires
        s.stage == Stage::IsrcResults,
        reply matches SearchReply::Found(results) ==> results.data@.len() == 0,
    ensures
        ({
            let (after, action) = s.next(EventView::Results(reply));
            &&& after.output == s.output
            &&& if s.file.artist is Some {
                action is CleanTitle
            } else {
                action is NoArtist
            }
        }),
{
}

/// The title that is cleaned for a search is the file's title without featured-artist notes, and
/// an empty one where the file has none. It is kept for the candidates of each page.
pub proof fn law_title_without_features_is_cleaned(s: FinderView, event: EventView)
    requires
        s.awaits(event),
        s.next(event).1 is CleanTitle,
    ensures
        ({
            let (after, action) = s.next(event);
            let title = if s.file.title is Some {
                s.file.title->0
            } else {
                Seq::empty()
            };
            &&& action == ActionView::CleanTitle(without_features(title))
            &&& after.title == without_features(title)
            &&& after.stage == Stage::CleanTitle
            &&& s.file.artist is Some
        }),
{
}

/// A title search asks for the artist and the cleaned title, with a space between them, from the
/// first page on and with fifty results on each. Where no page is allowed, the search ends.
pub proof fn law_title_search_asks_for_artist_and_title(s: FinderView, clean: Seq<char>)
    requires
        s.valid(),
        s.stage == Stage::CleanTitle,
    ensures
        ({
            let (after, action) = s.next(EventView::CleanTitle(clean));
            &&& s.config.max_pages >= 1 ==> action == (ActionView::Search {
                query: s.file.artist->0 + seq![' '] + clean,
                page: 1,
                per_page: 50,
            })
            &&& s.config.max_pages < 1 ==> action == ActionView::Finish
            &&& after.output == s.output
            &&& after.title == s.title
        }),
{
    reveal_strlit(" ");
    assert(" "@ =~= seq![' ']);
}

/// The tracks of a page are described in order, and all of them are matched against the file: as
/// they are, or without their versions where those are to be ignored.
pub proof fn law_all_tracks_of_a_page_are_matched(s: FinderView, results: BeatportTrackResults)
    requires
        s.stage == Stage::PageResults,
    ensures
        ({
            let (after, action) = s.next(EventView::Results(SearchReply::Found(results)));
            let n = results.data@.len();
            &&& after.tracks.len() == n
            &&& forall|i: int|
                0 <= i < n ==> #[trigger] after.tracks[i] == track_of(
                    results.data@[i],
                    s.config.art_resolution,
                )
            &&& action matches ActionView::MatchTracks(asked)
            &&& asked.len() == n
            &&& forall|i: int|
                0 <= i < n ==> {
                    let track = after.tracks[i];
                    &&& s.config.ignore_version ==> (#[trigger] asked[i]).version is None
                    &&& (TrackView {
                        version: track.version,
                        ..asked[i]
                    }) == track
                    &&& !s.config.ignore_version ==> asked[i] == track
                }
            &&& after.output == s.output
            &&& after.title == s.title
        }),
{
}

/// A page that cannot be had ends the search with what was found so far.
pub proof fn law_failed_page_ends_the_search(s: FinderView)
    requires
        s.stage == Stage::PageResults,
    ensures
        ({
            let (after, action) = s.next(EventView::Results(SearchReply::Failed));
            &&& action == ActionView::Finish
            &&& after.output == s.output
        }),
{
}

/// The matches of a page stay as they were given, but for the versions that were left out, which
/// come back; and the accuracy is asked for of every track whose mix agrees with that of the
/// file's title, by the title proper.
pub proof fn law_candidates_are_scored(s: FinderView, found: Seq<ScoredView>, n: int)
    requires
        s.valid(),
        s.stage == Stage::PageMatches,
        0 <= n < s.tracks.len(),
    ensures
        ({
            let (after, action) = s.next(EventView::Matches(found));
            let (title, mix) = title_and_mix(s.title);
            &&& after.tracks == s.tracks
            &&& after.output == s.output
            &&& after.matches.len() == found.len()
            &&& forall|i: int|
                0 <= i < found.len() ==> {
                    let m = found[i];
                    &&& (#[trigger] after.matches[i]).accuracy == m.accuracy
                    &&& !s.config.ignore_version ==> after.matches[i] == m
                    &&& (TrackView {
                        version: m.track.version,
                        ..after.matches[i].track
                    }) == m.track
                    &&& s.config.ignore_version ==> after.matches[i] == versioned(m, s.tracks)
                }
            &&& action == (ActionView::Score { local_title: title, candidates: after.candidates })
            &&& (exists|k: int|
                0 <= k < after.candidates.len() && (#[trigger] after.candidates[k]).index == n)
                <==> track_agreement(s.tracks[n], mix) != MixAgreement::Incompatible
        }),
{
    let mix = title_and_mix(s.title).1;
    law_candidates(s.tracks, mix, n);
    assert forall|i: int| 0 <= i < found.len() implies (TrackView {
        version: found[i].track.version,
        ..(#[trigger] s.next(EventView::Matches(found)).0.matches[i]).track
    }) == found[i].track by {
        lemma_track_position(s.tracks, found[i].track.url);
    }
}

/// The matches of a page are added, in their order, behind what was found before. The search then
/// ends where not all results are wanted and something that was found is good enough: a track
/// found by the file's identifier or ISRC, or a match that reaches the strictness. Else the next
/// page is asked for by the same query, while there is one.
pub proof fn law_page_is_added(s: FinderView, scores: Seq<u64>)
    requires
        s.valid(),
        s.awaits(EventView::Scores(scores)),
    ensures
        ({
            let (after, action) = s.next(EventView::Scores(scores));
            let page = s.page_result(scores);
            let good = exists|i: int|
                0 <= i < after.output.len() && match #[trigger] after.output[i] {
                    MatchView::Id(_) => true,
                    MatchView::Isrc(_) => true,
                    MatchView::Similar(m) => m.accuracy >= s.options.strictness,
                };
            &&& after.output.len() == s.output.len() + page.len()
            &&& forall|i: int| 0 <= i < s.output.len() ==> #[trigger] after.output[i] == s.output[i]
            &&& forall|i: int|
                s.output.len() <= i < after.output.len() ==> #[trigger] after.output[i]
                    == MatchView::Similar(page[i - s.output.len()])
            &&& action == (if !s.options.fetch_all_results && good {
                ActionView::Finish
            } else if s.page < s.config.max_pages {
                ActionView::Search { query: s.query, page: (s.page + 1) as i32, per_page: 50 }
            } else {
                ActionView::Finish
            })
        }),
{
    let after = s.next(EventView::Scores(scores)).0;
    let strictness = s.options.strictness;
    if any_reaches(after.output, strictness) {
        let i = choose|i: int|
            0 <= i < after.output.len() && #[trigger] reaches(after.output[i], strictness);
        assert(match after.output[i] {
            MatchView::Id(_) => true,
            MatchView::Isrc(_) => true,
            MatchView::Similar(m) => m.accuracy >= strictness,
        });
    }
    if exists|i: int|
        0 <= i < after.output.len() && match #[trigger] after.output[i] {
            MatchView::Id(_) => true,
            MatchView::Isrc(_) => true,
            MatchView::Similar(m) => m.accuracy >= strictness,
        } {
        let i = choose|i: int|
            0 <= i < after.output.len() && match #[trigger] after.output[i] {
                MatchView::Id(_) => true,
                MatchView::Isrc(_) => true,
                MatchView::Similar(m) => m.accuracy >= strictness,
            };
        assert(reaches(after.output[i], strictness));
    }
}

/// Every accuracy among a page's matches is one that was given: with the match, or for a candidate
/// of the same address.
pub proof fn law_page_accuracies(s: FinderView, scores: Seq<u64>, i: int)
    requires
        s.valid(),
        s.awaits(EventView::Scores(scores)),
        0 <= i < s.page_result(scores).len(),
    ensures
        ({
            let m = s.page_result(scores)[i];
            ||| exists|k: int|
                0 <= k < s.matches.len() && (#[trigger] s.matches[k]).track == m.track
                    && s.matches[k].accuracy == m.accuracy
            ||| exists|k: int|
                0 <= k < scores.len() && m.accuracy == #[trigger] scores[k] && m.track.url
                    == s.tracks[s.candidates[k].index as int].url
        }),
        s.page_result(scores).len() >= s.matches.len(),
{
    let n = s.candidates.len();
    let strictness = s.options.strictness;
    let before = all_taken_in(s.matches, s.tracks, s.candidates, scores, strictness, n);
    law_all_taken_in(s.matches, s.tracks, s.candidates, scores, strictness, n);
    law_ranked_falls(before);
    lemma_ranked_from(before, i);
    let j = choose|j: int| 0 <= j < before.len() && #[trigger] before[j] == ranked(before)[i];
    law_accuracies_are_not_made_up(
        s.matches,
        s.tracks,
        s.candidates,
        scores,
        strictness,
        n,
        j,
    );
    let m = s.page_result(scores)[i];
    if j < s.matches.len() && m.accuracy == s.matches[j].accuracy {
        assert(before[j].track == s.matches[j].track);
        assert(s.matches[j].track == m.track && s.matches[j].accuracy == m.accuracy);
    }
}

/// The accuracy of a candidate is made of the likeness of the two titles that are given, of how
/// well the file's artists agree with those of the candidate's track, whose title may mention
/// them, and of how well its mix agrees with that of the file's title.
pub proof fn law_parts_of_an_accuracy(
    s: FinderView,
    n: int,
    matched: bool,
    local_title: Seq<char>,
    api_title: Seq<char>,
)
    requires
        s.valid(),
        s.stage == Stage::PageScores,
        0 <= n < s.candidates.len(),
    ensures
        ({
            let parts = s.parts_of(n, matched, local_title, api_title);
            let track = s.tracks[s.candidates[n].index as int];
            &&& parts.title == similarity_bits(local_title, api_title)
            &&& matched ==> parts.artist == ArtistAgreement::Full
            &&& parts.artist == artist_agreement(
                matched,
                s.file.artists,
                track.artists,
                track.title,
            )
            &&& parts.mix == track_agreement(track, title_and_mix(s.title).1)
            &&& parts.mix != MixAgreement::Incompatible
        }),
{
    lemma_candidates(s.tracks, title_and_mix(s.title).1, s.tracks.len());
}

/// The options and what is known of the file stay as they are throughout a search.
pub proof fn law_file_and_options_stay(s: FinderView, event: EventView)
    requires
        s.awaits(event),
    ensures
        s.next(event).0.config == s.config,
        s.next(event).0.options == s.options,
        s.next(event).0.file == s.file,
{
}

/// A search begins with what it is given and with nothing found.
pub proof fn law_new_search(config: BeatportConfig, options: MatchOptions, file: FileView)
    ensures
        ({
            let s = initial(config, options, file);
            &&& s.config == config && s.options == options && s.file == file
            &&& s.stage == Stage::Start
            &&& s.output.len() == 0 && s.tracks.len() == 0 && s.matches.len() == 0
        }),
{
}

/// What is read of a search, of a file, and of a match is what they hold.
pub proof fn law_search_reading(s: Finder, file: FileInfo, m: TrackMatch)
    ensures
        s@.config == s.config && s@.options == s.options && s@.file == s.file@,
        s@.stage == s.stage && s@.title == s.title@ && s@.query == s.query@,
        s@.page == s.page && s@.tracks == s.tracks.deep_view(),
        s@.matches == s.matches.deep_view() && s@.candidates == s.candidates.deep_view(),
        s@.output == s.output.deep_view(),
        file@.id_tag == file.id_tag.deep_view() && file@.isrc == file.isrc.deep_view(),
        file@.title == file.title.deep_view() && file@.artist == file.artist.deep_view(),
        file@.artists == file.artists.deep_view(),
        m.deep_view() == m@,
        m matches TrackMatch::Id(t) ==> m@ == MatchView::Id(t@),
        m matches TrackMatch::Isrc(t) ==> m@ == MatchView::Isrc(t@),
        m matches TrackMatch::Similar(t) ==> m@ == MatchView::Similar(t@),
{
}

/// What is read of a step of a search is what it holds.
pub proof fn law_step_reading(event: MatchEvent, action: MatchAction)
    ensures
        match event {
            MatchEvent::Start => event@ == EventView::Start,
            MatchEvent::Track(reply) => event@ == EventView::Track(reply),
            MatchEvent::Results(reply) => event@ == EventView::Results(reply),
            MatchEvent::CleanTitle(title) => event@ == EventView::CleanTitle(title@),
            MatchEvent::Matches(list) => event@ == EventView::Matches(list.deep_view()),
            MatchEvent::Scores(list) => event@ == EventView::Scores(list@),
        },
        match action {
            MatchAction::FetchTrack(id) => action@ == ActionView::FetchTrack(id),
            MatchAction::Search { query, page, per_page } => action@ == (ActionView::Search {
                query: query@,
                page,
                per_page,
            }),
            MatchAction::CleanTitle(title) => action@ == ActionView::CleanTitle(title@),
            MatchAction::MatchTracks(list) => action@ == ActionView::MatchTracks(list.deep_view()),
            MatchAction::Score { local_title, candidates } => action@ == (ActionView::Score {
                local_title: local_title@,
                candidates: candidates.deep_view(),
            }),
            MatchAction::Finish => action@ == ActionView::Finish,
            MatchAction::NoArtist => action@ == ActionView::NoArtist,
        },
{
}

/// While a page is worked on, the search keeps its place: the query, the page and the title stay
/// as they are, and so do the tracks of the page once they are there. Nothing is found until the
/// page is done.
pub proof fn law_search_keeps_its_place(s: FinderView, event: EventView)
    requires
        s.valid(),
        s.awaits(event),
        s.paging(),
    ensures
        ({
            let after = s.next(event).0;
            &&& after.query == s.query
            &&& after.title == s.title
            &&& s.stage != Stage::PageScores ==> after.page == s.page && after.output == s.output
            &&& s.stage == Stage::PageMatches ==> after.tracks == s.tracks
            &&& match s.stage {
                Stage::PageResults => after.stage == Stage::PageMatches || after.stage
                    == Stage::Done,
                Stage::PageMatches => after.stage == Stage::PageScores,
                _ => after.stage == Stage::PageResults || after.stage == Stage::Done,
            }
        }),
{
}

/// The identifier in a file's tags is the number that its first value writes, once the white space
/// around it and all null characters are out. Where that writes no number there is none.
pub proof fn law_tagged_id_is_the_number_written(
    a: Seq<char>,
    m: Seq<char>,
    b: Seq<char>,
    more: Seq<Seq<char>>,
)
    requires
        is_blank(a),
        is_blank(b),
        m.len() > 0 ==> !is_space(m[0]) && !is_space(m.last()),
    ensures
        tagged_id(seq![a + m + b] + more) == i64_value(m.filter(|c: char| c != '\0')),
{
    reveal_strlit("\0");
    reveal_strlit("");
    assert("\0"@ =~= seq!['\0']);
    assert(""@ =~= Seq::<char>::empty());
    law_trimmed_is_the_middle(a, m, b);
    law_removed_character(m, '\0');
    assert((seq![a + m + b] + more)[0] == a + m + b);
}

} // verus!
