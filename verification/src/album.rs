//! Albums, and completing what is known of a track.
use vstd::prelude::*;
use crate::catalog::{names, names_of, BeatportRelease, BeatportTrack};
use crate::number::{
    i64_value, int_text, int_to_text, law_int_text_reads_back, lemma_int_text_is_unbroken, parse_i64,
};
use crate::session::TrackReply;
use crate::text::{is_blank, law_trimmed_is_the_middle, trim, trimmed};
use crate::track::{
    law_identifiers_read_back, to_tracks, track_of, tracks_of, Track, TrackView,
};

verus! {

/// A release with its tracks.
#[derive(Debug)]
pub struct Album {
    pub id: String,
    pub name: String,
    pub tracks: Vec<Track>,
}

/// The mathematical reading of an [`Album`].
#[verifier::ext_equal]
pub struct AlbumView {
    pub id: Seq<char>,
    pub name: Seq<char>,
    pub tracks: Seq<TrackView>,
}

impl View for Album {
    type V = AlbumView;

    open spec fn view(&self) -> AlbumView {
        AlbumView { id: self.id@, name: self.name@, tracks: self.tracks.deep_view() }
    }
}

/// The identifier of an album is no number.
#[derive(Debug, Clone, Copy, PartialEq, Eq, Structural)]
pub struct InvalidId;

/// The identifier that a text writes, with white space around it allowed.
pub fn read_album_id(id: &str) -> (r: Result<i64, InvalidId>)
    ensures
        r == (match i64_value(trimmed(id@)) {
            Some(n) => Ok::<i64, InvalidId>(n),
            None => Err(InvalidId),
        }),
{
    match parse_i64(trim(id).as_str()) {
        Some(n) => Ok(n),
        None => Err(InvalidId),
    }
}

/// The album of a release and its tracks.
pub open spec fn album_of(
    id: int,
    release: BeatportRelease,
    tracks: Seq<BeatportTrack>,
    art_resolution: u32,
) -> AlbumView {
    AlbumView {
        id: int_text(id),
        name: release.name@,
        tracks: tracks_of(tracks, art_resolution),
    }
}

/// The album of a release and its tracks.
pub fn make_album(
    id: i64,
    release: BeatportRelease,
    tracks: Vec<BeatportTrack>,
    art_resolution: u32,
) -> (r: Album)
    ensures
        r@ == album_of(id as int, release, tracks@, art_resolution),
{
    Album { id: int_to_text(id), name: release.name, tracks: to_tracks(tracks, art_resolution) }
}

/// What the completion of a track waits for.
#[derive(Debug, Clone, Copy, PartialEq, Eq, Structural)]
pub enum ExtendStage {
    Start,
    Track,
    Release,
    Done,
}

/// What came back.
#[derive(Debug)]
pub enum ExtendEvent {
    Start,
    Track(TrackReply),
    /// A release, or nothing where it could not be had.
    Release(Option<BeatportRelease>),
}

/// What to do next.
#[derive(Debug, Clone, Copy, PartialEq, Eq, Structural)]
pub enum ExtendAction {
    FetchTrack(i64),
    FetchRelease(i64),
    Finish,
}

/// The state of the completion of a track.
#[derive(Debug)]
pub struct Extension {
    pub art_resolution: u32,
    /// The album's artists are wanted.
    pub album_artist: bool,
    /// The number of the album's tracks is wanted.
    pub track_total: bool,
    pub stage: ExtendStage,
    pub track: Track,
}

/// The mathematical reading of an [`Extension`].
#[verifier::ext_equal]
pub struct ExtensionView {
    pub art_resolution: u32,
    pub album_artist: bool,
    pub track_total: bool,
    pub stage: ExtendStage,
    pub track: TrackView,
}

impl View for Extension {
    type V = ExtensionView;

    open spec fn view(&self) -> ExtensionView {
        ExtensionView {
            art_resolution: self.art_resolution,
            album_artist: self.album_artist,
            track_total: self.track_total,
            stage: self.stage,
            track: self.track@,
        }
    }
}

/// The number that an optional identifier writes.
pub open spec fn id_value(id: Option<Seq<char>>) -> Option<i64> {
    match id {
        Some(text) => i64_value(text),
        None => None,
    }
}

/// The number that an optional identifier writes.
fn read_id(id: &Option<String>) -> (r: Option<i64>)
    ensures
        r == id_value(id.deep_view()),
{
    match id {
        Some(text) => parse_i64(text),
        None => None,
    }
}

/// A track with what its release says of the album: its artists and its number of tracks.
pub open spec fn with_release(track: TrackView, release: BeatportRelease) -> TrackView {
    TrackView {
        track_total: release.track_count,
        album_artists: match release.artists {
            Some(list) => names(list@),
            None => Seq::empty(),
        },
        ..track
    }
}

impl ExtensionView {
    /// The event is what the completion waits for.
    pub open spec fn awaits(self, event: ExtendEvent) -> bool {
        match event {
            ExtendEvent::Start => self.stage == ExtendStage::Start,
            ExtendEvent::Track(_) => self.stage == ExtendStage::Track,
            ExtendEvent::Release(_) => self.stage == ExtendStage::Release,
        }
    }

    /// Go on to the release, where it is wanted and its identifier is known.
    pub open spec fn at_release(self) -> (ExtensionView, ExtendAction) {
        let done = (ExtensionView { stage: ExtendStage::Done, ..self }, ExtendAction::Finish);
        if !self.album_artist && !self.track_total {
            done
        } else {
            match id_value(self.track.release_id) {
                Some(id) => (
                    ExtensionView { stage: ExtendStage::Release, ..self },
                    ExtendAction::FetchRelease(id),
                ),
                None => done,
            }
        }
    }

    /// Begin with the track itself, where it is known in outline only.
    pub open spec fn at_start(self) -> (ExtensionView, ExtendAction) {
        match id_value(self.track.track_id) {
            Some(id) => if self.track.other.len() == 0 {
                (
                    ExtensionView { stage: ExtendStage::Track, ..self },
                    ExtendAction::FetchTrack(id),
                )
            } else {
                self.at_release()
            },
            None => self.at_release(),
        }
    }

    /// The next state and what to do, given what came back.
    pub open spec fn next(self, event: ExtendEvent) -> (ExtensionView, ExtendAction) {
        match event {
            ExtendEvent::Start => self.at_start(),
            ExtendEvent::Track(TrackReply::Found(t)) => ExtensionView {
                track: track_of(t, self.art_resolution),
                ..self
            }.at_release(),
            ExtendEvent::Track(_) => self.at_release(),
            ExtendEvent::Release(Some(release)) => (
                ExtensionView {
                    stage: ExtendStage::Done,
                    track: with_release(self.track, release),
                    ..self
                },
                ExtendAction::Finish,
            ),
            ExtendEvent::Release(None) => (
                ExtensionView { stage: ExtendStage::Done, ..self },
                ExtendAction::Finish,
            ),
        }
    }
}

impl Extension {
    /// The state before the completion of a track.
    pub fn new(art_resolution: u32, album_artist: bool, track_total: bool, track: Track) -> (r:
        Extension)
        ensures
            r@ == (ExtensionView {
                art_resolution,
                album_artist,
                track_total,
                stage: ExtendStage::Start,
                track: track@,
            }),
    {
        Extension { art_resolution, album_artist, track_total, stage: ExtendStage::Start, track }
    }

    /// Go on to the release, where it is wanted and its identifier is known.
    fn at_release(self) -> (r: (Extension, ExtendAction))
        ensures
            (r.0@, r.1) == self@.at_release(),
    {
        if self.album_artist || self.track_total {
            if let Some(id) = read_id(&self.track.release_id) {
                return (
                    Extension { stage: ExtendStage::Release, ..self },
                    ExtendAction::FetchRelease(id),
                );
            }
        }
        (Extension { stage: ExtendStage::Done, ..self }, ExtendAction::Finish)
    }

    /// Begin with the track itself, where it is known in outline only.
    fn at_start(self) -> (r: (Extension, ExtendAction))
        ensures
            (r.0@, r.1) == self@.at_start(),
    {
        if self.track.other.len() == 0 {
            if let Some(id) = read_id(&self.track.track_id) {
                return (
                    Extension { stage: ExtendStage::Track, ..self },
                    ExtendAction::FetchTrack(id),
                );
            }
        }
        self.at_release()
    }

    /// Takes what came back, and says what to do next.
    pub fn extend_track(self, event: ExtendEvent) -> (r: (Extension, ExtendAction))
        requires
            self@.awaits(event),
        ensures
            (r.0@, r.1) == self@.next(event),
    {
        match event {
            ExtendEvent::Start => self.at_start(),
            ExtendEvent::Track(reply) => {
                match reply {
                    TrackReply::Found(t) => {
                        let track = t.to_track(self.art_resolution);
                        Extension { track, ..self }.at_release()
                    },
                    _ => self.at_release(),
                }
            },
            ExtendEvent::Release(reply) => {
                let mut track = self.track;
                if let Some(release) = reply {
                    track.track_total = release.track_count;
                    track.album_artists = match &release.artists {
                        Some(list) => names_of(list),
                        None => Vec::new(),
                    };
                    assert(track@ =~~= with_release(self@.track, release));
                }
                (Extension { stage: ExtendStage::Done, track, ..self }, ExtendAction::Finish)
            },
        }
    }
}

/// The completion of a track ends after at most two replies.
pub proof fn law_extension_ends(s: ExtensionView, event: ExtendEvent)
    requires
        s.awaits(event),
    ensures
        ({
            let (after, action) = s.next(event);
            match action {
                ExtendAction::FetchTrack(_) => {
                    s.stage == ExtendStage::Start && after.stage == ExtendStage::Track
                },
                ExtendAction::FetchRelease(_) => {
                    s.stage != ExtendStage::Release && after.stage == ExtendStage::Release
                },
                ExtendAction::Finish => after.stage == ExtendStage::Done,
            }
        }),
{
}

/// A track described in full is not fetched again; where its album is wanted, the release that
/// is asked for is the one it is on.
pub proof fn law_full_track_asks_for_its_release(
    s: ExtensionView,
    t: BeatportTrack,
    art_resolution: u32,
)
    requires
        s.stage == ExtendStage::Start,
        s.track == track_of(t, art_resolution),
    ensures
        s.next(ExtendEvent::Start).1 == (if s.album_artist || s.track_total {
            ExtendAction::FetchRelease(t.release.id)
        } else {
            ExtendAction::Finish
        }),
        s.next(ExtendEvent::Start).0.track == s.track,
{
    law_identifiers_read_back(t, art_resolution);
}

/// A track that was fetched leads to the release it is on.
pub proof fn law_fetched_track_asks_for_its_release(s: ExtensionView, t: BeatportTrack)
    requires
        s.stage == ExtendStage::Track,
        s.album_artist || s.track_total,
    ensures
        s.next(ExtendEvent::Track(TrackReply::Found(t))).1 == ExtendAction::FetchRelease(
            t.release.id,
        ),
{
    law_identifiers_read_back(t, s.art_resolution);
}

/// Where neither the album's artists nor its number of tracks are wanted, no release is asked
/// for.
pub proof fn law_unwanted_release_is_not_fetched(s: ExtensionView, event: ExtendEvent)
    requires
        s.awaits(event),
        !s.album_artist,
        !s.track_total,
    ensures
        !(s.next(event).1 is FetchRelease),
{
}

/// A reply that brings nothing leaves the track as it was.
pub proof fn law_empty_reply_changes_nothing(s: ExtensionView, event: ExtendEvent)
    requires
        s.awaits(event),
        event matches ExtendEvent::Track(reply) ==> !(reply is Found),
        event matches ExtendEvent::Release(reply) ==> reply is None,
    ensures
        s.next(event).0.track == s.track,
{
}

/// The identifier of an album that was made is read back as the identifier it was made for.
pub proof fn law_album_id_reads_back(
    id: i64,
    release: BeatportRelease,
    tracks: Seq<BeatportTrack>,
    art_resolution: u32,
)
    ensures
        i64_value(album_of(id as int, release, tracks, art_resolution).id) == Some(id),
        album_of(id as int, release, tracks, art_resolution).tracks.len() == tracks.len(),
{
    law_int_text_reads_back(id as int);
}

/// A release that comes back changes nothing of the track but its album artists and its number of
/// tracks: those become what the release says, and every other field stays. Nothing is asked for
/// after it.
pub proof fn law_release_fills_in_the_album_only(s: ExtensionView, release: BeatportRelease)
    requires
        s.stage == ExtendStage::Release,
    ensures
        ({
            let (after, action) = s.next(ExtendEvent::Release(Some(release)));
            let old_track = s.track;
            let track = after.track;
            &&& action == ExtendAction::Finish
            &&& track.track_total == release.track_count
            &&& match release.artists {
                Some(list) => {
                    &&& track.album_artists.len() == list@.len()
                    &&& forall|i: int|
                        0 <= i < list@.len() ==> #[trigger] track.album_artists[i] == list@[i].name@
                },
                None => track.album_artists.len() == 0,
            }
            &&& track.platform == old_track.platform && track.title == old_track.title
            &&& track.version == old_track.version && track.artists == old_track.artists
            &&& track.album == old_track.album && track.key == old_track.key
            &&& track.bpm == old_track.bpm && track.genres == old_track.genres
            &&& track.styles == old_track.styles && track.art == old_track.art
            &&& track.thumbnail == old_track.thumbnail && track.url == old_track.url
            &&& track.label == old_track.label
            &&& track.catalog_number == old_track.catalog_number
            &&& track.other == old_track.other && track.track_id == old_track.track_id
            &&& track.release_id == old_track.release_id && track.duration == old_track.duration
            &&& track.remixers == old_track.remixers
            &&& track.track_number == old_track.track_number && track.isrc == old_track.isrc
            &&& track.release_year == old_track.release_year
            &&& track.publish_year == old_track.publish_year
            &&& track.release_date == old_track.release_date
            &&& track.publish_date == old_track.publish_date
        }),
{
}

/// A track known in outline only, without further tags, is fetched by its identifier, where that
/// is a number; any other is not fetched.
pub proof fn law_outline_is_fetched(s: ExtensionView, id: i64)
    requires
        s.stage == ExtendStage::Start,
    ensures
        s.next(ExtendEvent::Start).1 == ExtendAction::FetchTrack(id) <==> {
            &&& s.track.other.len() == 0
            &&& s.track.track_id matches Some(text)
            &&& i64_value(text) == Some(id)
        },
        s.next(ExtendEvent::Start).0.track == s.track,
{
}

/// Once the track is there, or could not be had, its release is fetched by its identifier, where
/// that is a number and the album's artists or its number of tracks are wanted; and else nothing.
pub proof fn law_release_is_fetched(s: ExtensionView, reply: TrackReply, id: i64)
    requires
        s.stage == ExtendStage::Track,
    ensures
        ({
            let (after, action) = s.next(ExtendEvent::Track(reply));
            &&& action == ExtendAction::FetchRelease(id) <==> {
                &&& s.album_artist || s.track_total
                &&& after.track.release_id matches Some(text)
                &&& i64_value(text) == Some(id)
            }
            &&& !(action is FetchTrack)
        }),
{
}

/// A track that is not fetched leads to its release in the same way.
pub proof fn law_release_is_fetched_at_once(s: ExtensionView, id: i64)
    requires
        s.stage == ExtendStage::Start,
        !(s.next(ExtendEvent::Start).1 is FetchTrack),
    ensures
        s.next(ExtendEvent::Start).1 == ExtendAction::FetchRelease(id) <==> {
            &&& s.album_artist || s.track_total
            &&& s.track.release_id matches Some(text)
            &&& i64_value(text) == Some(id)
        },
{
}

/// A track that was fetched takes the place of its outline, described with cover art at the
/// resolution asked for.
pub proof fn law_fetched_track_replaces_the_outline(s: ExtensionView, t: BeatportTrack)
    requires
        s.stage == ExtendStage::Track,
    ensures
        s.next(ExtendEvent::Track(TrackReply::Found(t))).0.track == track_of(t, s.art_resolution),
{
}

/// What is wanted of the album, and the resolution, stay as they are throughout.
pub proof fn law_wishes_stay(s: ExtensionView, event: ExtendEvent)
    requires
        s.awaits(event),
    ensures
        ({
            let after = s.next(event).0;
            &&& after.art_resolution == s.art_resolution
            &&& after.album_artist == s.album_artist
            &&& after.track_total == s.track_total
        }),
{
}

/// What is read of a completion is what it holds.
pub proof fn law_extension_reading(s: Extension)
    ensures
        s@.art_resolution == s.art_resolution,
        s@.album_artist == s.album_artist,
        s@.track_total == s.track_total,
        s@.stage == s.stage,
        s@.track == s.track@,
{
}

/// An album has the name of its release and all of its tracks, in order, each described with cover
/// art at the resolution asked for.
pub proof fn law_album_has_its_tracks(
    album: Album,
    id: i64,
    release: BeatportRelease,
    tracks: Seq<BeatportTrack>,
    art_resolution: u32,
)
    requires
        album@ == album_of(id as int, release, tracks, art_resolution),
    ensures
        album.id@ == int_text(id as int),
        album.name@ == release.name@,
        album.tracks@.len() == tracks.len(),
        forall|i: int|
            0 <= i < tracks.len() ==> (#[trigger] album.tracks@[i])@ == track_of(
                tracks[i],
                art_resolution,
            ),
{
    let list = album.tracks.deep_view();
    assert(list.len() == album.tracks@.len());
    assert forall|i: int| 0 <= i < tracks.len() implies (#[trigger] album.tracks@[i])@ == track_of(
        tracks[i],
        art_resolution,
    ) by {
        assert(list[i] == album.tracks@[i]@);
    }
}

/// An album identifier is read whatever white space stands around it.
pub proof fn law_album_id_may_stand_in_white_space(a: Seq<char>, id: i64, b: Seq<char>)
    requires
        is_blank(a),
        is_blank(b),
    ensures
        i64_value(trimmed(a + int_text(id as int) + b)) == Some(id),
{
    law_int_text_reads_back(id as int);
    lemma_int_text_is_unbroken(id as int);
    law_trimmed_is_the_middle(a, int_text(id as int), b);
}

/// What is to be done next says what the completion waits for; it begins by waiting to be started.
pub proof fn law_extension_says_what_is_awaited(
    s: ExtensionView,
    event: ExtendEvent,
    reply: TrackReply,
    release: Option<BeatportRelease>,
)
    ensures
        s.stage == ExtendStage::Start ==> s.awaits(ExtendEvent::Start),
        s.awaits(event) ==> match s.next(event).1 {
            ExtendAction::FetchTrack(_) => s.next(event).0.awaits(ExtendEvent::Track(reply)),
            ExtendAction::FetchRelease(_) => s.next(event).0.awaits(ExtendEvent::Release(release)),
            ExtendAction::Finish => s.next(event).0.stage == ExtendStage::Done,
        },
{
}

} // verus!
