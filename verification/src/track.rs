//! The description of a track that tags are written from.
use vstd::prelude::*;
use crate::catalog::{names, names_of, BeatportTrack};
use crate::number::{
    decimal, i32_value, i64_value, int_text, int_to_text, is_digit, law_int_text_injective,
    law_int_text_reads_back, lemma_decimal, nat_to_text, parse_i32,
};
use crate::outside::{date_read, read_date, DATE_FORMAT};
use crate::text::{
    contains, first_chars, law_replaced_occurrences, law_replaced_without_occurrence,
    lemma_replaced_after, no_common_character, occurs, occurs_at, replace, replaced,
};

verus! {

/// The name of the image that stands for missing cover art.
pub const INVALID_ART: &'static str = "ab2d1d04-233d-4b08-8234-9782b34dcab8";

/// The width and height of a thumbnail.
pub const THUMBNAIL_RESOLUTION: u32 = 150;

/// A calendar date.
#[derive(Debug, Clone, Copy, PartialEq, Eq, Structural)]
pub struct Date {
    pub year: i32,
    pub month: u32,
    pub day: u32,
}

/// What is known of a track. Times are in milliseconds.
#[derive(Debug)]
pub struct Track {
    pub platform: String,
    pub title: String,
    pub version: Option<String>,
    pub artists: Vec<String>,
    pub album_artists: Vec<String>,
    pub album: Option<String>,
    pub key: Option<String>,
    pub bpm: Option<i64>,
    pub genres: Vec<String>,
    pub styles: Vec<String>,
    pub art: Option<String>,
    pub thumbnail: Option<String>,
    pub url: String,
    pub label: Option<String>,
    pub catalog_number: Option<String>,
    pub other: Vec<(String, Vec<String>)>,
    pub track_id: Option<String>,
    pub release_id: Option<String>,
    pub duration: u64,
    pub remixers: Vec<String>,
    pub track_number: Option<i32>,
    pub track_total: Option<u16>,
    pub isrc: Option<String>,
    pub release_year: Option<i32>,
    pub publish_year: Option<i32>,
    pub release_date: Option<Date>,
    pub publish_date: Option<Date>,
}

/// The mathematical reading of a [`Track`].
#[verifier::ext_equal]
pub struct TrackView {
    pub platform: Seq<char>,
    pub title: Seq<char>,
    pub version: Option<Seq<char>>,
    pub artists: Seq<Seq<char>>,
    pub album_artists: Seq<Seq<char>>,
    pub album: Option<Seq<char>>,
    pub key: Option<Seq<char>>,
    pub bpm: Option<i64>,
    pub genres: Seq<Seq<char>>,
    pub styles: Seq<Seq<char>>,
    pub art: Option<Seq<char>>,
    pub thumbnail: Option<Seq<char>>,
    pub url: Seq<char>,
    pub label: Option<Seq<char>>,
    pub catalog_number: Option<Seq<char>>,
    pub other: Seq<(Seq<char>, Seq<Seq<char>>)>,
    pub track_id: Option<Seq<char>>,
    pub release_id: Option<Seq<char>>,
    pub duration: u64,
    pub remixers: Seq<Seq<char>>,
    pub track_number: Option<i32>,
    pub track_total: Option<u16>,
    pub isrc: Option<Seq<char>>,
    pub release_year: Option<i32>,
    pub publish_year: Option<i32>,
    pub release_date: Option<Date>,
    pub publish_date: Option<Date>,
}

impl View for Track {
    type V = TrackView;

    open spec fn view(&self) -> TrackView {
        TrackView {
            platform: self.platform@,
            title: self.title@,
            version: self.version.deep_view(),
            artists: self.artists.deep_view(),
            album_artists: self.album_artists.deep_view(),
            album: self.album.deep_view(),
            key: self.key.deep_view(),
            bpm: self.bpm,
            genres: self.genres.deep_view(),
            styles: self.styles.deep_view(),
            art: self.art.deep_view(),
            thumbnail: self.thumbnail.deep_view(),
            url: self.url@,
            label: self.label.deep_view(),
            catalog_number: self.catalog_number.deep_view(),
            other: self.other.deep_view(),
            track_id: self.track_id.deep_view(),
            release_id: self.release_id.deep_view(),
            duration: self.duration,
            remixers: self.remixers.deep_view(),
            track_number: self.track_number,
            track_total: self.track_total,
            isrc: self.isrc.deep_view(),
            release_year: self.release_year,
            publish_year: self.publish_year,
            release_date: self.release_date,
            publish_date: self.publish_date,
        }
    }
}

impl DeepView for Track {
    type V = TrackView;

    open spec fn deep_view(&self) -> TrackView {
        self@
    }
}

/// A copy of an optional text.
fn copy_text(s: &Option<String>) -> (r: Option<String>)
    ensures
        r == *s,
{
    match s {
        Some(t) => Some(t.clone()),
        None => None,
    }
}

/// A copy of a list of texts.
pub fn copy_texts(list: &Vec<String>) -> (r: Vec<String>)
    ensures
        r.deep_view() == list.deep_view(),
{
    let mut r: Vec<String> = Vec::new();
    let mut i: usize = 0;
    while i < list.len()
        invariant
            i <= list@.len(),
            r@ =~= list@.take(i as int),
        decreases list@.len() - i,
    {
        r.push(list[i].clone());
        i = i + 1;
    }
    assert(r@ =~= list@);
    r
}

impl Clone for Track {
    fn clone(&self) -> (r: Track)
        ensures
            r@ == self@,
    {
        let mut other: Vec<(String, Vec<String>)> = Vec::new();
        let mut i: usize = 0;
        while i < self.other.len()
            invariant
                i <= self.other@.len(),
                other.deep_view() =~= self.other.deep_view().take(i as int),
            decreases self.other@.len() - i,
        {
            let entry = &self.other[i];
            let ghost before = other.deep_view();
            other.push((entry.0.clone(), copy_texts(&entry.1)));
            assert(other.deep_view() =~= before.push(self.other.deep_view()[i as int]));
            i = i + 1;
        }
        assert(other.deep_view() =~= self.other.deep_view());
        Track {
            platform: self.platform.clone(),
            title: self.title.clone(),
            version: copy_text(&self.version),
            artists: copy_texts(&self.artists),
            album_artists: copy_texts(&self.album_artists),
            album: copy_text(&self.album),
            key: copy_text(&self.key),
            bpm: self.bpm,
            genres: copy_texts(&self.genres),
            styles: copy_texts(&self.styles),
            art: copy_text(&self.art),
            thumbnail: copy_text(&self.thumbnail),
            url: self.url.clone(),
            label: copy_text(&self.label),
            catalog_number: copy_text(&self.catalog_number),
            other,
            track_id: copy_text(&self.track_id),
            release_id: copy_text(&self.release_id),
            duration: self.duration,
            remixers: copy_texts(&self.remixers),
            track_number: self.track_number,
            track_total: self.track_total,
            isrc: copy_text(&self.isrc),
            release_year: self.release_year,
            publish_year: self.publish_year,
            release_date: self.release_date,
            publish_date: self.publish_date,
        }
    }
}

/// A track of which nothing is known.
pub open spec fn unknown_track() -> TrackView {
    TrackView {
        platform: Seq::empty(),
        title: Seq::empty(),
        version: None,
        artists: Seq::empty(),
        album_artists: Seq::empty(),
        album: None,
        key: None,
        bpm: None,
        genres: Seq::empty(),
        styles: Seq::empty(),
        art: None,
        thumbnail: None,
        url: Seq::empty(),
        label: None,
        catalog_number: None,
        other: Seq::empty(),
        track_id: None,
        release_id: None,
        duration: 0,
        remixers: Seq::empty(),
        track_number: None,
        track_total: None,
        isrc: None,
        release_year: None,
        publish_year: None,
        release_date: None,
        publish_date: None,
    }
}

impl Default for Track {
    fn default() -> (r: Track)
        ensures
            r@ == unknown_track(),
    {
        let r = Track {
            platform: String::new(),
            title: String::new(),
            version: None,
            artists: Vec::new(),
            album_artists: Vec::new(),
            album: None,
            key: None,
            bpm: None,
            genres: Vec::new(),
            styles: Vec::new(),
            art: None,
            thumbnail: None,
            url: String::new(),
            label: None,
            catalog_number: None,
            other: Vec::new(),
            track_id: None,
            release_id: None,
            duration: 0,
            remixers: Vec::new(),
            track_number: None,
            track_total: None,
            isrc: None,
            release_year: None,
            publish_year: None,
            release_date: None,
            publish_date: None,
        };
        assert(r@ =~~= unknown_track());
        r
    }
}

/// An image address with its four size placeholders filled in.
pub open spec fn art_filled(uri: Seq<char>, size: Seq<char>) -> Seq<char> {
    replaced(
        replaced(replaced(replaced(uri, "{w}"@, size), "{h}"@, size), "{x}"@, size),
        "{y}"@,
        size,
    )
}

/// The address of a release's cover art at a resolution; nothing for the missing-art image.
pub open spec fn art_address(uri: Seq<char>, art_resolution: u32) -> Option<Seq<char>> {
    if occurs(uri, INVALID_ART@) {
        None
    } else {
        Some(art_filled(uri, decimal(art_resolution as nat)))
    }
}

/// A musical key in short form: `A Minor` is `Am` and `A Major` is `A`.
pub open spec fn short_key(name: Seq<char>) -> Seq<char> {
    replaced(replaced(name, " Major"@, ""@), " Minor"@, "m"@)
}

/// The year at the head of a date: its first four characters, where they write a number.
pub open spec fn leading_year(date: Seq<char>) -> Option<i32> {
    i32_value(
        date.take(
            if date.len() < 4 {
                date.len() as int
            } else {
                4
            },
        ),
    )
}

/// The date that a text writes.
pub open spec fn calendar_date(date: Seq<char>) -> Option<Date> {
    match date_read(date, DATE_FORMAT@) {
        Some(d) => Some(Date { year: d.0, month: d.1, day: d.2 }),
        None => None,
    }
}

/// The address of a track's page.
pub open spec fn track_address(slug: Seq<char>, id: int) -> Seq<char> {
    "https://www.beatport.com/track/"@ + slug + "/"@ + int_text(id)
}

/// The further tags of a track: its identifier, and a mark where it is exclusive.
pub open spec fn other_tags(id: int, exclusive: bool) -> Seq<(Seq<char>, Seq<Seq<char>>)> {
    let unique = ("UNIQUEFILEID"@, seq!["https://beatport.com|"@ + int_text(id)]);
    if exclusive {
        seq![unique, ("BEATPORT_EXCLUSIVE"@, seq!["1"@])]
    } else {
        seq![unique]
    }
}

/// The description of a catalogue track, with cover art at the given resolution.
pub open spec fn track_of(t: BeatportTrack, art_resolution: u32) -> TrackView {
    TrackView {
        platform: "beatport"@,
        title: t.name@,
        version: Some(t.mix_name@),
        artists: names(t.artists@),
        album_artists: Seq::empty(),
        album: Some(t.release.name@),
        key: match t.key {
            Some(k) => Some(short_key(k.name@)),
            None => None,
        },
        bpm: t.bpm,
        genres: seq![t.genre.name@],
        styles: match t.sub_genre {
            Some(s) => seq![s.name@],
            None => Seq::empty(),
        },
        art: art_address(t.release.image.dynamic_uri@, art_resolution),
        thumbnail: art_address(t.release.image.dynamic_uri@, THUMBNAIL_RESOLUTION),
        url: track_address(t.slug@, t.id as int),
        label: Some(t.release.label.name@),
        catalog_number: t.catalog_number.deep_view(),
        other: other_tags(t.id as int, t.exclusive),
        track_id: Some(int_text(t.id as int)),
        release_id: Some(int_text(t.release.id as int)),
        duration: match t.length_ms {
            Some(ms) => ms,
            None => 0,
        },
        remixers: names(t.remixers@),
        track_number: match t.number {
            Some(n) => Some(n as i32),
            None => None,
        },
        track_total: None,
        isrc: t.isrc.deep_view(),
        release_year: match t.new_release_date {
            Some(d) => leading_year(d@),
            None => None,
        },
        publish_year: match t.publish_date {
            Some(d) => leading_year(d@),
            None => None,
        },
        release_date: match t.new_release_date {
            Some(d) => calendar_date(d@),
            None => None,
        },
        publish_date: match t.publish_date {
            Some(d) => calendar_date(d@),
            None => None,
        },
    }
}

/// The year at the head of a date.
pub fn read_leading_year(date: &Option<String>) -> (r: Option<i32>)
    ensures
        r == (match *date {
            Some(d) => leading_year(d@),
            None => None,
        }),
{
    match date {
        Some(d) => parse_i32(first_chars(d, 4).as_str()),
        None => None,
    }
}

/// The date made of the parts that were read from a text.
pub fn date_from_parts(parts: Option<(i32, u32, u32)>) -> (r: Option<Date>)
    ensures
        r == (match parts {
            Some(d) => Some(Date { year: d.0, month: d.1, day: d.2 }),
            None => None,
        }),
{
    match parts {
        Some(d) => Some(Date { year: d.0, month: d.1, day: d.2 }),
        None => None,
    }
}

/// The date that a text writes. Its month lies between 1 and 12 and its day between 1 and 31.
pub fn read_calendar_date(date: &Option<String>) -> (r: Option<Date>)
    ensures
        r == (match *date {
            Some(d) => calendar_date(d@),
            None => None,
        }),
        r matches Some(d) ==> 1 <= d.month <= 12 && 1 <= d.day <= 31,
{
    match date {
        Some(d) => date_from_parts(read_date(d, DATE_FORMAT)),
        None => None,
    }
}

/// A musical key in short form.
pub fn shorten_key(name: &str) -> (r: String)
    ensures
        r@ == short_key(name@),
{
    proof {
        reveal_strlit(" Major");
        reveal_strlit(" Minor");
    }
    replace(replace(name, " Major", "").as_str(), " Minor", "m")
}

/// The address of a track's page.
pub fn make_track_address(slug: &str, id: i64) -> (r: String)
    ensures
        r@ == track_address(slug@, id as int),
{
    let mut r = "https://www.beatport.com/track/".to_string();
    r.append(slug);
    r.append("/");
    r.append(int_to_text(id).as_str());
    r
}

/// The further tags of a track.
fn make_other_tags(id: i64, exclusive: bool) -> (r: Vec<(String, Vec<String>)>)
    ensures
        r.deep_view() == other_tags(id as int, exclusive),
{
    let mut unique = "https://beatport.com|".to_string();
    unique.append(int_to_text(id).as_str());
    let mut values: Vec<String> = Vec::new();
    values.push(unique);
    let mut r: Vec<(String, Vec<String>)> = Vec::new();
    assert(values.deep_view() =~= seq![unique@]);
    r.push(("UNIQUEFILEID".to_string(), values));
    if exclusive {
        let mut mark: Vec<String> = Vec::new();
        mark.push("1".to_string());
        assert(mark.deep_view() =~= seq!["1"@]);
        r.push(("BEATPORT_EXCLUSIVE".to_string(), mark));
    }
    assert(r.deep_view() =~= other_tags(id as int, exclusive));
    r
}

impl BeatportTrack {
    /// The address of the release's cover art at a resolution.
    pub fn get_art(&self, art_resolution: u32) -> (r: Option<String>)
        ensures
            r.deep_view() == art_address(self.release.image.dynamic_uri@, art_resolution),
    {
        let uri = &self.release.image.dynamic_uri;
        if contains(uri, INVALID_ART) {
            return None;
        }
        let size = nat_to_text(art_resolution as u128);
        proof {
            reveal_strlit("{w}");
            reveal_strlit("{h}");
            reveal_strlit("{x}");
            reveal_strlit("{y}");
        }
        let w = replace(uri, "{w}", &size);
        let h = replace(&w, "{h}", &size);
        let x = replace(&h, "{x}", &size);
        Some(replace(&x, "{y}", &size))
    }

    /// The description of this track, with cover art at the given resolution.
    pub fn to_track(self, art_resolution: u32) -> (r: Track)
        ensures
            r@ == track_of(self, art_resolution),
            r.release_date matches Some(d) ==> 1 <= d.month <= 12 && 1 <= d.day <= 31,
            r.publish_date matches Some(d) ==> 1 <= d.month <= 12 && 1 <= d.day <= 31,
            r.title@ == self.name@,
            r.version matches Some(v) && v@ == self.mix_name@,
            r.artists@.len() == self.artists@.len(),
            forall|i: int|
                0 <= i < self.artists@.len() ==> (#[trigger] r.artists@[i])@
                    == self.artists@[i].name@,
            r.remixers@.len() == self.remixers@.len(),
            forall|i: int|
                0 <= i < self.remixers@.len() ==> (#[trigger] r.remixers@[i])@
                    == self.remixers@[i].name@,
            r.album matches Some(a) && a@ == self.release.name@,
            r.album_artists@.len() == 0,
            r.label matches Some(l) && l@ == self.release.label.name@,
            r.bpm == self.bpm,
            r.isrc == self.isrc,
            r.catalog_number == self.catalog_number,
            match self.new_release_date {
                Some(text) => match date_read(text@, "%Y-%m-%d"@) {
                    Some(d) => r.release_date == Some(Date { year: d.0, month: d.1, day: d.2 }),
                    None => r.release_date is None,
                },
                None => r.release_date is None,
            },
            match self.publish_date {
                Some(text) => match date_read(text@, "%Y-%m-%d"@) {
                    Some(d) => r.publish_date == Some(Date { year: d.0, month: d.1, day: d.2 }),
                    None => r.publish_date is None,
                },
                None => r.publish_date is None,
            },
    {
        let art = self.get_art(art_resolution);
        let thumbnail = self.get_art(THUMBNAIL_RESOLUTION);
        let mut genres: Vec<String> = Vec::new();
        genres.push(self.genre.name.clone());
        let mut styles: Vec<String> = Vec::new();
        if let Some(s) = &self.sub_genre {
            styles.push(s.name.clone());
        }
        let key = match &self.key {
            Some(k) => Some(shorten_key(&k.name)),
            None => None,
        };
        let track = Track {
            platform: "beatport".to_string(),
            title: self.name.clone(),
            version: Some(self.mix_name.clone()),
            artists: names_of(&self.artists),
            album_artists: Vec::new(),
            album: Some(self.release.name.clone()),
            key,
            bpm: self.bpm,
            genres,
            styles,
            art,
            thumbnail,
            url: make_track_address(&self.slug, self.id),
            label: Some(self.release.label.name.clone()),
            catalog_number: copy_text(&self.catalog_number),
            other: make_other_tags(self.id, self.exclusive),
            track_id: Some(int_to_text(self.id)),
            release_id: Some(int_to_text(self.release.id)),
            duration: match self.length_ms {
                Some(ms) => ms,
                None => 0,
            },
            remixers: names_of(&self.remixers),
            track_number: match self.number {
                Some(n) => Some(
                    #[verifier::truncate]
                    (n as i32),
                ),
                None => None,
            },
            track_total: None,
            isrc: copy_text(&self.isrc),
            release_year: read_leading_year(&self.new_release_date),
            publish_year: read_leading_year(&self.publish_date),
            release_date: read_calendar_date(&self.new_release_date),
            publish_date: read_calendar_date(&self.publish_date),
        };
        assert(track@ =~~= track_of(self, art_resolution));
        proof {
            assert(track.artists.deep_view().len() == track.artists@.len());
            assert(track.remixers.deep_view().len() == track.remixers@.len());
            assert forall|i: int| 0 <= i < self.artists@.len() implies (
            #[trigger] track.artists@[i])@ == self.artists@[i].name@ by {
                assert(track.artists.deep_view() == names(self.artists@));
                assert(track.artists.deep_view()[i] == track.artists@[i]@);
            }
            assert forall|i: int| 0 <= i < self.remixers@.len() implies (
            #[trigger] track.remixers@[i])@ == self.remixers@[i].name@ by {
                assert(track.remixers.deep_view() == names(self.remixers@));
                assert(track.remixers.deep_view()[i] == track.remixers@[i]@);
            }
        }
        track
    }
}

/// The descriptions of a list of catalogue tracks, in order.
pub open spec fn tracks_of(list: Seq<BeatportTrack>, art_resolution: u32) -> Seq<TrackView> {
    list.map_values(|t: BeatportTrack| track_of(t, art_resolution))
}

/// The descriptions of a list of catalogue tracks, in order.
pub fn to_tracks(list: Vec<BeatportTrack>, art_resolution: u32) -> (r: Vec<Track>)
    ensures
        r.deep_view() == tracks_of(list@, art_resolution),
{
    let ghost all = tracks_of(list@, art_resolution);
    let ghost given = list@;
    let mut rest = list;
    let mut r: Vec<Track> = Vec::new();
    while rest.len() > 0
        invariant
            all == tracks_of(given, art_resolution),
            r@.len() + rest@.len() == given.len(),
            r.deep_view() =~= all.take(r@.len() as int),
            rest@ =~= given.skip(r@.len() as int),
        decreases rest@.len(),
    {
        let ghost n = r@.len() as int;
        let ghost before = r.deep_view();
        let track = rest.remove(0).to_track(art_resolution);
        assert(track@ == all[n]);
        r.push(track);
        assert(r.deep_view() =~= before.push(all[n]));
    }
    assert(r.deep_view() =~= all);
    r
}

/// A copy of a list of tracks.
pub fn copy_tracks(list: &Vec<Track>) -> (r: Vec<Track>)
    ensures
        r.deep_view() == list.deep_view(),
{
    let ghost all = list.deep_view();
    let mut r: Vec<Track> = Vec::new();
    let mut i: usize = 0;
    while i < list.len()
        invariant
            all == list.deep_view(),
            i <= list@.len(),
            r.deep_view() =~= all.take(i as int),
        decreases list@.len() - i,
    {
        let ghost before = r.deep_view();
        let copy = list[i].clone();
        assert(copy@ == all[i as int]);
        r.push(copy);
        assert(r.deep_view() =~= before.push(all[i as int]));
        i = i + 1;
    }
    assert(r.deep_view() =~= all);
    r
}

/// The decimal digits of a number have no character in common with a size placeholder.
proof fn lemma_digits_are_no_placeholder(n: nat)
    ensures
        decimal(n).len() > 0,
        no_common_character("{w}"@, decimal(n)),
        no_common_character("{h}"@, decimal(n)),
        no_common_character("{x}"@, decimal(n)),
        no_common_character("{y}"@, decimal(n)),
{
    lemma_decimal(n);
    reveal_strlit("{w}");
    reveal_strlit("{h}");
    reveal_strlit("{x}");
    reveal_strlit("{y}");
    let d = decimal(n);
    assert forall|c: char| d.contains(c) implies #[trigger] is_digit(c) by {
        let i = choose|i: int| 0 <= i < d.len() && d[i] == c;
        assert(is_digit(d[i]));
    }
    assert(!is_digit('{') && !is_digit('}') && !is_digit('w') && !is_digit('h') && !is_digit('x')
        && !is_digit('y'));
}

/// A cover art address has no size placeholder left in it.
pub proof fn law_art_has_no_placeholder(uri: Seq<char>, art_resolution: u32)
    ensures
        art_address(uri, art_resolution) matches Some(address) ==> {
            &&& !occurs(address, "{w}"@)
            &&& !occurs(address, "{h}"@)
            &&& !occurs(address, "{x}"@)
            &&& !occurs(address, "{y}"@)
        },
{
    let d = decimal(art_resolution as nat);
    lemma_digits_are_no_placeholder(art_resolution as nat);
    reveal_strlit("{w}");
    reveal_strlit("{h}");
    reveal_strlit("{x}");
    reveal_strlit("{y}");
    let w = replaced(uri, "{w}"@, d);
    let h = replaced(w, "{h}"@, d);
    let x = replaced(h, "{x}"@, d);
    law_replaced_occurrences(uri, "{w}"@, d, "{w}"@);
    law_replaced_occurrences(w, "{h}"@, d, "{w}"@);
    law_replaced_occurrences(h, "{x}"@, d, "{w}"@);
    law_replaced_occurrences(x, "{y}"@, d, "{w}"@);
    law_replaced_occurrences(w, "{h}"@, d, "{h}"@);
    law_replaced_occurrences(h, "{x}"@, d, "{h}"@);
    law_replaced_occurrences(x, "{y}"@, d, "{h}"@);
    law_replaced_occurrences(h, "{x}"@, d, "{x}"@);
    law_replaced_occurrences(x, "{y}"@, d, "{x}"@);
    law_replaced_occurrences(x, "{y}"@, d, "{y}"@);
}

/// An image address without size placeholders is the cover art address at every resolution.
pub proof fn law_art_without_placeholder_stays(uri: Seq<char>, art_resolution: u32)
    requires
        !occurs(uri, INVALID_ART@),
        !occurs(uri, "{w}"@),
        !occurs(uri, "{h}"@),
        !occurs(uri, "{x}"@),
        !occurs(uri, "{y}"@),
    ensures
        art_address(uri, art_resolution) == Some(uri),
{
    let d = decimal(art_resolution as nat);
    law_replaced_without_occurrence(uri, "{w}"@, d);
    law_replaced_without_occurrence(uri, "{h}"@, d);
    law_replaced_without_occurrence(uri, "{x}"@, d);
    law_replaced_without_occurrence(uri, "{y}"@, d);
}

/// The identifiers that the description of a track carries are read back as those of the track
/// and its release.
pub proof fn law_identifiers_read_back(t: BeatportTrack, art_resolution: u32)
    ensures
        track_of(t, art_resolution).track_id matches Some(text) && i64_value(text) == Some(t.id),
        track_of(t, art_resolution).release_id matches Some(text) && i64_value(text) == Some(
            t.release.id,
        ),
{
    law_int_text_reads_back(t.id as int);
    law_int_text_reads_back(t.release.id as int);
}

/// The decimal text of an integer has no slash.
proof fn lemma_int_text_has_no_slash(n: int)
    ensures
        forall|i: int| 0 <= i < int_text(n).len() ==> #[trigger] int_text(n)[i] != '/',
{
    lemma_decimal(if n < 0 { (-n) as nat } else { n as nat });
    let d = decimal(if n < 0 { (-n) as nat } else { n as nat });
    assert forall|i: int| 0 <= i < int_text(n).len() implies #[trigger] int_text(n)[i] != '/' by {
        if n < 0 {
            if i > 0 {
                assert(int_text(n)[i] == d[i - 1]);
                assert(is_digit(d[i - 1]));
            }
        } else {
            assert(is_digit(d[i]));
        }
    }
}

/// Two tracks with the same address have the same identifier and slug.
pub proof fn law_address_identifies_track(slug1: Seq<char>, id1: int, slug2: Seq<char>, id2: int)
    requires
        track_address(slug1, id1) == track_address(slug2, id2),
    ensures
        id1 == id2,
        slug1 == slug2,
{
    reveal_strlit("/");
    let host = "https://www.beatport.com/track/"@;
    let d1 = int_text(id1);
    let d2 = int_text(id2);
    let a = track_address(slug1, id1);
    let b = track_address(slug2, id2);
    lemma_int_text_has_no_slash(id1);
    lemma_int_text_has_no_slash(id2);
    assert(a[a.len() - d1.len() - 1] == '/');
    assert(b[b.len() - d2.len() - 1] == '/');
    if d1.len() < d2.len() {
        assert(b[a.len() - d1.len() - 1] == d2[d2.len() - d1.len() - 1]);
    } else if d2.len() < d1.len() {
        assert(a[b.len() - d2.len() - 1] == d1[d1.len() - d2.len() - 1]);
    }
    assert(d1 =~= d2) by {
        assert forall|i: int| 0 <= i < d1.len() implies d1[i] == d2[i] by {
            assert(a[a.len() - d1.len() + i] == d1[i]);
            assert(b[b.len() - d2.len() + i] == d2[i]);
        }
    }
    law_int_text_injective(id1, id2);
    assert(slug1 =~= slug2) by {
        assert forall|i: int| 0 <= i < slug1.len() implies slug1[i] == slug2[i] by {
            assert(a[host.len() + i] == slug1[i]);
            assert(b[host.len() + i] == slug2[i]);
        }
    }
}

/// What is read of a track is what it holds, field for field.
pub proof fn law_track_reading(t: Track)
    ensures
        t@.platform == t.platform@ && t@.title == t.title@ && t@.url == t.url@,
        t@.version == t.version.deep_view() && t@.album == t.album.deep_view(),
        t@.artists == t.artists.deep_view() && t@.remixers == t.remixers.deep_view(),
        t@.album_artists == t.album_artists.deep_view() && t@.key == t.key.deep_view(),
        t@.genres == t.genres.deep_view() && t@.styles == t.styles.deep_view(),
        t@.art == t.art.deep_view() && t@.thumbnail == t.thumbnail.deep_view(),
        t@.label == t.label.deep_view() && t@.isrc == t.isrc.deep_view(),
        t@.catalog_number == t.catalog_number.deep_view() && t@.other == t.other.deep_view(),
        t@.track_id == t.track_id.deep_view() && t@.release_id == t.release_id.deep_view(),
        t@.bpm == t.bpm && t@.duration == t.duration && t@.track_number == t.track_number,
        t@.track_total == t.track_total && t@.release_year == t.release_year,
        t@.publish_year == t.publish_year && t@.release_date == t.release_date,
        t@.publish_date == t.publish_date,
        t.deep_view() == t@,
{
}

/// The description of a catalogue track says of it what the catalogue says: its title, version,
/// artists, remixers, album, label, genre and style, and the numbers and texts that are handed on
/// as they are. Of the album's artists and its number of tracks it says nothing yet.
pub proof fn law_description_says_what_the_catalogue_says(t: BeatportTrack, art_resolution: u32)
    ensures
        ({
            let r = track_of(t, art_resolution);
            &&& r.platform == "beatport"@
            &&& r.title == t.name@
            &&& r.version == Some(t.mix_name@)
            &&& r.artists.len() == t.artists@.len()
            &&& forall|i: int|
                0 <= i < t.artists@.len() ==> #[trigger] r.artists[i] == t.artists@[i].name@
            &&& r.remixers.len() == t.remixers@.len()
            &&& forall|i: int|
                0 <= i < t.remixers@.len() ==> #[trigger] r.remixers[i] == t.remixers@[i].name@
            &&& r.album == Some(t.release.name@)
            &&& r.label == Some(t.release.label.name@)
            &&& r.genres.len() == 1 && r.genres[0] == t.genre.name@
            &&& match t.sub_genre {
                Some(g) => r.styles.len() == 1 && r.styles[0] == g.name@,
                None => r.styles.len() == 0,
            }
            &&& r.bpm == t.bpm
            &&& match t.isrc {
                Some(text) => r.isrc == Some(text@),
                None => r.isrc is None,
            }
            &&& match t.catalog_number {
                Some(text) => r.catalog_number == Some(text@),
                None => r.catalog_number is None,
            }
            &&& match t.length_ms {
                Some(ms) => r.duration == ms,
                None => r.duration == 0,
            }
            &&& match t.number {
                Some(n) => r.track_number == Some(n as i32),
                None => r.track_number is None,
            }
            &&& r.album_artists.len() == 0
            &&& r.track_total is None
        }),
{
}

/// Wherever the catalogue gives a date that reads as year, month and day, the description has that
/// date; and it has none where the catalogue gives none or one that does not read so. The release
/// date and the publish date are not mixed up.
pub proof fn law_description_has_the_dates(t: BeatportTrack, art_resolution: u32)
    ensures
        ({
            let r = track_of(t, art_resolution);
            &&& match t.new_release_date {
                Some(text) => match date_read(text@, "%Y-%m-%d"@) {
                    Some((year, month, day)) => r.release_date == Some(Date { year, month, day }),
                    None => r.release_date is None,
                },
                None => r.release_date is None,
            }
            &&& match t.publish_date {
                Some(text) => match date_read(text@, "%Y-%m-%d"@) {
                    Some((year, month, day)) => r.publish_date == Some(Date { year, month, day }),
                    None => r.publish_date is None,
                },
                None => r.publish_date is None,
            }
        }),
{
}

/// The years of a description are those that the first four characters of the catalogue's dates
/// write; a shorter date is read whole.
pub proof fn law_description_has_the_years(
    t: BeatportTrack,
    art_resolution: u32,
    head: Seq<char>,
    tail: Seq<char>,
)
    requires
        head.len() == 4 || (head.len() < 4 && tail.len() == 0),
    ensures
        ({
            let r = track_of(t, art_resolution);
            &&& match t.new_release_date {
                Some(text) => text@ == head + tail ==> r.release_year == i32_value(head),
                None => r.release_year is None,
            }
            &&& match t.publish_date {
                Some(text) => text@ == head + tail ==> r.publish_year == i32_value(head),
                None => r.publish_year is None,
            }
        }),
{
    assert((head + tail).take(head.len() as int) =~= head);
}

/// A description carries the address of the track's page, made of its slug and its identifier;
/// the identifier as a further tag; and a mark exactly if the track is exclusive.
pub proof fn law_description_tells_where_from(t: BeatportTrack, art_resolution: u32)
    ensures
        ({
            let r = track_of(t, art_resolution);
            let id = int_text(t.id as int);
            &&& r.url == "https://www.beatport.com/track/"@ + t.slug@ + "/"@ + id
            &&& r.track_id == Some(id)
            &&& r.release_id == Some(int_text(t.release.id as int))
            &&& r.other.len() == (if t.exclusive {
                2int
            } else {
                1int
            })
            &&& r.other[0].0 == "UNIQUEFILEID"@
            &&& r.other[0].1 == seq!["https://beatport.com|"@ + id]
            &&& t.exclusive ==> r.other[1].0 == "BEATPORT_EXCLUSIVE"@ && r.other[1].1 == seq!["1"@]
        }),
{
}

/// The cover art of a description is that of the release, at the resolution asked for, and its
/// thumbnail is the same image at a resolution of its own. There is neither exactly where the
/// release has the image that stands for missing art.
pub proof fn law_description_has_the_art(t: BeatportTrack, art_resolution: u32)
    ensures
        ({
            let r = track_of(t, art_resolution);
            let uri = t.release.image.dynamic_uri@;
            &&& r.art == art_address(uri, art_resolution)
            &&& r.thumbnail == art_address(uri, 150)
            &&& r.art is None <==> occurs(uri, "ab2d1d04-233d-4b08-8234-9782b34dcab8"@)
            &&& r.thumbnail is None <==> occurs(uri, "ab2d1d04-233d-4b08-8234-9782b34dcab8"@)
        }),
{
}

/// One of the four size placeholders.
pub open spec fn is_placeholder(p: Seq<char>) -> bool {
    p == "{w}"@ || p == "{h}"@ || p == "{x}"@ || p == "{y}"@
}

/// A text without a brace in front of another is left alone when a placeholder is replaced.
proof fn lemma_no_brace(a: Seq<char>, b: Seq<char>, p: Seq<char>, to: Seq<char>)
    requires
        !a.contains('{'),
        is_placeholder(p),
    ensures
        replaced(a + b, p, to) == a + replaced(b, p, to),
{
    reveal_strlit("{w}");
    reveal_strlit("{h}");
    reveal_strlit("{x}");
    reveal_strlit("{y}");
    assert forall|i: int| 0 <= i < a.len() implies !#[trigger] occurs_at(a + b, p, i) by {
        if occurs_at(a + b, p, i) {
            assert((a + b).subrange(i, i + p.len())[0] == p[0]);
            assert(a.contains(a[i]));
        }
    }
    lemma_replaced_after(a, b, p, to);
}

/// Replacing a placeholder leaves another one alone.
proof fn lemma_other_placeholder(p: Seq<char>, y: Seq<char>, q: Seq<char>, to: Seq<char>)
    requires
        is_placeholder(p),
        is_placeholder(q),
        p != q,
    ensures
        replaced(p + y, q, to) == p + replaced(y, q, to),
{
    reveal_strlit("{w}");
    reveal_strlit("{h}");
    reveal_strlit("{x}");
    reveal_strlit("{y}");
    assert("{w}"@[1] == 'w' && "{h}"@[1] == 'h' && "{x}"@[1] == 'x' && "{y}"@[1] == 'y');
    assert(p[1] != q[1]) by {
        if p[1] == q[1] {
            assert(p =~= q);
        }
    }
    assert forall|i: int| 0 <= i < p.len() implies !#[trigger] occurs_at(p + y, q, i) by {
        if occurs_at(p + y, q, i) {
            assert((p + y).subrange(i, i + q.len())[0] == q[0]);
            assert((p + y).subrange(i, i + q.len())[1] == q[1]);
            assert(i == 0 || i == 1 || i == 2);
        }
    }
    lemma_replaced_after(p, y, q, to);
}

/// A placeholder behind a text without a brace is filled in at its step, and passes the others.
proof fn lemma_fill_step(
    a: Seq<char>,
    p: Seq<char>,
    y: Seq<char>,
    q: Seq<char>,
    to: Seq<char>,
)
    requires
        !a.contains('{'),
        !to.contains('{'),
        is_placeholder(p),
        is_placeholder(q),
    ensures
        replaced(a + (p + y), q, to) == (if p == q {
            a + (to + replaced(y, q, to))
        } else {
            a + (p + replaced(y, q, to))
        }),
        replaced(a + (to + y), q, to) == a + (to + replaced(y, q, to)),
{
    reveal_strlit("{w}");
    reveal_strlit("{h}");
    reveal_strlit("{x}");
    reveal_strlit("{y}");
    lemma_no_brace(a, p + y, q, to);
    lemma_no_brace(a, to + y, q, to);
    lemma_no_brace(to, y, q, to);
    if p == q {
        assert((p + y).take(q.len() as int) =~= q);
        assert((p + y).skip(q.len() as int) =~= y);
    } else {
        lemma_other_placeholder(p, y, q, to);
    }
}

/// Every size placeholder of an image address is filled in with the resolution, wherever it
/// stands and however many there are, and nothing else of the address changes: what comes before
/// the first placeholder stays, the placeholder becomes the resolution in decimal digits, and the
/// rest is treated likewise.
pub proof fn law_art_is_filled_in(
    a: Seq<char>,
    p: Seq<char>,
    y: Seq<char>,
    art_resolution: u32,
)
    requires
        !a.contains('{'),
        is_placeholder(p),
        !occurs(a + (p + y), INVALID_ART@),
    ensures
        art_address(y, art_resolution) is Some,
        art_address(a + (p + y), art_resolution) == Some(
            a + (int_text(art_resolution as int) + art_address(y, art_resolution)->0),
        ),
{
    let d = decimal(art_resolution as nat);
    let uri = a + (p + y);
    if occurs(y, INVALID_ART@) {
        let i = choose|i: int| occurs_at(y, INVALID_ART@, i);
        let n = INVALID_ART@.len();
        let at = a.len() + p.len() + i;
        assert(uri.subrange(at, at + n) =~= y.subrange(i, i + n));
        assert(occurs_at(uri, INVALID_ART@, at));
    }
    lemma_decimal(art_resolution as nat);
    assert(!d.contains('{')) by {
        if d.contains('{') {
            let i = choose|i: int| 0 <= i < d.len() && d[i] == '{';
            assert(is_digit(d[i]));
        }
    }
    reveal_strlit("{w}");
    reveal_strlit("{h}");
    reveal_strlit("{x}");
    reveal_strlit("{y}");
    let y1 = replaced(y, "{w}"@, d);
    let y2 = replaced(y1, "{h}"@, d);
    let y3 = replaced(y2, "{x}"@, d);
    lemma_fill_step(a, p, y, "{w}"@, d);
    lemma_fill_step(a, p, y1, "{h}"@, d);
    lemma_fill_step(a, p, y2, "{x}"@, d);
    lemma_fill_step(a, p, y3, "{y}"@, d);
}

/// A key is written short: a major key by its tonic alone, a minor key by its tonic and an `m`.
/// Any other name stays as it is.
pub proof fn law_short_key(tonic: Seq<char>, name: Seq<char>)
    requires
        !tonic.contains(' '),
        !occurs(name, " Major"@),
        !occurs(name, " Minor"@),
    ensures
        short_key(tonic + " Major"@) == tonic,
        short_key(tonic + " Minor"@) == tonic + "m"@,
        short_key(name) == name,
{
    reveal_strlit(" Major");
    reveal_strlit(" Minor");
    reveal_strlit("");
    let major = " Major"@;
    let minor = " Minor"@;
    let none = Seq::<char>::empty();
    assert(""@ =~= none);
    lemma_no_space(tonic, major, major, ""@);
    lemma_no_space(tonic, minor, major, ""@);
    lemma_no_space(tonic, minor, minor, "m"@);
    lemma_no_space(tonic, none, minor, "m"@);
    assert(major.take(6) =~= major && major.skip(6) =~= none);
    assert(minor.take(6) =~= minor && minor.skip(6) =~= none);
    assert(replaced(none, major, ""@) == none && replaced(none, minor, "m"@) == none);
    assert(replaced(major, major, ""@) =~= none);
    assert(replaced(minor, minor, "m"@) =~= "m"@);
    assert(!occurs(minor, major)) by {
        if occurs(minor, major) {
            let i = choose|i: int| occurs_at(minor, major, i);
            assert(minor.subrange(i, i + 6)[2] == major[2]);
            assert(minor[2] == 'i');
        }
    }
    law_replaced_without_occurrence(minor, major, ""@);
    assert(tonic + none =~= tonic);
    law_replaced_without_occurrence(name, major, ""@);
    law_replaced_without_occurrence(name, minor, "m"@);
}

/// A text without a space in front of another is left alone when a pattern that begins with one
/// is replaced.
proof fn lemma_no_space(a: Seq<char>, b: Seq<char>, pat: Seq<char>, to: Seq<char>)
    requires
        !a.contains(' '),
        pat.len() > 0,
        pat[0] == ' ',
    ensures
        replaced(a + b, pat, to) == a + replaced(b, pat, to),
{
    assert forall|i: int| 0 <= i < a.len() implies !#[trigger] occurs_at(a + b, pat, i) by {
        if occurs_at(a + b, pat, i) {
            assert((a + b).subrange(i, i + pat.len())[0] == pat[0]);
            assert(a.contains(a[i]));
        }
    }
    lemma_replaced_after(a, b, pat, to);
}

/// A description has a key exactly if the catalogue gives one, and gives it short.
pub proof fn law_description_has_the_key(t: BeatportTrack, art_resolution: u32, tonic: Seq<char>)
    requires
        !tonic.contains(' '),
    ensures
        ({
            let r = track_of(t, art_resolution);
            match t.key {
                Some(k) => {
                    &&& r.key is Some
                    &&& k.name@ == tonic + " Major"@ ==> r.key == Some(tonic)
                    &&& k.name@ == tonic + " Minor"@ ==> r.key == Some(tonic + "m"@)
                    &&& !occurs(k.name@, " Major"@) && !occurs(k.name@, " Minor"@) ==> r.key
                        == Some(k.name@)
                },
                None => r.key is None,
            }
        }),
{
    reveal_strlit(" Major");
    reveal_strlit(" Minor");
    let none = Seq::<char>::empty();
    law_short_key(tonic, none);
    if let Some(k) = t.key {
        if !occurs(k.name@, " Major"@) && !occurs(k.name@, " Minor"@) {
            law_short_key(tonic, k.name@);
        }
    }
}

/// The tracks of a list are described each for itself, in order.
pub proof fn law_tracks_are_described_in_order(list: Seq<BeatportTrack>, art_resolution: u32)
    ensures
        tracks_of(list, art_resolution).len() == list.len(),
        forall|i: int|
            0 <= i < list.len() ==> #[trigger] tracks_of(list, art_resolution)[i] == track_of(
                list[i],
                art_resolution,
            ),
{
}

/// Of an unknown track nothing is said.
pub proof fn law_nothing_is_known_of_an_unknown_track()
    ensures
        ({
            let r = unknown_track();
            &&& r.platform.len() == 0 && r.title.len() == 0 && r.url.len() == 0
            &&& r.artists.len() == 0 && r.album_artists.len() == 0 && r.remixers.len() == 0
            &&& r.genres.len() == 0 && r.styles.len() == 0 && r.other.len() == 0
            &&& r.version is None && r.album is None && r.key is None && r.bpm is None
            &&& r.art is None && r.thumbnail is None && r.label is None
            &&& r.catalog_number is None && r.track_id is None && r.release_id is None
            &&& r.track_number is None && r.track_total is None && r.isrc is None
            &&& r.release_year is None && r.publish_year is None
            &&& r.release_date is None && r.publish_date is None && r.duration == 0
        }),
{
}

} // verus!
