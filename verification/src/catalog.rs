//! What the Beatport catalogue says of tracks and releases.
use vstd::prelude::*;

verus! {

/// An access token and the time, in milliseconds, until which it may be used.
#[derive(Debug, Clone)]
pub struct BeatportOAuth {
    pub access_token: String,
    pub expires_in: u128,
}

/// The tracks of one page of search results.
#[derive(Debug, Clone)]
pub struct BeatportTrackResults {
    pub data: Vec<BeatportTrack>,
}

/// A track of the catalogue.
#[derive(Debug, Clone)]
pub struct BeatportTrack {
    pub artists: Vec<BeatportGeneric>,
    pub bpm: Option<i64>,
    pub catalog_number: Option<String>,
    pub exclusive: bool,
    pub genre: BeatportGeneric,
    pub id: i64,
    pub image: Option<BeatportImage>,
    pub isrc: Option<String>,
    pub key: Option<BeatportGeneric>,
    pub length_ms: Option<u64>,
    pub mix_name: String,
    pub name: String,
    pub number: Option<i64>,
    pub publish_date: Option<String>,
    pub release: BeatportRelease,
    pub remixers: Vec<BeatportGeneric>,
    pub slug: String,
    pub sub_genre: Option<BeatportGeneric>,
    pub new_release_date: Option<String>,
}

/// Anything in the catalogue that has an identifier and a name: an artist, a genre, a key, a
/// label.
#[derive(Debug, Clone)]
pub struct BeatportGeneric {
    pub id: i64,
    pub name: String,
}

/// An image, as an address with placeholders for its size.
#[derive(Debug, Clone)]
pub struct BeatportImage {
    pub id: Option<i64>,
    pub dynamic_uri: String,
}

/// A release of the catalogue.
#[derive(Debug, Clone)]
pub struct BeatportRelease {
    pub id: i64,
    pub name: String,
    pub label: BeatportGeneric,
    pub image: BeatportImage,
    pub upc: Option<String>,
    pub track_count: Option<u16>,
    pub artists: Option<Vec<BeatportGeneric>>,
}

/// The names of a list of catalogue entries, in order.
pub open spec fn names(list: Seq<BeatportGeneric>) -> Seq<Seq<char>> {
    list.map_values(|g: BeatportGeneric| g.name@)
}

/// The names of a list of catalogue entries, in order.
pub fn names_of(list: &Vec<BeatportGeneric>) -> (r: Vec<String>)
    ensures
        r.deep_view() == names(list@),
{
    let mut r: Vec<String> = Vec::new();
    let mut i: usize = 0;
    while i < list.len()
        invariant
            i <= list@.len(),
            r.deep_view() =~= names(list@.take(i as int)),
        decreases list@.len() - i,
    {
        let ghost before = r.deep_view();
        r.push(list[i].name.clone());
        assert(r.deep_view() =~= before.push(list@[i as int].name@));
        assert(names(list@.take(i + 1)) =~= names(list@.take(i as int)).push(
            list@[i as int].name@,
        ));
        i = i + 1;
    }
    assert(list@.take(i as int) =~= list@);
    r
}

/// The names of catalogue entries are those of each of them, in order.
pub proof fn law_names(list: Seq<BeatportGeneric>)
    ensures
        names(list).len() == list.len(),
        forall|i: int| 0 <= i < list.len() ==> #[trigger] names(list)[i] == list[i].name@,
{
}

} // verus!
