use beatport::album::{
    make_album, read_album_id, ExtendAction, ExtendEvent, ExtendStage, Extension, InvalidId,
};
use beatport::builder::{OptionValue, SupportedTag};
use beatport::number::parse_i64;
use beatport::session::{TokenAction, TokenEvent, TrackReply};
use beatport::track::{date_from_parts, make_track_address, Date};
use beatport::{
    Beatport, BeatportBuilder, BeatportGeneric, BeatportImage, BeatportRelease, BeatportTrack,
};

fn named(id: i64, name: &str) -> BeatportGeneric {
    BeatportGeneric { id, name: name.to_string() }
}

fn release(id: i64) -> BeatportRelease {
    BeatportRelease {
        id,
        name: "Release".to_string(),
        label: named(3, "Label"),
        image: BeatportImage {
            id: Some(4),
            dynamic_uri: "https://img/{w}x{h}/{x}/{y}.jpg".to_string(),
        },
        upc: None,
        track_count: Some(12),
        artists: Some(vec![named(1, "A"), named(2, "B")]),
    }
}

fn track(id: i64) -> BeatportTrack {
    BeatportTrack {
        artists: vec![named(1, "A"), named(2, "B")],
        bpm: Some(128),
        catalog_number: Some("CAT1".to_string()),
        exclusive: false,
        genre: named(5, "Techno"),
        id,
        image: None,
        isrc: Some("ISRC1".to_string()),
        key: Some(named(6, "A Minor")),
        length_ms: Some(61000),
        mix_name: "Original Mix".to_string(),
        name: "Song".to_string(),
        number: Some(3),
        publish_date: Some("2020-02-30".to_string()),
        release: release(77),
        remixers: vec![named(9, "R")],
        slug: "song".to_string(),
        sub_genre: Some(named(8, "Peak")),
        new_release_date: Some("2021-03-04".to_string()),
    }
}

#[test]
fn art_is_filled_in() {
    assert_eq!(track(1).get_art(500), Some("https://img/500x500/500/500.jpg".to_string()));
    let mut t = track(1);
    t.release.image.dynamic_uri = "https://img/fixed.jpg".to_string();
    assert_eq!(t.get_art(500), Some("https://img/fixed.jpg".to_string()));
}

#[test]
fn missing_art_is_left_out() {
    let mut t = track(1);
    t.release.image.dynamic_uri =
        "https://img/{w}/ab2d1d04-233d-4b08-8234-9782b34dcab8.jpg".to_string();
    assert_eq!(t.get_art(500), None);
    let described = t.to_track(500);
    assert_eq!(described.art, None);
    assert_eq!(described.thumbnail, None);
}

#[test]
fn tracks_are_described() {
    let t = track(1234).to_track(1400);
    assert_eq!(t.platform, "beatport");
    assert_eq!(t.title, "Song");
    assert_eq!(t.version, Some("Original Mix".to_string()));
    assert_eq!(t.artists, vec!["A".to_string(), "B".to_string()]);
    assert!(t.album_artists.is_empty());
    assert_eq!(t.album, Some("Release".to_string()));
    assert_eq!(t.key, Some("Am".to_string()));
    assert_eq!(t.bpm, Some(128));
    assert_eq!(t.genres, vec!["Techno".to_string()]);
    assert_eq!(t.styles, vec!["Peak".to_string()]);
    assert_eq!(t.art, Some("https://img/1400x1400/1400/1400.jpg".to_string()));
    assert_eq!(t.thumbnail, Some("https://img/150x150/150/150.jpg".to_string()));
    assert_eq!(t.url, "https://www.beatport.com/track/song/1234");
    assert_eq!(t.label, Some("Label".to_string()));
    assert_eq!(t.catalog_number, Some("CAT1".to_string()));
    assert_eq!(
        t.other,
        vec![("UNIQUEFILEID".to_string(), vec!["https://beatport.com|1234".to_string()])]
    );
    assert_eq!(t.track_id, Some("1234".to_string()));
    assert_eq!(t.release_id, Some("77".to_string()));
    assert_eq!(t.duration, 61000);
    assert_eq!(t.remixers, vec!["R".to_string()]);
    assert_eq!(t.track_number, Some(3));
    assert_eq!(t.track_total, None);
    assert_eq!(t.isrc, Some("ISRC1".to_string()));
    assert_eq!(t.release_year, Some(2021));
    assert_eq!(t.publish_year, Some(2020));
    assert_eq!(t.release_date, Some(Date { year: 2021, month: 3, day: 4 }));
    assert_eq!(t.publish_date, None);
}

#[test]
fn gaps_in_a_track_stay_gaps() {
    let mut source = track(-5);
    source.key = Some(named(6, "Bb Major"));
    source.sub_genre = None;
    source.length_ms = None;
    source.number = Some(4294967299);
    source.exclusive = true;
    source.new_release_date = Some("20".to_string());
    source.publish_date = Some("soon".to_string());
    let t = source.to_track(500);
    assert_eq!(t.key, Some("Bb".to_string()));
    assert!(t.styles.is_empty());
    assert_eq!(t.duration, 0);
    assert_eq!(t.track_number, Some(3));
    assert_eq!(t.url, "https://www.beatport.com/track/song/-5");
    assert_eq!(t.other.len(), 2);
    assert_eq!(t.other[1], ("BEATPORT_EXCLUSIVE".to_string(), vec!["1".to_string()]));
    assert_eq!(t.release_year, Some(20));
    assert_eq!(t.publish_year, None);
    assert_eq!(t.release_date, None);
    assert_eq!(t.publish_date, None);
}

#[test]
fn dates_are_made_of_their_parts() {
    assert_eq!(date_from_parts(Some((2020, 2, 29))), Some(Date { year: 2020, month: 2, day: 29 }));
    assert_eq!(date_from_parts(None), None);
}

#[test]
fn identifiers_are_read_back() {
    for id in [0, 1, -7, i64::MAX, i64::MIN] {
        let t = track(id).to_track(500);
        assert_eq!(parse_i64(t.track_id.unwrap().as_str()), Some(id));
        assert_eq!(parse_i64(t.release_id.unwrap().as_str()), Some(77));
    }
}

#[test]
fn addresses_tell_tracks_apart() {
    let slugs = ["s", "s/1", "", "s/"];
    for (i, a) in slugs.iter().enumerate() {
        for (j, b) in slugs.iter().enumerate() {
            for x in [1, 11, -1] {
                for y in [1, 11, -1] {
                    let same = make_track_address(a, x) == make_track_address(b, y);
                    assert_eq!(same, i == j && x == y);
                }
            }
        }
    }
}

#[test]
fn test_album() {
    let builder = BeatportBuilder::new();
    let defaults: Vec<OptionValue> =
        builder.info().custom_options.iter().map(|option| option.value).collect();
    let art_resolution = match defaults[0] {
        OptionValue::Number { value, .. } => value as u32,
        OptionValue::Boolean { .. } => unreachable!(),
    };
    let id = read_album_id("2174307").unwrap();
    assert_eq!(
        Beatport::release("t".to_string(), id).url,
        "https://api.beatport.com/v4/catalog/releases/2174307"
    );
    assert_eq!(
        Beatport::release_tracks("t".to_string(), id).url,
        "https://api.beatport.com/v4/catalog/releases/2174307/tracks?per_page=200"
    );
    let album = make_album(id, release(id), vec![track(1), track(2)], art_resolution);
    assert_eq!(album.id, "2174307");
    assert_eq!(album.name, "Release");
    assert_eq!(album.tracks.len(), 2);
    assert_eq!(album.tracks[1].track_id, Some("2".to_string()));
    assert_eq!(album.tracks[0].art, Some("https://img/500x500/500/500.jpg".to_string()));
}

#[test]
fn album_identifiers_are_numbers() {
    assert_eq!(read_album_id(" 12\n"), Ok(12));
    assert_eq!(read_album_id("x"), Err(InvalidId));
    assert_eq!(read_album_id(""), Err(InvalidId));
}

#[test]
fn a_track_in_outline_is_fetched_and_completed() {
    let mut outline = track(1).to_track(500);
    outline.other.clear();
    outline.track_id = Some("42".to_string());
    let start = Extension::new(500, true, false, outline);
    let (waiting, action) = start.extend_track(ExtendEvent::Start);
    assert_eq!(action, ExtendAction::FetchTrack(42));
    let (waiting, action) = waiting.extend_track(ExtendEvent::Track(TrackReply::Found(track(42))));
    assert_eq!(action, ExtendAction::FetchRelease(77));
    let (done, action) = waiting.extend_track(ExtendEvent::Release(Some(release(77))));
    assert_eq!(action, ExtendAction::Finish);
    assert_eq!(done.stage, ExtendStage::Done);
    assert_eq!(done.track.track_id, Some("42".to_string()));
    assert_eq!(done.track.track_total, Some(12));
    assert_eq!(done.track.album_artists, vec!["A".to_string(), "B".to_string()]);
}

#[test]
fn a_full_track_is_not_fetched_again() {
    let start = Extension::new(500, false, true, track(1).to_track(500));
    let (waiting, action) = start.extend_track(ExtendEvent::Start);
    assert_eq!(action, ExtendAction::FetchRelease(77));
    let mut bare = release(77);
    bare.artists = None;
    bare.track_count = None;
    let (done, _) = waiting.extend_track(ExtendEvent::Release(Some(bare)));
    assert_eq!(done.track.track_total, None);
    assert!(done.track.album_artists.is_empty());
}

#[test]
fn an_unwanted_release_is_not_fetched() {
    let start = Extension::new(500, false, false, track(1).to_track(500));
    let (done, action) = start.extend_track(ExtendEvent::Start);
    assert_eq!(action, ExtendAction::Finish);
    assert_eq!(done.track.track_total, None);
}

#[test]
fn empty_replies_change_nothing() {
    let mut outline = track(1).to_track(500);
    outline.other.clear();
    let start = Extension::new(500, true, true, outline);
    let (waiting, action) = start.extend_track(ExtendEvent::Start);
    assert_eq!(action, ExtendAction::FetchTrack(1));
    let (waiting, action) = waiting.extend_track(ExtendEvent::Track(TrackReply::Restricted));
    assert_eq!(action, ExtendAction::FetchRelease(77));
    assert!(waiting.track.other.is_empty());
    let (done, action) = waiting.extend_track(ExtendEvent::Release(None));
    assert_eq!(action, ExtendAction::Finish);
    assert_eq!(done.track.track_total, None);
}

#[test]
fn identifiers_that_are_no_numbers_are_passed_over() {
    let mut outline = track(1).to_track(500);
    outline.other.clear();
    outline.track_id = Some("x".to_string());
    outline.release_id = None;
    let (_, action) = Extension::new(500, true, true, outline).extend_track(ExtendEvent::Start);
    assert_eq!(action, ExtendAction::Finish);
}

#[test]
fn the_platform_describes_itself() {
    let info = BeatportBuilder::new().info();
    assert_eq!(info.id, "beatport");
    assert_eq!(info.name, "Beatport");
    assert_eq!(info.version, "1.0.1");
    assert_eq!(info.description, "Overall more specialized in Techno, can match using ISRC");
    assert_eq!(info.max_threads, 0);
    assert!(!info.requires_auth);
    assert_eq!(info.supported_tags.len(), 23);
    assert_eq!(info.supported_tags[0], SupportedTag::Title);
    assert_eq!(info.supported_tags[22], SupportedTag::TrackNumber);
    assert_eq!(info.custom_options.len(), 3);
    assert_eq!(info.custom_options[0].id, "art_resolution");
    assert_eq!(
        info.custom_options[0].value,
        OptionValue::Number { min: 200, max: 1600, step: 100, value: 500 }
    );
    assert_eq!(info.custom_options[0].tooltip, None);
    assert_eq!(info.custom_options[1].id, "max_pages");
    assert_eq!(
        info.custom_options[1].value,
        OptionValue::Number { min: 1, max: 10, step: 1, value: 1 }
    );
    assert_eq!(info.custom_options[2].value, OptionValue::Boolean { value: false });
}

#[test]
fn sources_share_the_token_that_one_of_them_fetched() {
    let mut builder = BeatportBuilder::new();
    let first = builder.get_source();
    assert!(first.access_token.is_none());
    assert!(matches!(first.update_token(1, TokenEvent::LookedUp { now: 4000 }), TokenAction::Fetch));
    let response = beatport::BeatportOAuth { access_token: "t".to_string(), expires_in: 600 };
    let event = TokenEvent::Fetched { response, received: 5000, now: 5001 };
    assert!(matches!(first.update_token(1, event), TokenAction::Use(text) if text == "t"));

    let second = builder.get_source();
    match second.update_token(1, TokenEvent::LookedUp { now: 594_999 }) {
        TokenAction::Use(text) => assert_eq!(text, "t"),
        other => panic!("{:?}", other),
    }
    let kept = builder.session.access_token.as_ref().unwrap();
    assert_eq!((kept.access_token.as_str(), kept.expires_in), ("t", 595_000));
}

#[test]
fn sources_share_the_loss_of_a_token() {
    let mut builder = BeatportBuilder::new();
    builder.session.access_token =
        Some(beatport::BeatportOAuth { access_token: "t".to_string(), expires_in: 9 });
    assert!(matches!(
        builder.get_source().update_token(1, TokenEvent::LookedUp { now: 9 }),
        TokenAction::Retry
    ));
    assert!(matches!(
        builder.get_source().update_token(2, TokenEvent::LookedUp { now: 9 }),
        TokenAction::Fetch
    ));
}

#[test]
fn a_reply_for_a_track_is_read_by_status_and_body() {
    assert!(matches!(Beatport::track_reply(403, Some(Some(track(7)))), TrackReply::Restricted));
    assert!(matches!(Beatport::track_reply(403, None), TrackReply::Restricted));
    assert!(matches!(
        Beatport::track_reply(200, Some(Some(track(7)))),
        TrackReply::Found(t) if t.id == 7
    ));
    assert!(matches!(Beatport::track_reply(200, Some(None)), TrackReply::Restricted));
    assert!(matches!(Beatport::track_reply(200, None), TrackReply::Failed));
    assert!(matches!(Beatport::track_reply(404, None), TrackReply::Failed));
}
