use beatport::artists::ArtistAgreement;
use beatport::finder::{
    read_tagged_id, BeatportConfig, FileInfo, Finder, MatchAction, MatchEvent, MatchOptions,
    Stage, TrackMatch,
};
use beatport::matching::{find_candidates, rank, restore_versions, take_in, without_versions, ScoredTrack};
use beatport::mix::MixAgreement;
use beatport::session::{SearchReply, TokenAction, TokenEvent, TrackReply};
use beatport::track::Track;
use beatport::{
    Beatport, BeatportGeneric, BeatportImage, BeatportOAuth, BeatportRelease, BeatportTrack,
    BeatportTrackResults,
};

fn named(id: i64, name: &str) -> BeatportGeneric {
    BeatportGeneric { id, name: name.to_string() }
}

fn track(id: i64, name: &str, mix_name: &str) -> BeatportTrack {
    BeatportTrack {
        artists: vec![named(1, "A")],
        bpm: None,
        catalog_number: None,
        exclusive: false,
        genre: named(5, "Techno"),
        id,
        image: None,
        isrc: None,
        key: None,
        length_ms: None,
        mix_name: mix_name.to_string(),
        name: name.to_string(),
        number: None,
        publish_date: None,
        release: BeatportRelease {
            id: 77,
            name: "Release".to_string(),
            label: named(3, "Label"),
            image: BeatportImage { id: None, dynamic_uri: "u".to_string() },
            upc: None,
            track_count: None,
            artists: None,
        },
        remixers: vec![],
        slug: "s".to_string(),
        sub_genre: None,
        new_release_date: None,
    }
}

fn described(id: i64, mix_name: &str) -> Track {
    track(id, "Song", mix_name).to_track(500)
}

fn scored(id: i64, accuracy: u64) -> ScoredTrack {
    ScoredTrack { accuracy, track: described(id, "Original Mix") }
}

fn file() -> FileInfo {
    FileInfo {
        id_tag: vec![],
        isrc: None,
        title: Some("Song feat. X (Club Mix)".to_string()),
        artist: Some("A".to_string()),
        artists: vec!["A".to_string()],
    }
}

fn config(max_pages: i32) -> BeatportConfig {
    BeatportConfig { art_resolution: 500, max_pages, ignore_version: false }
}

fn options(fetch_all_results: bool) -> MatchOptions {
    MatchOptions { fetch_all_results, strictness: 70 }
}

fn results(tracks: Vec<BeatportTrack>) -> MatchEvent {
    MatchEvent::Results(SearchReply::Found(BeatportTrackResults { data: tracks }))
}

fn ids(output: &Vec<TrackMatch>) -> Vec<(String, u64)> {
    output
        .iter()
        .map(|m| match m {
            TrackMatch::Id(t) => (format!("id {}", t.track_id.clone().unwrap()), 0),
            TrackMatch::Isrc(t) => (format!("isrc {}", t.track_id.clone().unwrap()), 0),
            TrackMatch::Similar(s) => (s.track.track_id.clone().unwrap(), s.accuracy),
        })
        .collect()
}

#[test]
fn identifiers_are_read_from_tags() {
    let read = |values: &[&str]| {
        read_tagged_id(&values.iter().map(|s| s.to_string()).collect::<Vec<String>>())
    };
    assert_eq!(read(&[]), None);
    assert_eq!(read(&["12", "13"]), Some(12));
    assert_eq!(read(&[" 12\0 "]), Some(12));
    assert_eq!(read(&["1\u{0}2"]), Some(12));
    assert_eq!(read(&["x", "13"]), None);
}

#[test]
fn a_track_found_by_identifier_ends_the_search() {
    let mut f = file();
    f.id_tag = vec!["9".to_string()];
    let finder = Finder::new(config(1), options(false), f);
    let (finder, action) = finder.match_track(MatchEvent::Start);
    assert!(matches!(action, MatchAction::FetchTrack(9)));
    let (finder, action) =
        finder.match_track(MatchEvent::Track(TrackReply::Found(track(9, "Song", "Dub"))));
    assert!(matches!(action, MatchAction::Finish));
    assert_eq!(finder.stage, Stage::Done);
    assert_eq!(ids(&finder.output), vec![("id 9".to_string(), 0)]);
}

#[test]
fn a_restricted_track_is_passed_over() {
    let mut f = file();
    f.id_tag = vec!["9".to_string()];
    f.isrc = Some("IS1".to_string());
    let finder = Finder::new(config(1), options(false), f);
    let (finder, _) = finder.match_track(MatchEvent::Start);
    let (finder, action) = finder.match_track(MatchEvent::Track(TrackReply::Restricted));
    match action {
        MatchAction::Search { query, page, per_page } => {
            assert_eq!((query.as_str(), page, per_page), ("IS1", 1, 25))
        },
        other => panic!("{:?}", other),
    }
    let (finder, action) = finder.match_track(results(vec![track(4, "Song", "Dub")]));
    assert!(matches!(action, MatchAction::FetchTrack(4)));
    let (finder, action) =
        finder.match_track(MatchEvent::Track(TrackReply::Found(track(4, "Song", "Dub"))));
    assert!(matches!(action, MatchAction::Finish));
    assert_eq!(ids(&finder.output), vec![("isrc 4".to_string(), 0)]);
}

#[test]
fn a_file_without_artist_cannot_be_searched_for() {
    let mut f = file();
    f.artist = None;
    f.isrc = Some("IS1".to_string());
    let finder = Finder::new(config(1), options(false), f);
    let (finder, _) = finder.match_track(MatchEvent::Start);
    let (finder, action) = finder.match_track(results(vec![]));
    assert!(matches!(action, MatchAction::NoArtist));
    assert_eq!(finder.stage, Stage::Done);
}

fn to_first_page(finder: Finder) -> Finder {
    let (finder, action) = finder.match_track(MatchEvent::Start);
    match action {
        MatchAction::CleanTitle(title) => assert_eq!(title, "Song(Club Mix)"),
        other => panic!("{:?}", other),
    }
    let (finder, action) = finder.match_track(MatchEvent::CleanTitle("Song".to_string()));
    match action {
        MatchAction::Search { query, page, per_page } => {
            assert_eq!((query.as_str(), page, per_page), ("A Song", 1, 50))
        },
        other => panic!("{:?}", other),
    }
    finder
}

#[test]
fn a_good_page_ends_the_search() {
    let finder = to_first_page(Finder::new(config(2), options(false), file()));
    let page = vec![
        track(1, "Song", "Radio Edit"),
        track(2, "Song feat. X", "Extended Mix"),
        track(3, "Song", "Club Mix"),
    ];
    let (finder, action) = finder.match_track(results(page));
    match action {
        MatchAction::MatchTracks(tracks) => assert_eq!(tracks.len(), 3),
        other => panic!("{:?}", other),
    }
    let (finder, action) =
        finder.match_track(MatchEvent::Matches(vec![scored(1, 60), scored(3, 71)]));
    match action {
        MatchAction::Score { local_title, candidates } => {
            assert_eq!(local_title, "Song");
            assert_eq!(candidates.len(), 2);
            assert_eq!((candidates[0].index, candidates[0].title.as_str()), (1, "Song"));
            assert_eq!((candidates[1].index, candidates[1].mix), (2, MixAgreement::Full));
        },
        other => panic!("{:?}", other),
    }
    let parts = finder.score_parts(0, true, "song", "song");
    assert_eq!(parts.title, 1.0f64.to_bits());
    assert_eq!(parts.artist, ArtistAgreement::Full);
    assert_eq!(parts.mix, MixAgreement::Full);
    let parts = finder.score_parts(1, false, "kitten", "sitting");
    assert!((f64::from_bits(parts.title) - 0.57142).abs() < 0.00001);
    assert_eq!(parts.artist, ArtistAgreement::Overlap { shared: 1, total: 1 });
    let (finder, action) = finder.match_track(MatchEvent::Scores(vec![80, 75]));
    assert!(matches!(action, MatchAction::Finish));
    assert_eq!(
        ids(&finder.output),
        vec![("2".to_string(), 80), ("3".to_string(), 75), ("1".to_string(), 60)]
    );
}

#[test]
fn a_poor_page_is_followed_by_the_next() {
    let finder = to_first_page(Finder::new(config(2), options(false), file()));
    let (finder, _) = finder.match_track(results(vec![track(1, "Song", "Club Mix")]));
    let (finder, _) = finder.match_track(MatchEvent::Matches(vec![scored(1, 10)]));
    let (finder, action) = finder.match_track(MatchEvent::Scores(vec![69]));
    match action {
        MatchAction::Search { query, page, per_page } => {
            assert_eq!((query.as_str(), page, per_page), ("A Song", 2, 50))
        },
        other => panic!("{:?}", other),
    }
    let (finder, _) = finder.match_track(results(vec![]));
    let (finder, _) = finder.match_track(MatchEvent::Matches(vec![]));
    let (finder, action) = finder.match_track(MatchEvent::Scores(vec![]));
    assert!(matches!(action, MatchAction::Finish));
    assert_eq!(ids(&finder.output), vec![("1".to_string(), 10)]);
}

#[test]
fn all_results_are_gathered() {
    let mut f = file();
    f.id_tag = vec!["9".to_string()];
    f.isrc = Some("IS1".to_string());
    let finder = Finder::new(config(2), options(true), f);
    let (finder, _) = finder.match_track(MatchEvent::Start);
    let (finder, _) =
        finder.match_track(MatchEvent::Track(TrackReply::Found(track(9, "Song", "Dub"))));
    let (finder, _) = finder.match_track(results(vec![track(4, "Song", "Dub")]));
    let (finder, action) =
        finder.match_track(MatchEvent::Track(TrackReply::Found(track(4, "Song", "Dub"))));
    assert!(matches!(action, MatchAction::CleanTitle(_)));
    let (finder, _) = finder.match_track(MatchEvent::CleanTitle("Song".to_string()));
    let (finder, _) = finder.match_track(results(vec![track(1, "Song", "Club Mix")]));
    let (finder, _) = finder.match_track(MatchEvent::Matches(vec![]));
    let (finder, action) = finder.match_track(MatchEvent::Scores(vec![90]));
    assert!(matches!(action, MatchAction::Search { page: 2, .. }));
    let (finder, action) = finder.match_track(MatchEvent::Results(SearchReply::Failed));
    assert!(matches!(action, MatchAction::Finish));
    assert_eq!(
        ids(&finder.output),
        vec![("id 9".to_string(), 0), ("isrc 4".to_string(), 0), ("1".to_string(), 90)]
    );
}

#[test]
fn no_pages_mean_no_search() {
    let finder = Finder::new(config(0), options(false), file());
    let (finder, _) = finder.match_track(MatchEvent::Start);
    let (finder, action) = finder.match_track(MatchEvent::CleanTitle("Song".to_string()));
    assert!(matches!(action, MatchAction::Finish));
    assert!(finder.output.is_empty());
}

#[test]
fn versions_are_ignored_and_come_back() {
    let mut c = config(1);
    c.ignore_version = true;
    let finder = to_first_page(Finder::new(c, options(false), file()));
    let (finder, action) = finder.match_track(results(vec![track(1, "Song", "Radio Edit")]));
    let mut asked = match action {
        MatchAction::MatchTracks(tracks) => tracks,
        other => panic!("{:?}", other),
    };
    assert_eq!(asked[0].version, None);
    let found = ScoredTrack { accuracy: 99, track: asked.remove(0) };
    let (finder, _) = finder.match_track(MatchEvent::Matches(vec![found]));
    assert_eq!(finder.matches[0].track.version, Some("Radio Edit".to_string()));
}

#[test]
fn versions_of_unknown_addresses_stay() {
    let tracks = vec![described(1, "Dub")];
    let other = ScoredTrack { accuracy: 1, track: without_versions(&vec![described(2, "X")]).remove(0) };
    let same = ScoredTrack { accuracy: 2, track: without_versions(&tracks).remove(0) };
    let restored = restore_versions(vec![other, same], &tracks);
    assert_eq!(restored[0].track.version, None);
    assert_eq!(restored[1].track.version, Some("Dub".to_string()));
}

#[test]
fn matches_are_ranked_and_ties_keep_their_order() {
    let order: Vec<(String, u64)> =
        rank(vec![scored(1, 5), scored(2, 9), scored(3, 5), scored(4, 9), scored(5, 1)])
            .iter()
            .map(|s| (s.track.track_id.clone().unwrap(), s.accuracy))
            .collect();
    assert_eq!(
        order,
        vec![
            ("2".to_string(), 9),
            ("4".to_string(), 9),
            ("1".to_string(), 5),
            ("3".to_string(), 5),
            ("5".to_string(), 1),
        ]
    );
}

#[test]
fn taking_in_raises_or_adds() {
    let mut matches = vec![scored(1, 80)];
    take_in(&mut matches, &described(1, "x"), 75, 70);
    assert_eq!((matches.len(), matches[0].accuracy), (1, 80));
    take_in(&mut matches, &described(1, "x"), 85, 70);
    assert_eq!((matches.len(), matches[0].accuracy), (1, 85));
    assert_eq!(matches[0].track.version, Some("Original Mix".to_string()));
    take_in(&mut matches, &described(2, "x"), 69, 70);
    assert_eq!(matches.len(), 1);
    take_in(&mut matches, &described(2, "x"), 70, 70);
    assert_eq!((matches.len(), matches[1].accuracy), (2, 70));
}

#[test]
fn candidates_agree_in_their_mix() {
    let tracks = vec![
        described(1, "Original Mix"),
        described(2, "Live"),
        described(3, "Radio Edit"),
        described(4, "Someone Remix"),
    ];
    let found: Vec<(usize, MixAgreement)> =
        find_candidates(&tracks, "").iter().map(|c| (c.index, c.mix)).collect();
    assert_eq!(found, vec![(0, MixAgreement::Full), (1, MixAgreement::Loose)]);
    let found: Vec<(usize, MixAgreement)> =
        find_candidates(&tracks, "Someone Else's Remix").iter().map(|c| (c.index, c.mix)).collect();
    assert_eq!(found, vec![(3, MixAgreement::Overlap { shared: 1, total: 2 })]);
}

fn token(text: &str, expires_in: u128) -> BeatportOAuth {
    BeatportOAuth { access_token: text.to_string(), expires_in }
}

#[test]
fn a_valid_token_is_used() {
    let mut session = Beatport::new(Some(token("t", 100)));
    match session.update_token(1, TokenEvent::LookedUp { now: 99 }) {
        TokenAction::Use(text) => assert_eq!(text, "t"),
        other => panic!("{:?}", other),
    }
    assert!(session.access_token.is_some());
}

#[test]
fn a_missing_token_is_fetched() {
    let mut session = Beatport::new(None);
    assert!(matches!(
        session.update_token(1, TokenEvent::LookedUp { now: 0 }),
        TokenAction::Fetch
    ));
    let event = TokenEvent::Fetched { response: token("t", 600), received: 5000, now: 5001 };
    assert!(matches!(session.update_token(1, event), TokenAction::Use(_)));
    assert_eq!(session.access_token.as_ref().unwrap().expires_in, 595000);
    assert!(matches!(
        session.update_token(1, TokenEvent::LookedUp { now: 594999 }),
        TokenAction::Use(_)
    ));
}

#[test]
fn an_expired_token_is_dropped_once_and_then_given_up() {
    let mut session = Beatport::new(Some(token("t", 100)));
    assert!(matches!(
        session.update_token(1, TokenEvent::LookedUp { now: 100 }),
        TokenAction::Retry
    ));
    assert!(session.access_token.is_none());
    assert!(matches!(
        session.update_token(2, TokenEvent::LookedUp { now: 100 }),
        TokenAction::Fetch
    ));
    let event = TokenEvent::Fetched { response: token("u", 10), received: 20000, now: 20000 };
    assert!(matches!(session.update_token(2, event), TokenAction::GiveUp));
    assert_eq!(session.access_token.unwrap().access_token, "u");
}

#[test]
fn requests_are_made_out() {
    let request = Beatport::search("tok".to_string(), "A Song (Club Mix)", 2, 50);
    assert_eq!(request.url, "https://api.beatport.com/v4/catalog/search/");
    assert_eq!(request.token, "tok");
    let expected = [("q", "A Song Club Mix"), ("type", "tracks"), ("page", "2"), ("per_page", "50")];
    let expected: Vec<(String, String)> =
        expected.iter().map(|(k, v)| (k.to_string(), v.to_string())).collect();
    assert_eq!(request.query, expected);
    let request = Beatport::track("tok".to_string(), -3);
    assert_eq!(request.url, "https://api.beatport.com/v4/catalog/tracks/-3");
    assert!(request.query.is_empty());
}

#[test]
fn a_failed_request_leaves_no_token() {
    let mut session = Beatport::new(Some(token("t", 100)));
    assert!(matches!(
        session.update_token(1, TokenEvent::LookedUp { now: 100 }),
        TokenAction::Retry
    ));
    assert!(matches!(
        session.update_token(2, TokenEvent::LookedUp { now: 101 }),
        TokenAction::Fetch
    ));
    assert!(matches!(session.update_token(2, TokenEvent::NotFetched), TokenAction::Fail));
    assert!(session.access_token.is_none());
}

#[test]
fn a_call_without_a_token_sends_two_requests_at_most() {
    let mut session = Beatport::new(None);
    let mut requests = 0;
    let mut last = TokenAction::Retry;
    for attempt in 1..=2 {
        if let TokenAction::Retry = last {
            last = session.update_token(attempt, TokenEvent::LookedUp { now: 20000 });
            if let TokenAction::Fetch = last {
                requests += 1;
                let response = token("u", 10);
                let event = TokenEvent::Fetched { response, received: 20000, now: 20000 };
                last = session.update_token(attempt, event);
            }
        }
    }
    assert_eq!(requests, 2);
    assert!(matches!(last, TokenAction::GiveUp));
}

#[test]
fn only_forbidden_is_restricted() {
    assert!(Beatport::is_restricted(403));
    assert!(!Beatport::is_restricted(200));
    assert!(!Beatport::is_restricted(404));
}
