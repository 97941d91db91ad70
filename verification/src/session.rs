//! The conversation with the Beatport service: its access token, the requests to send, and what
//! a reply comes to.
use vstd::prelude::*;
use crate::catalog::{BeatportOAuth, BeatportTrack, BeatportTrackResults};
use crate::number::{
    decimal, int_text, int_to_text, int_value, law_int_text_reads_back, nat_to_text,
};
use crate::title::{
    is_plain_word, law_query_words_stay_parted, plain_query, simplify_query, strip_features,
    without_features,
};

verus! {

/// How many milliseconds before its end a token is no longer used.
pub const TOKEN_MARGIN: u128 = 10_000;

/// How often a token may be found expired before the service is given up.
pub const TOKEN_ATTEMPTS: u8 = 2;

/// The HTTP status by which the service withholds a track.
pub const FORBIDDEN: u16 = 403;

/// What came back for a track.
#[derive(Debug)]
pub enum TrackReply {
    Found(BeatportTrack),
    Restricted,
    Failed,
}

/// What came back for a search.
#[derive(Debug)]
pub enum SearchReply {
    Found(BeatportTrackResults),
    Failed,
}

/// The mathematical reading of a token.
#[verifier::ext_equal]
pub struct TokenView {
    pub access_token: Seq<char>,
    pub expires_in: u128,
}

impl View for BeatportOAuth {
    type V = TokenView;

    open spec fn view(&self) -> TokenView {
        TokenView { access_token: self.access_token@, expires_in: self.expires_in }
    }
}

impl DeepView for BeatportOAuth {
    type V = TokenView;

    open spec fn deep_view(&self) -> TokenView {
        self@
    }
}

/// What happened to the token.
#[derive(Debug)]
pub enum TokenEvent {
    /// The token was looked up, at the time `now`.
    LookedUp { now: u128 },
    /// A new token came at the time `received`; it is looked at, at the time `now`.
    Fetched { response: BeatportOAuth, received: u128, now: u128 },
    /// No new token could be fetched.
    NotFetched,
}

/// The mathematical reading of a [`TokenEvent`].
pub enum TokenEventView {
    LookedUp { now: u128 },
    Fetched { response: TokenView, received: u128, now: u128 },
    NotFetched,
}

impl View for TokenEvent {
    type V = TokenEventView;

    open spec fn view(&self) -> TokenEventView {
        match self {
            TokenEvent::LookedUp { now } => TokenEventView::LookedUp { now: *now },
            TokenEvent::Fetched { response, received, now } => TokenEventView::Fetched {
                response: response@,
                received: *received,
                now: *now,
            },
            TokenEvent::NotFetched => TokenEventView::NotFetched,
        }
    }
}

/// What to do about the token.
#[derive(Debug)]
pub enum TokenAction {
    /// Fetch a new one.
    Fetch,
    /// Use this one.
    Use(String),
    /// Try once more.
    Retry,
    /// Report that the service keeps giving out expired tokens.
    GiveUp,
    /// Report why no token could be fetched.
    Fail,
}

/// The mathematical reading of a [`TokenAction`].
pub enum TokenActionView {
    Fetch,
    Use(Seq<char>),
    Retry,
    GiveUp,
    Fail,
}

impl View for TokenAction {
    type V = TokenActionView;

    open spec fn view(&self) -> TokenActionView {
        match self {
            TokenAction::Fetch => TokenActionView::Fetch,
            TokenAction::Use(s) => TokenActionView::Use(s@),
            TokenAction::Retry => TokenActionView::Retry,
            TokenAction::GiveUp => TokenActionView::GiveUp,
            TokenAction::Fail => TokenActionView::Fail,
        }
    }
}

/// The time, in milliseconds, until which a token may be used that came at the time `received`
/// and lives for `lifetime` seconds.
pub open spec fn expiry(lifetime: u128, received: u128) -> int {
    lifetime * 1000 + received - TOKEN_MARGIN
}

/// That time can be written down.
pub open spec fn has_expiry(lifetime: u128, received: u128) -> bool {
    &&& lifetime * 1000 + received <= u128::MAX
    &&& lifetime * 1000 + received >= TOKEN_MARGIN
}

/// A token that came at the time `received`, with the time until which it may be used.
pub open spec fn dated(response: TokenView, received: u128) -> TokenView {
    TokenView { expires_in: expiry(response.expires_in, received) as u128, ..response }
}

/// What to keep of a token and what to do with it at the time `now`: use it while it is valid;
/// else drop it and try again, or keep it and give up at the last attempt.
pub open spec fn judged(token: TokenView, attempt: u8, now: u128) -> (
    Option<TokenView>,
    TokenActionView,
) {
    if token.expires_in > now {
        (Some(token), TokenActionView::Use(token.access_token))
    } else if attempt >= TOKEN_ATTEMPTS {
        (Some(token), TokenActionView::GiveUp)
    } else {
        (None, TokenActionView::Retry)
    }
}

/// The token that is kept and what to do, given the one that was kept and what happened.
pub open spec fn token_next(slot: Option<TokenView>, attempt: u8, event: TokenEventView) -> (
    Option<TokenView>,
    TokenActionView,
) {
    match event {
        TokenEventView::LookedUp { now } => match slot {
            Some(token) => judged(token, attempt, now),
            None => (None, TokenActionView::Fetch),
        },
        TokenEventView::Fetched { response, received, now } => judged(
            dated(response, received),
            attempt,
            now,
        ),
        TokenEventView::NotFetched => (slot, TokenActionView::Fail),
    }
}

/// A request to the service, to be sent with a token.
#[derive(Debug)]
pub struct ApiRequest {
    pub url: String,
    pub token: String,
    pub query: Vec<(String, String)>,
}

/// The mathematical reading of an [`ApiRequest`].
#[verifier::ext_equal]
pub struct RequestView {
    pub url: Seq<char>,
    pub token: Seq<char>,
    pub query: Seq<(Seq<char>, Seq<char>)>,
}

impl View for ApiRequest {
    type V = RequestView;

    open spec fn view(&self) -> RequestView {
        RequestView { url: self.url@, token: self.token@, query: self.query.deep_view() }
    }
}

/// A search query as the service is asked: without featured-artist notes, brackets and commas.
pub open spec fn cleared_query(query: Seq<char>) -> Seq<char> {
    plain_query(without_features(query))
}

/// The request for a page of search results.
pub open spec fn search_request(
    token: Seq<char>,
    query: Seq<char>,
    page: int,
    results_per_page: nat,
) -> RequestView {
    RequestView {
        url: "https://api.beatport.com/v4/catalog/search/"@,
        token,
        query: seq![
            ("q"@, cleared_query(query)),
            ("type"@, "tracks"@),
            ("page"@, int_text(page)),
            ("per_page"@, decimal(results_per_page)),
        ],
    }
}

/// What a reply to the request for a track comes to: withheld where the status says so, whatever
/// the body, or where the body is a null; found where it is a track; failed where it is neither.
pub open spec fn track_outcome(status: u16, decoded: Option<Option<BeatportTrack>>) -> TrackReply {
    if status == FORBIDDEN {
        TrackReply::Restricted
    } else {
        match decoded {
            Some(Some(track)) => TrackReply::Found(track),
            Some(None) => TrackReply::Restricted,
            None => TrackReply::Failed,
        }
    }
}

/// A conversation with the service.
#[derive(Debug)]
pub struct Beatport {
    /// The token that is kept for the next request.
    pub access_token: Option<BeatportOAuth>,
}

impl Beatport {
    /// A conversation that starts with a token, or without one.
    pub fn new(access_token: Option<BeatportOAuth>) -> (r: Beatport)
        ensures
            r.access_token == access_token,
    {
        Beatport { access_token }
    }

    /// Judges a token at the time `now`.
    fn judge(&mut self, token: BeatportOAuth, attempt: u8, now: u128) -> (r: TokenAction)
        ensures
            (final(self).access_token.deep_view(), r@) == judged(token@, attempt, now),
    {
        if token.expires_in > now {
            let text = token.access_token.clone();
            self.access_token = Some(token);
            TokenAction::Use(text)
        } else if attempt >= TOKEN_ATTEMPTS {
            self.access_token = Some(token);
            TokenAction::GiveUp
        } else {
            self.access_token = None;
            TokenAction::Retry
        }
    }

    /// Takes what happened to the token at the given attempt, counted from one, and says what to
    /// do about it.
    pub fn update_token(&mut self, attempt: u8, event: TokenEvent) -> (r: TokenAction)
        requires
            event matches TokenEvent::Fetched { response, received, .. } ==> has_expiry(
                response.expires_in,
                received,
            ),
        ensures
            (final(self).access_token.deep_view(), r@) == token_next(
                old(self).access_token.deep_view(),
                attempt,
                event@,
            ),
    {
        match event {
            TokenEvent::LookedUp { now } => {
                match self.access_token.take() {
                    Some(token) => self.judge(token, attempt, now),
                    None => TokenAction::Fetch,
                }
            },
            TokenEvent::Fetched { response, received, now } => {
                let expires_in = response.expires_in * 1000 + received - TOKEN_MARGIN;
                let token = BeatportOAuth { access_token: response.access_token, expires_in };
                self.judge(token, attempt, now)
            },
            TokenEvent::NotFetched => TokenAction::Fail,
        }
    }

    /// A search query as the service is asked.
    pub fn clear_search_query(query: &str) -> (r: String)
        ensures
            r@ == cleared_query(query@),
    {
        simplify_query(strip_features(query).as_str())
    }

    /// The request for a page of search results.
    pub fn search(token: String, query: &str, page: i32, results_per_page: usize) -> (r: ApiRequest)
        ensures
            r@ == search_request(token@, query@, page as int, results_per_page as nat),
    {
        let mut list: Vec<(String, String)> = Vec::new();
        list.push(("q".to_string(), Beatport::clear_search_query(query)));
        list.push(("type".to_string(), "tracks".to_string()));
        list.push(("page".to_string(), int_to_text(page as i64)));
        list.push(("per_page".to_string(), nat_to_text(results_per_page as u128)));
        let r = ApiRequest {
            url: "https://api.beatport.com/v4/catalog/search/".to_string(),
            token,
            query: list,
        };
        assert(r@ =~~= search_request(token@, query@, page as int, results_per_page as nat));
        r
    }

    /// The request for a track.
    pub fn track(token: String, id: i64) -> (r: ApiRequest)
        ensures
            r@.url == "https://api.beatport.com/v4/catalog/tracks/"@ + int_text(id as int),
            r@.token == token@,
            r@.query.len() == 0,
    {
        let mut url = "https://api.beatport.com/v4/catalog/tracks/".to_string();
        url.append(int_to_text(id).as_str());
        ApiRequest { url, token, query: Vec::new() }
    }

    /// The request for a release.
    pub fn release(token: String, id: i64) -> (r: ApiRequest)
        ensures
            r@.url == "https://api.beatport.com/v4/catalog/releases/"@ + int_text(id as int),
            r@.token == token@,
            r@.query.len() == 0,
    {
        let mut url = "https://api.beatport.com/v4/catalog/releases/".to_string();
        url.append(int_to_text(id).as_str());
        ApiRequest { url, token, query: Vec::new() }
    }

    /// The request for the tracks of a release, up to two hundred of them.
    pub fn release_tracks(token: String, id: i64) -> (r: ApiRequest)
        ensures
            r@.url == "https://api.beatport.com/v4/catalog/releases/"@ + int_text(id as int)
                + "/tracks?per_page=200"@,
            r@.token == token@,
            r@.query.len() == 0,
    {
        let mut url = "https://api.beatport.com/v4/catalog/releases/".to_string();
        url.append(int_to_text(id).as_str());
        url.append("/tracks?per_page=200");
        ApiRequest { url, token, query: Vec::new() }
    }

    /// Whether a reply with the given HTTP status withholds a track.
    pub fn is_restricted(status: u16) -> (r: bool)
        ensures
            r == (status == FORBIDDEN),
    {
        status == FORBIDDEN
    }

    /// What a reply to the request for a track comes to, given its HTTP status and what its body
    /// was decoded to: nothing where it could not be decoded, else a track or a null.
    pub fn track_reply(status: u16, decoded: Option<Option<BeatportTrack>>) -> (r: TrackReply)
        ensures
            r == track_outcome(status, decoded),
    {
        if Beatport::is_restricted(status) {
            return TrackReply::Restricted;
        }
        match decoded {
            Some(Some(track)) => TrackReply::Found(track),
            Some(None) => TrackReply::Restricted,
            None => TrackReply::Failed,
        }
    }
}

/// A token is used only while it is valid, and is the one that is kept.
pub proof fn law_used_token_is_valid(slot: Option<TokenView>, attempt: u8, event: TokenEventView)
    ensures
        ({
            let (kept, action) = token_next(slot, attempt, event);
            action matches TokenActionView::Use(text) ==> {
                &&& kept matches Some(token)
                &&& token.access_token == text
                &&& match event {
                    TokenEventView::LookedUp { now } => token.expires_in > now,
                    TokenEventView::Fetched { now, .. } => token.expires_in > now,
                    TokenEventView::NotFetched => false,
                }
            }
        }),
{
}

/// A token that was used is used again, without a new one being fetched, until it expires.
pub proof fn law_token_is_used_again(
    slot: Option<TokenView>,
    attempt: u8,
    event: TokenEventView,
    later_attempt: u8,
    later: u128,
)
    requires
        token_next(slot, attempt, event).1 is Use,
        token_next(slot, attempt, event).0->0.expires_in > later,
    ensures
        token_next(
            token_next(slot, attempt, event).0,
            later_attempt,
            TokenEventView::LookedUp { now: later },
        ) == token_next(slot, attempt, event),
{
}

/// The last attempt is never followed by another.
pub proof fn law_attempts_are_bounded(
    slot: Option<TokenView>,
    attempt: u8,
    event: TokenEventView,
)
    requires
        attempt >= TOKEN_ATTEMPTS,
    ensures
        !(token_next(slot, attempt, event).1 is Retry),
{
}

/// A new token is asked for only where none is kept, and one that was fetched, or was not, ends
/// the attempt: one attempt fetches at most once.
pub proof fn law_one_fetch_per_attempt(
    slot: Option<TokenView>,
    attempt: u8,
    event: TokenEventView,
)
    ensures
        token_next(slot, attempt, event).1 is Fetch <==> event is LookedUp && slot is None,
{
}

/// A failed attempt that is to be repeated leaves no token behind, so that a new one is fetched.
pub proof fn law_retry_fetches(
    slot: Option<TokenView>,
    attempt: u8,
    event: TokenEventView,
    next_attempt: u8,
    now: u128,
)
    requires
        token_next(slot, attempt, event).1 is Retry,
    ensures
        token_next(
            token_next(slot, attempt, event).0,
            next_attempt,
            TokenEventView::LookedUp { now },
        ).1 is Fetch,
{
}

/// A fetched token is used exactly if less time has passed since it came than its lifetime less
/// the margin.
pub proof fn law_fetched_token(
    slot: Option<TokenView>,
    attempt: u8,
    response: TokenView,
    received: u128,
    now: u128,
)
    requires
        has_expiry(response.expires_in, received),
    ensures
        token_next(slot, attempt, TokenEventView::Fetched { response, received, now }).1 is Use
            <==> now - received < response.expires_in * 1000 - TOKEN_MARGIN,
{
}

/// What an attempt meets: the token is looked up at the time `looked`; where a new one is asked
/// for, `reply` is what comes, nothing where the request fails, at the time `received`, to be
/// looked at, at the time `now`.
pub struct AttemptView {
    pub looked: u128,
    pub reply: Option<TokenView>,
    pub received: u128,
    pub now: u128,
}

/// An attempt sends a request: it finds no token.
pub open spec fn sends_request(slot: Option<TokenView>, attempt: u8, met: AttemptView) -> bool {
    token_next(slot, attempt, TokenEventView::LookedUp { now: met.looked }).1 is Fetch
}

/// One attempt as a whole: the token that it keeps and what it comes to.
pub open spec fn attempt_outcome(slot: Option<TokenView>, attempt: u8, met: AttemptView) -> (
    Option<TokenView>,
    TokenActionView,
) {
    let (kept, action) = token_next(slot, attempt, TokenEventView::LookedUp { now: met.looked });
    if action is Fetch {
        match met.reply {
            Some(response) => token_next(
                kept,
                attempt,
                TokenEventView::Fetched { response, received: met.received, now: met.now },
            ),
            None => token_next(kept, attempt, TokenEventView::NotFetched),
        }
    } else {
        (kept, action)
    }
}

/// What a whole call for a token comes to.
pub struct CallView {
    /// The token that is kept.
    pub kept: Option<TokenView>,
    pub action: TokenActionView,
    /// The number of requests sent.
    pub requests: nat,
}

/// A whole call for a token: an attempt, and a second one where the first asks for it. `between`
/// is the token that the second attempt finds: what the first left, or what another call on the
/// same session put there since.
pub open spec fn token_call(
    slot: Option<TokenView>,
    first: AttemptView,
    between: Option<TokenView>,
    second: AttemptView,
) -> CallView {
    let sent = if sends_request(slot, 1, first) {
        1nat
    } else {
        0nat
    };
    let (kept, action) = attempt_outcome(slot, 1, first);
    if action is Retry {
        let sent_again = if sends_request(between, 2, second) {
            1nat
        } else {
            0nat
        };
        let (kept, action) = attempt_outcome(between, 2, second);
        CallView { kept, action, requests: sent + sent_again }
    } else {
        CallView { kept, action, requests: sent }
    }
}

/// A whole call always decides: it uses a token, gives the service up, or reports a failed
/// request. It sends at most two requests where no token is kept, at most one where an expired
/// one is, and none where a valid one is, which is then used and kept.
pub proof fn law_call_sends_few_requests(
    slot: Option<TokenView>,
    first: AttemptView,
    between: Option<TokenView>,
    second: AttemptView,
)
    ensures
        ({
            let call = token_call(slot, first, between, second);
            &&& call.action is Use || call.action is GiveUp || call.action is Fail
            &&& match slot {
                None => call.requests <= 2,
                Some(token) => if token.expires_in > first.looked {
                    &&& call.requests == 0
                    &&& call.action == TokenActionView::Use(token.access_token)
                    &&& call.kept == slot
                } else {
                    call.requests <= 1
                },
            }
        }),
{
}

/// A failed request ends a call with no token kept, and nothing else makes a call report one: a
/// call fails exactly if its first attempt, or the second where there is one, finds no token and
/// gets no reply.
pub proof fn law_failed_request_ends_call(
    slot: Option<TokenView>,
    first: AttemptView,
    between: Option<TokenView>,
    second: AttemptView,
)
    ensures
        ({
            let call = token_call(slot, first, between, second);
            let retried = attempt_outcome(slot, 1, first).1 is Retry;
            &&& call.action is Fail ==> call.kept is None
            &&& call.action is Fail <==> {
                ||| slot is None && first.reply is None
                ||| retried && between is None && second.reply is None
            }
        }),
{
}

/// A call gives the service up only at its second attempt, with a token at hand that is expired
/// then.
pub proof fn law_giving_up_takes_two_attempts(
    slot: Option<TokenView>,
    first: AttemptView,
    between: Option<TokenView>,
    second: AttemptView,
)
    requires
        token_call(slot, first, between, second).action is GiveUp,
    ensures
        attempt_outcome(slot, 1, first).1 is Retry,
        token_call(slot, first, between, second).kept matches Some(token) && token.expires_in <= (
        if between is Some {
            second.looked
        } else {
            second.now
        }),
{
}

/// A token that is kept is used while it has not expired. One that has is dropped at the first
/// attempt, to be fetched anew, and at the second it is kept and the service given up.
pub proof fn law_kept_token(token: TokenView, now: u128)
    ensures
        ({
            let event = TokenEventView::LookedUp { now };
            let valid = token.expires_in > now;
            &&& token_next(Some(token), 1, event) == (if valid {
                (Some(token), TokenActionView::Use(token.access_token))
            } else {
                (None, TokenActionView::Retry)
            })
            &&& token_next(Some(token), 2, event) == (if valid {
                (Some(token), TokenActionView::Use(token.access_token))
            } else {
                (Some(token), TokenActionView::GiveUp)
            })
        }),
{
}

/// A token that was fetched is kept with the time at which it expires: its lifetime in seconds
/// after it came, less ten seconds. It is used until then, and treated like any expired one after.
pub proof fn law_fetched_token_expires(
    slot: Option<TokenView>,
    response: TokenView,
    received: u128,
    now: u128,
)
    requires
        10_000 <= response.expires_in * 1000 + received <= u128::MAX,
    ensures
        ({
            let event = TokenEventView::Fetched { response, received, now };
            let end = response.expires_in * 1000 + received - 10_000;
            let token = TokenView { access_token: response.access_token, expires_in: end as u128 };
            let (kept, action) = token_next(slot, 1, event);
            let (kept_again, last) = token_next(slot, 2, event);
            &&& now < end ==> kept == Some(token) && kept_again == Some(token)
            &&& now < end ==> action == TokenActionView::Use(response.access_token)
            &&& now < end ==> last == TokenActionView::Use(response.access_token)
            &&& now >= end ==> kept is None && kept_again == Some(token)
            &&& now >= end ==> action is Retry && last is GiveUp
        }),
{
}

/// A failed fetch is reported, and nothing of what is kept changes.
pub proof fn law_failed_fetch_is_reported(slot: Option<TokenView>, attempt: u8)
    ensures
        token_next(slot, attempt, TokenEventView::NotFetched) == (slot, TokenActionView::Fail),
{
}

/// A search is asked for by the cleared query, among tracks, by page and by number of results; the
/// numbers are written so that they read back.
pub proof fn law_search_request(
    token: Seq<char>,
    query: Seq<char>,
    page: i32,
    results_per_page: usize,
)
    ensures
        ({
            let r = search_request(token, query, page as int, results_per_page as nat);
            &&& r.url == "https://api.beatport.com/v4/catalog/search/"@
            &&& r.token == token
            &&& r.query.len() == 4
            &&& r.query[0] == ("q"@, plain_query(without_features(query)))
            &&& r.query[1] == ("type"@, "tracks"@)
            &&& r.query[2].0 == "page"@ && int_value(r.query[2].1) == Some(page as int)
            &&& r.query[2].1 == int_text(page as int)
            &&& r.query[3].0 == "per_page"@ && int_value(r.query[3].1) == Some(
                results_per_page as int,
            )
            &&& r.query[3].1 == int_text(results_per_page as int)
        }),
{
    law_int_text_reads_back(page as int);
    law_int_text_reads_back(results_per_page as int);
}

/// A query is cleared of featured-artist notes first, and of brackets, commas and the short
/// featured-artist words then. Two words that are left with a bracket between them stay two words.
pub proof fn law_cleared_query(query: Seq<char>, a: Seq<char>, b: Seq<char>)
    requires
        is_plain_word(a),
        is_plain_word(b),
    ensures
        cleared_query(query) == plain_query(without_features(query)),
        without_features(query) == a + "("@ + b ==> cleared_query(query) == a + " "@ + b,
        without_features(query) == a + ")"@ + b ==> cleared_query(query) == a + " "@ + b,
        without_features(query) == a + "["@ + b ==> cleared_query(query) == a + " "@ + b,
        without_features(query) == a + "]"@ + b ==> cleared_query(query) == a + " "@ + b,
        without_features(query) == a + ","@ + b ==> cleared_query(query) == a + " "@ + b,
{
    law_query_words_stay_parted(a, b);
}

/// A track is withheld where the reply says it is forbidden, whatever its body, or where its body
/// is a null. Any other reply is the track that its body is, or has failed where it is none.
pub proof fn law_track_reply(status: u16, track: BeatportTrack)
    ensures
        track_outcome(403, None) is Restricted,
        track_outcome(403, Some(None)) is Restricted,
        track_outcome(403, Some(Some(track))) is Restricted,
        track_outcome(status, Some(None)) is Restricted,
        status != 403 ==> track_outcome(status, None) is Failed,
        status != 403 ==> track_outcome(status, Some(Some(track))) == TrackReply::Found(track),
{
}

/// What is read of a token, of what happens to it, and of a request is what they hold.
pub proof fn law_session_reading(
    token: BeatportOAuth,
    event: TokenEvent,
    action: TokenAction,
    request: ApiRequest,
)
    ensures
        token@.access_token == token.access_token@,
        token@.expires_in == token.expires_in,
        token.deep_view() == token@,
        match event {
            TokenEvent::LookedUp { now } => event@ == (TokenEventView::LookedUp { now }),
            TokenEvent::Fetched { response, received, now } => event@ == (TokenEventView::Fetched {
                response: response@,
                received,
                now,
            }),
            TokenEvent::NotFetched => event@ == TokenEventView::NotFetched,
        },
        match action {
            TokenAction::Fetch => action@ == TokenActionView::Fetch,
            TokenAction::Use(text) => action@ == TokenActionView::Use(text@),
            TokenAction::Retry => action@ == TokenActionView::Retry,
            TokenAction::GiveUp => action@ == TokenActionView::GiveUp,
            TokenAction::Fail => action@ == TokenActionView::Fail,
        },
        request@.url == request.url@,
        request@.token == request.token@,
        request@.query == request.query.deep_view(),
{
}

/// A token has an expiry exactly if the time of it, ten seconds early, is no time before the
/// beginning and not out of range.
pub proof fn law_expiry_in_range(lifetime: u128, received: u128)
    ensures
        has_expiry(lifetime, received) <==> 10_000 <= lifetime * 1000 + received <= u128::MAX,
        expiry(lifetime, received) == lifetime * 1000 + received - 10_000,
{
}

} // verus!
