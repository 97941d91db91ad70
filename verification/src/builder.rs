//! What the platform says of itself, and how a conversation with it is begun.
use vstd::prelude::*;
use crate::session::{token_next, Beatport, TokenActionView, TokenEventView, TokenView};

verus! {

/// A tag that the platform can fill in.
#[derive(Debug, Clone, Copy, PartialEq, Eq, Structural)]
pub enum SupportedTag {
    Title,
    Version,
    Artist,
    AlbumArtist,
    Album,
    BPM,
    Genre,
    Style,
    Label,
    URL,
    ReleaseDate,
    PublishDate,
    Key,
    AlbumArt,
    OtherTags,
    TrackId,
    ReleaseId,
    Duration,
    Remixer,
    CatalogNumber,
    TrackTotal,
    ISRC,
    TrackNumber,
}

/// The value of an option, and what values it may take.
#[allow(inconsistent_fields)]
#[derive(Debug, Clone, Copy, PartialEq, Eq, Structural)]
pub enum OptionValue {
    Number { min: i32, max: i32, step: i32, value: i32 },
    Boolean { value: bool },
}

/// An option of the platform.
#[derive(Debug)]
pub struct CustomOption {
    pub id: String,
    pub label: String,
    pub tooltip: Option<String>,
    pub value: OptionValue,
}

/// The mathematical reading of a [`CustomOption`].
#[verifier::ext_equal]
pub struct OptionView {
    pub id: Seq<char>,
    pub label: Seq<char>,
    pub tooltip: Option<Seq<char>>,
    pub value: OptionValue,
}

impl View for CustomOption {
    type V = OptionView;

    open spec fn view(&self) -> OptionView {
        OptionView {
            id: self.id@,
            label: self.label@,
            tooltip: self.tooltip.deep_view(),
            value: self.value,
        }
    }
}

impl DeepView for CustomOption {
    type V = OptionView;

    open spec fn deep_view(&self) -> OptionView {
        self@
    }
}

/// What the platform says of itself.
#[derive(Debug)]
pub struct PlatformInfo {
    pub id: String,
    pub name: String,
    pub description: String,
    pub version: String,
    pub max_threads: u16,
    pub requires_auth: bool,
    pub supported_tags: Vec<SupportedTag>,
    pub custom_options: Vec<CustomOption>,
}

/// The tags that the platform can fill in.
pub open spec fn platform_tags() -> Seq<SupportedTag> {
    seq![
        SupportedTag::Title,
        SupportedTag::Version,
        SupportedTag::Artist,
        SupportedTag::AlbumArtist,
        SupportedTag::Album,
        SupportedTag::BPM,
        SupportedTag::Genre,
        SupportedTag::Style,
        SupportedTag::Label,
        SupportedTag::URL,
        SupportedTag::ReleaseDate,
        SupportedTag::PublishDate,
        SupportedTag::Key,
        SupportedTag::AlbumArt,
        SupportedTag::OtherTags,
        SupportedTag::TrackId,
        SupportedTag::ReleaseId,
        SupportedTag::Duration,
        SupportedTag::Remixer,
        SupportedTag::CatalogNumber,
        SupportedTag::TrackTotal,
        SupportedTag::ISRC,
        SupportedTag::TrackNumber,
    ]
}

/// The options of the platform.
pub open spec fn platform_options() -> Seq<OptionView> {
    seq![
        OptionView {
            id: "art_resolution"@,
            label: "Album art resolution"@,
            tooltip: None,
            value: OptionValue::Number { min: 200, max: 1600, step: 100, value: 500 },
        },
        OptionView {
            id: "max_pages"@,
            label: "Max pages"@,
            tooltip: Some("How many pages of search results to scan for tracks"@),
            value: OptionValue::Number { min: 1, max: 10, step: 1, value: 1 },
        },
        OptionView {
            id: "ignore_version"@,
            label: "Ignore version when matching"@,
            tooltip: Some("Ignores (Extended Mix), (Original Mix) and such"@),
            value: OptionValue::Boolean { value: false },
        },
    ]
}

/// Begins conversations with the platform. There is one session, and every source is that
/// session.
#[derive(Debug)]
pub struct BeatportBuilder {
    pub session: Beatport,
}

impl BeatportBuilder {
    /// The token that the sources share.
    pub open spec fn token(self) -> Option<TokenView> {
        self.session.access_token.deep_view()
    }

    /// A builder without a token.
    pub fn new() -> (r: BeatportBuilder)
        ensures
            r.session.access_token is None,
    {
        BeatportBuilder { session: Beatport::new(None) }
    }

    /// A source: the builder's session itself. It begins as the session stands, and what is done
    /// to it is done to the session.
    pub fn get_source(&mut self) -> (r: &mut Beatport)
        ensures
            *r == old(self).session,
            final(self).session == *final(r),
    {
        &mut self.session
    }

    /// What the platform says of itself.
    pub fn info(&self) -> (r: PlatformInfo)
        ensures
            r.id@ == "beatport"@,
            r.name@ == "Beatport"@,
            r.description@ == "Overall more specialized in Techno, can match using ISRC"@,
            r.version@ == "1.0.1"@,
            r.max_threads == 0,
            !r.requires_auth,
            r.supported_tags@ == platform_tags(),
            r.custom_options.deep_view() == platform_options(),
    {
        let mut tags: Vec<SupportedTag> = Vec::new();
        tags.push(SupportedTag::Title);
        tags.push(SupportedTag::Version);
        tags.push(SupportedTag::Artist);
        tags.push(SupportedTag::AlbumArtist);
        tags.push(SupportedTag::Album);
        tags.push(SupportedTag::BPM);
        tags.push(SupportedTag::Genre);
        tags.push(SupportedTag::Style);
        tags.push(SupportedTag::Label);
        tags.push(SupportedTag::URL);
        tags.push(SupportedTag::ReleaseDate);
        tags.push(SupportedTag::PublishDate);
        tags.push(SupportedTag::Key);
        tags.push(SupportedTag::AlbumArt);
        tags.push(SupportedTag::OtherTags);
        tags.push(SupportedTag::TrackId);
        tags.push(SupportedTag::ReleaseId);
        tags.push(SupportedTag::Duration);
        tags.push(SupportedTag::Remixer);
        tags.push(SupportedTag::CatalogNumber);
        tags.push(SupportedTag::TrackTotal);
        tags.push(SupportedTag::ISRC);
        tags.push(SupportedTag::TrackNumber);
        assert(tags@ =~= platform_tags());
        let mut options: Vec<CustomOption> = Vec::new();
        options.push(
            CustomOption {
                id: "art_resolution".to_string(),
                label: "Album art resolution".to_string(),
                tooltip: None,
                value: OptionValue::Number { min: 200, max: 1600, step: 100, value: 500 },
            },
        );
        options.push(
            CustomOption {
                id: "max_pages".to_string(),
                label: "Max pages".to_string(),
                tooltip: Some("How many pages of search results to scan for tracks".to_string()),
                value: OptionValue::Number { min: 1, max: 10, step: 1, value: 1 },
            },
        );
        options.push(
            CustomOption {
                id: "ignore_version".to_string(),
                label: "Ignore version when matching".to_string(),
                tooltip: Some("Ignores (Extended Mix), (Original Mix) and such".to_string()),
                value: OptionValue::Boolean { value: false },
            },
        );
        assert(options.deep_view() =~~= platform_options());
        PlatformInfo {
            id: "beatport".to_string(),
            name: "Beatport".to_string(),
            description: "Overall more specialized in Techno, can match using ISRC".to_string(),
            version: "1.0.1".to_string(),
            max_threads: 0,
            requires_auth: false,
            supported_tags: tags,
            custom_options: options,
        }
    }
}

/// Sources of one builder share one token: after a step on one source that uses a token, the next
/// source uses it too, without a new one being fetched, until it expires, and keeps it.
pub proof fn law_sources_share_token(
    before: BeatportBuilder,
    attempt: u8,
    event: TokenEventView,
    after: BeatportBuilder,
    next_attempt: u8,
    now: u128,
)
    requires
        after.token() == token_next(before.token(), attempt, event).0,
        token_next(before.token(), attempt, event).1 is Use,
        after.token()->0.expires_in > now,
    ensures
        token_next(after.token(), next_attempt, TokenEventView::LookedUp { now }) == (
            after.token(),
            token_next(before.token(), attempt, event).1,
        ),
{
}

/// A step on one source that drops the token drops it for every source: the next one fetches.
pub proof fn law_sources_share_loss(
    before: BeatportBuilder,
    attempt: u8,
    event: TokenEventView,
    after: BeatportBuilder,
    next_attempt: u8,
    now: u128,
)
    requires
        after.token() == token_next(before.token(), attempt, event).0,
        token_next(before.token(), attempt, event).1 is Retry,
    ensures
        token_next(after.token(), next_attempt, TokenEventView::LookedUp { now }).1
            == TokenActionView::Fetch,
{
}

/// The platform can fill in every tag there is, and names each once.
pub proof fn law_platform_fills_in_every_tag(tag: SupportedTag)
    ensures
        platform_tags().contains(tag),
        platform_tags().no_duplicates(),
{
    let tags = platform_tags();
    assert(tags[0] is Title && tags[1] is Version && tags[2] is Artist && tags[3] is AlbumArtist);
    assert(tags[4] is Album && tags[5] is BPM && tags[6] is Genre && tags[7] is Style);
    assert(tags[8] is Label && tags[9] is URL && tags[10] is ReleaseDate);
    assert(tags[11] is PublishDate && tags[12] is Key && tags[13] is AlbumArt);
    assert(tags[14] is OtherTags && tags[15] is TrackId && tags[16] is ReleaseId);
    assert(tags[17] is Duration && tags[18] is Remixer && tags[19] is CatalogNumber);
    assert(tags[20] is TrackTotal && tags[21] is ISRC && tags[22] is TrackNumber);
}

/// The platform has three options: the resolution of cover art, 500 unless it is set, between 200
/// and 1600 in steps of 100; the number of pages to search, 1 unless it is set, up to 10; and
/// whether versions are ignored, which they are not unless it is set.
pub proof fn law_platform_options()
    ensures
        ({
            let options = platform_options();
            &&& options.len() == 3
            &&& options[0].id == "art_resolution"@ && options[0].label == "Album art resolution"@
            &&& options[0].tooltip is None
            &&& options[0].value == (OptionValue::Number {
                min: 200,
                max: 1600,
                step: 100,
                value: 500,
            })
            &&& options[1].id == "max_pages"@ && options[1].label == "Max pages"@
            &&& options[1].tooltip == Some("How many pages of search results to scan for tracks"@)
            &&& options[1].value == (OptionValue::Number { min: 1, max: 10, step: 1, value: 1 })
            &&& options[2].id == "ignore_version"@
            &&& options[2].label == "Ignore version when matching"@
            &&& options[2].tooltip == Some("Ignores (Extended Mix), (Original Mix) and such"@)
            &&& options[2].value == (OptionValue::Boolean { value: false })
        }),
{
}

/// What is read of an option is what it holds.
pub proof fn law_option_reading(option: CustomOption)
    ensures
        option@.id == option.id@,
        option@.label == option.label@,
        option@.tooltip == option.tooltip.deep_view(),
        option@.value == option.value,
        option.deep_view() == option@,
{
}

} // verus!
