//! What the library has from other crates: regular expressions, dates, and text similarity.
use vstd::prelude::*;

verus! {

/// Matches a featured-artist note in a title, such as ` feat. Somebody`: white space, the word
/// in any case with an optional dot, white space, and everything up to the next round bracket.
pub const FEATURE_PATTERN: &'static str = r"(?i)\s+(?:ft|feat|featuring)\.?\s+[^()]+";

/// Matches a title that ends in a bracketed mix name, and captures the title and the name.
pub const MIX_PATTERN: &'static str = r"^(.*?)\s*(?:\(|\[)([^()\[\]]+)(?:\)|\])$";

/// The format of a calendar date: year, month and day between hyphens.
pub const DATE_FORMAT: &'static str = "%Y-%m-%d";

/// The regular expressions that the library uses. Both are well formed.
pub open spec fn known_pattern(pattern: Seq<char>) -> bool {
    pattern == FEATURE_PATTERN@ || pattern == MIX_PATTERN@
}

/// Names what `regex::Regex::replace_all` returns for the regular expression `pattern`, the
/// text `text` and the replacement `to`.
pub uninterp spec fn regex_replaced(
    pattern: Seq<char>,
    text: Seq<char>,
    to: Seq<char>,
) -> Seq<char>;

/// Calls `regex::Regex::replace_all` with the regular expression `pattern`, which
/// `regex::Regex::new` compiles. The result is named, not described: it is a function of the
/// three texts alone. The two patterns admitted are the ones that are known to compile.
#[verifier::external_body]
pub(crate) fn regex_replace_all(pattern: &str, text: &str, to: &str) -> (r: String)
    requires
        known_pattern(pattern@),
    ensures
        r@ == regex_replaced(pattern@, text@, to@),
{
    regex::Regex::new(pattern).unwrap().replace_all(text, to).into_owned()
}

/// Names what `regex::Regex::captures` returns for the regular expression `pattern` and the
/// text `text`: nothing where there is no match, else the text of each capture group that took
/// part in the leftmost match, the whole match being group zero.
pub uninterp spec fn regex_captured(pattern: Seq<char>, text: Seq<char>) -> Option<
    Seq<Option<Seq<char>>>,
>;

/// Calls `regex::Regex::captures` with the regular expression `pattern`, which
/// `regex::Regex::new` compiles, and hands out the text of each group. The result is named, not
/// described: it is a function of the two texts alone. The two patterns admitted are the ones
/// that are known to compile.
#[verifier::external_body]
pub(crate) fn regex_captures(pattern: &str, text: &str) -> (r: Option<Vec<Option<String>>>)
    requires
        known_pattern(pattern@),
    ensures
        r.deep_view() == regex_captured(pattern@, text@),
{
    let found = regex::Regex::new(pattern).unwrap().captures(text)?;
    Some(found.iter().map(|group| group.map(|m| m.as_str().to_string())).collect())
}

/// Names the date that `chrono::NaiveDate::parse_from_str` reads from `text` by `format`, as
/// year, month and day; nothing where it reports an error.
pub uninterp spec fn date_read(text: Seq<char>, format: Seq<char>) -> Option<(i32, u32, u32)>;

/// Calls `chrono::NaiveDate::parse_from_str` and takes the date apart. The result is named: it
/// is a function of the two texts alone. Of a date it is said that months count from 1 to 12 and
/// days from 1 to 31.
#[verifier::external_body]
pub(crate) fn read_date(text: &str, format: &str) -> (r: Option<(i32, u32, u32)>)
    ensures
        r == date_read(text@, format@),
        r matches Some(date) ==> 1 <= date.1 <= 12 && 1 <= date.2 <= 31,
{
    let date = chrono::NaiveDate::parse_from_str(text, format).ok()?;
    Some(
        (
            chrono::Datelike::year(&date),
            chrono::Datelike::month(&date),
            chrono::Datelike::day(&date),
        ),
    )
}

/// The bit pattern of the floating-point number one.
pub const ONE_BITS: u64 = 0x3ff0_0000_0000_0000;

/// Names the bit pattern of what `strsim::normalized_levenshtein` returns for two texts.
pub uninterp spec fn similarity_bits(a: Seq<char>, b: Seq<char>) -> u64;

/// Calls `strsim::normalized_levenshtein` and hands out the bit pattern of the double-precision
/// number that it returns. The result is named: it is a function of the two texts alone. Of it
/// is said that it lies between zero and one, on which bit patterns are ordered as the numbers
/// are, and that it is one for equal texts.
#[verifier::external_body]
pub(crate) fn similarity(a: &str, b: &str) -> (r: u64)
    ensures
        r == similarity_bits(a@, b@),
        r <= ONE_BITS,
        a@ == b@ ==> r == ONE_BITS,
{
    strsim::normalized_levenshtein(a, b).to_bits()
}

} // verus!
