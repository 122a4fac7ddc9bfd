//! Trusted bridges to outside computations the logic leans on: date and
//! time parsing and rendering, and Unicode case mapping. Each item's
//! contract states only what the outside source plainly shows.

use vstd::prelude::*;

verus! {

/// Whether a text parses as an RFC 3339 date-time.
pub uninterp spec fn rfc3339_ok(s: Seq<char>) -> bool;

/// Relies on `chrono::DateTime::parse_from_rfc3339`: whether the parse
/// succeeds depends on the characters alone.
#[verifier::external_body]
pub fn parses_rfc3339(s: &str) -> (r: bool)
    ensures
        r == rfc3339_ok(s@),
{
    chrono::DateTime::parse_from_rfc3339(s).is_ok()
}

/// Whether a text parses as a date-time in the `%Y-%m-%d %H:%M:%S` or
/// `%Y-%m-%d %H:%M` layout.
pub uninterp spec fn naive_datetime_ok(s: Seq<char>) -> bool;

/// Relies on `chrono::NaiveDateTime::parse_from_str` with the two
/// second-and-minute layouts: success depends on the characters alone.
#[verifier::external_body]
pub fn parses_naive_datetime(s: &str) -> (r: bool)
    ensures
        r == naive_datetime_ok(s@),
{
    chrono::NaiveDateTime::parse_from_str(s, "%Y-%m-%d %H:%M:%S").is_ok()
        || chrono::NaiveDateTime::parse_from_str(s, "%Y-%m-%d %H:%M").is_ok()
}

/// Whether a text parses as a `%Y-%m-%d` date.
pub uninterp spec fn naive_date_ok(s: Seq<char>) -> bool;

/// Relies on `chrono::NaiveDate::parse_from_str`: success depends on the
/// characters alone.
#[verifier::external_body]
pub fn parses_naive_date(s: &str) -> (r: bool)
    ensures
        r == naive_date_ok(s@),
{
    chrono::NaiveDate::parse_from_str(s, "%Y-%m-%d").is_ok()
}

/// The last Unix timestamp this crate renders as a date: the end of year
/// 9999, far inside chrono's representable range.
pub const MAX_RENDERABLE_SECS: i64 = 253402300799;

/// Relies on `chrono::DateTime::<chrono::Local>::from` and
/// `to_rfc3339_opts`: renders a Unix timestamp in the local time zone. The
/// conversion refuses timestamps beyond chrono's representable range, so
/// the bound keeps the call total; the local zone depends on the machine,
/// so nothing is promised of the text beyond its being non-empty (an RFC
/// 3339 rendering always has digits).
#[verifier::external_body]
pub fn local_rfc3339_of_secs(secs: i64) -> (r: String)
    requires
        0 <= secs <= MAX_RENDERABLE_SECS,
    ensures
        r@.len() > 0,
{
    let t = std::time::UNIX_EPOCH + std::time::Duration::from_secs(secs as u64);
    chrono::DateTime::<chrono::Local>::from(t).to_rfc3339_opts(chrono::SecondsFormat::Secs, true)
}

/// The Unicode lowercase mapping of a text.
pub uninterp spec fn lower_of(s: Seq<char>) -> Seq<char>;

/// Relies on `str::to_lowercase`: the result depends on the characters
/// alone, and an empty text stays empty.
#[verifier::external_body]
pub fn lowercase(s: &str) -> (r: String)
    ensures
        r@ == lower_of(s@),
        s@.len() == 0 ==> r@.len() == 0,
{
    s.to_lowercase()
}

/// Whether a character has the Unicode whitespace property.
pub uninterp spec fn ws_char(c: char) -> bool;

pub assume_specification[ char::is_whitespace ](c: char) -> (r: bool)
    ensures
        r == ws_char(c),
;

/// Whether a character is Unicode uppercase.
pub uninterp spec fn upper_char(c: char) -> bool;

pub assume_specification[ char::is_uppercase ](c: char) -> (r: bool)
    ensures
        r == upper_char(c),
;

/// Whether a character is Unicode lowercase.
pub uninterp spec fn lower_char(c: char) -> bool;

pub assume_specification[ char::is_lowercase ](c: char) -> (r: bool)
    ensures
        r == lower_char(c),
;

/// The Unicode uppercase mapping of one character (one to three
/// characters).
pub uninterp spec fn upper_map(c: char) -> Seq<char>;

/// Relies on `char::to_uppercase`: the mapping depends on the character
/// alone and always yields at least one character.
#[verifier::external_body]
pub fn char_to_uppercase(c: char) -> (r: Vec<char>)
    ensures
        r@ == upper_map(c),
        r@.len() >= 1,
{
    c.to_uppercase().collect()
}

} // verus!
