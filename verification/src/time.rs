//! Timestamps: parsing RFC 3339 text into an epoch instant and formatting
//! an instant for display, both through the `chrono` crate.

use vstd::prelude::*;

verus! {

/// The instant, in seconds since the Unix epoch, that an RFC 3339 string
/// denotes, normalized to UTC; `None` where the text is not a valid
/// RFC 3339 date-and-time.
pub uninterp spec fn rfc3339_epoch(s: Seq<char>) -> Option<i64>;

/// The `YYYY-MM-DD` calendar-day text of an epoch instant, in UTC.
pub uninterp spec fn day_str(t: i64) -> Seq<char>;

/// The `HH:MM` time-of-day text of an epoch instant, in UTC.
pub uninterp spec fn hm_str(t: i64) -> Seq<char>;

/// Relies on chrono's `DateTime::parse_from_rfc3339`: parsing an RFC 3339
/// string is a function of the text alone, and `timestamp` of the parsed
/// value, converted to UTC, is its epoch second.
#[verifier::external_body]
pub(crate) fn parse_rfc3339(s: &str) -> (r: Option<i64>)
    ensures
        r == rfc3339_epoch(s@),
{
    match chrono::DateTime::parse_from_rfc3339(s) {
        Ok(d) => Some(d.with_timezone(&chrono::Utc).timestamp()),
        Err(_) => None,
    }
}

/// Relies on chrono's `DateTime::<Utc>::from_timestamp` and `format("%Y-%m-%d")`:
/// both are functions of the instant alone. An instant outside chrono's
/// representable range formats as the empty string; such instants never
/// arise from `parse_rfc3339`, whose results are representable by
/// construction.
#[verifier::external_body]
pub(crate) fn format_day(t: i64) -> (r: String)
    ensures
        r@ == day_str(t),
{
    match chrono::DateTime::<chrono::Utc>::from_timestamp(t, 0) {
        Some(d) => d.format("%Y-%m-%d").to_string(),
        None => String::new(),
    }
}

/// Relies on chrono's `DateTime::<Utc>::from_timestamp` and `format("%H:%M")`:
/// both are functions of the instant alone.
#[verifier::external_body]
pub(crate) fn format_hm(t: i64) -> (r: String)
    ensures
        r@ == hm_str(t),
{
    match chrono::DateTime::<chrono::Utc>::from_timestamp(t, 0) {
        Some(d) => d.format("%H:%M").to_string(),
        None => String::new(),
    }
}

} // verus!
