//! UTC time as text: the machine's clock from std, the formatting from
//! `chrono`.
//!
//! Neither call can give up. A clock that stands before 1970, or at an
//! instant that `chrono` cannot hold, gives no text.

use vstd::prelude::*;

verus! {

/// The pattern of a day text.
pub open spec fn day_pattern() -> Seq<char> {
    "%Y-%m-%d"@
}

/// The pattern of a time text.
pub open spec fn time_pattern() -> Seq<char> {
    "%Y-%m-%d %H:%M:%S"@
}

/// The shape of a day text from its end: two digits of the day, a dash, two
/// of the month, a dash, and four or more characters of the year before it.
pub open spec fn day_shaped(text: Seq<char>) -> bool {
    &&& text.len() >= 10
    &&& text[text.len() - 3] == '-'
    &&& text[text.len() - 6] == '-'
}

/// The shape of a time text from its end: seconds, minutes and hours of two
/// digits each with colons between them, a space, and a day text before it.
pub open spec fn time_shaped(text: Seq<char>) -> bool {
    &&& text.len() >= 19
    &&& text[text.len() - 3] == ':'
    &&& text[text.len() - 6] == ':'
    &&& text[text.len() - 9] == ' '
    &&& text[text.len() - 12] == '-'
    &&& text[text.len() - 15] == '-'
}

/// What `chrono` writes for the instant `secs` seconds after the start of
/// 1970, in UTC and with `pattern`: `None` where
/// `chrono::DateTime::from_timestamp` cannot hold the instant.
pub uninterp spec fn utc_text(secs: i64, pattern: Seq<char>) -> Option<Seq<char>>;

/// Calls `std::time::SystemTime::now` and takes the whole seconds since
/// `UNIX_EPOCH` from it.
///
/// Trusted: the call returns. `None` stands for a clock before 1970 or a
/// number of seconds beyond `i64`. Nothing is claimed of the number: it is
/// the clock's.
#[verifier::external_body]
fn system_seconds() -> (secs: Option<i64>) {
    match std::time::SystemTime::now().duration_since(std::time::UNIX_EPOCH) {
        Ok(elapsed) => i64::try_from(elapsed.as_secs()).ok(),
        Err(_) => None,
    }
}

/// Calls `chrono::DateTime::from_timestamp` on `secs` and formats the
/// instant with `pattern`.
///
/// Trusted: the text depends on `secs` and `pattern` alone; with one of the
/// two patterns named here the formatting succeeds; and the text has the
/// pattern's shape, since `chrono` writes month, day, hour, minute and second
/// with two digits each and the year with four or more characters, and puts
/// the pattern's dashes, space and colons between them.
#[verifier::external_body]
fn format_utc(secs: i64, pattern: &str) -> (text: Option<String>)
    requires
        pattern@ == day_pattern() || pattern@ == time_pattern(),
    ensures
        match text {
            Some(t) => utc_text(secs, pattern@) == Some(t@),
            None => utc_text(secs, pattern@) is None,
        },
        text matches Some(t) ==> (pattern@ == day_pattern() ==> day_shaped(t@)),
        text matches Some(t) ==> (pattern@ == time_pattern() ==> time_shaped(t@)),
{
    match chrono::DateTime::from_timestamp(secs, 0) {
        Some(instant) => Some(instant.format(pattern).to_string()),
        None => None,
    }
}

/// The UTC calendar day of the instant `secs` seconds after the start of
/// 1970: year, month and day with dashes between them, `YYYY-MM-DD` while the
/// year has four digits. `None` for an instant that `chrono` cannot hold.
pub fn day_of(secs: i64) -> (day: Option<String>)
    ensures
        match day {
            Some(d) => utc_text(secs, day_pattern()) == Some(d@) && day_shaped(d@),
            None => utc_text(secs, day_pattern()) is None,
        },
{
    format_utc(secs, "%Y-%m-%d")
}

/// The UTC time of the instant `secs` seconds after the start of 1970: the
/// day, a space, and hour, minute and second with colons between them.
/// `None` for an instant that `chrono` cannot hold.
pub fn time_of(secs: i64) -> (text: Option<String>)
    ensures
        match text {
            Some(t) => utc_text(secs, time_pattern()) == Some(t@) && time_shaped(t@),
            None => utc_text(secs, time_pattern()) is None,
        },
{
    format_utc(secs, "%Y-%m-%d %H:%M:%S")
}

/// The current UTC calendar day, or `None` where the clock gives no instant
/// that can be written. Which day it is depends on the clock, and two calls
/// may differ.
pub fn today() -> (day: Option<String>)
    ensures
        day matches Some(d) ==> day_shaped(d@) && exists|secs: i64|
            utc_text(secs, day_pattern()) == Some(d@),
{
    match system_seconds() {
        Some(secs) => day_of(secs),
        None => None,
    }
}

/// The current UTC time to the second, or `None` where the clock gives no
/// instant that can be written. Which time it is depends on the clock, and
/// two calls may differ.
pub fn timestamp() -> (text: Option<String>)
    ensures
        text matches Some(t) ==> time_shaped(t@) && exists|secs: i64|
            utc_text(secs, time_pattern()) == Some(t@),
{
    match system_seconds() {
        Some(secs) => time_of(secs),
        None => None,
    }
}

} // verus!
