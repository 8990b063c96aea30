//! Calendar texts of timestamps.

use vstd::prelude::*;
use vstd::string::*;
use crate::entry::{Timestamp, TimestampView, MAX_SECONDS, MIN_SECONDS};

verus! {

/// The pattern of the time column of the long table: abbreviated month,
/// day of the month padded with a space, hours and minutes.
pub const TABLE_TIME_PATTERN: &'static str = "%b %e %H:%M";

/// The pattern of the time field of a structured record: the date, then
/// the time of day to the second.
pub const RECORD_TIME_PATTERN: &'static str = "%Y-%m-%d %H:%M:%S";

/// The text that chrono writes for an instant under a strftime pattern:
/// the instant `seconds` and `nanos` after the Unix epoch, shown as the
/// wall-clock time of a zone that is `offset` seconds ahead of UTC.
pub uninterp spec fn formatted_time(seconds: int, nanos: int, offset: int, pattern: Seq<char>) -> Seq<
    char,
>;

/// The calendar text of a timestamp under a pattern, in its own offset.
pub open spec fn time_text(t: TimestampView, pattern: Seq<char>) -> Seq<char> {
    formatted_time(t.seconds, t.nanos, t.offset, pattern)
}

/// Calls chrono: `DateTime::from_timestamp`, `FixedOffset::east_opt`,
/// `DateTime::with_timezone` and `DateTime::format`, then writes the result
/// to a `String`.
///
/// The contract claims that the text depends on the four arguments alone,
/// and gives it the name `formatted_time`. It asks for an instant within
/// the years that chrono represents, nanoseconds below one second and an
/// offset within one day, on which `from_timestamp` and `east_opt` return a
/// value, and for one of the two patterns of this module, whose specifiers
/// chrono knows, so that writing the result cannot fail.
#[verifier::external_body]
fn format_instant(seconds: i64, nanos: u32, offset: i32, pattern: &str) -> (text: String)
    requires
        MIN_SECONDS <= seconds <= MAX_SECONDS,
        nanos < 1_000_000_000,
        -86_400 < offset < 86_400,
        pattern@ == TABLE_TIME_PATTERN@ || pattern@ == RECORD_TIME_PATTERN@,
    ensures
        text@ == formatted_time(seconds as int, nanos as int, offset as int, pattern@),
{
    let utc = chrono::DateTime::from_timestamp(seconds, nanos).unwrap();
    let zone = chrono::FixedOffset::east_opt(offset).unwrap();
    utc.with_timezone(&zone).format(pattern).to_string()
}

/// The time of a timestamp as the long table shows it, such as
/// `Jan  5 14:03`, in the timestamp's own offset.
pub fn table_time(t: Timestamp) -> (text: String)
    ensures
        text@ == time_text(t@, TABLE_TIME_PATTERN@),
{
    format_instant(t.seconds(), t.nanos(), t.offset(), TABLE_TIME_PATTERN)
}

/// The time of a timestamp as a structured record holds it, such as
/// `2024-01-05 14:03:09`, in the timestamp's own offset.
pub fn record_time(t: Timestamp) -> (text: String)
    ensures
        text@ == time_text(t@, RECORD_TIME_PATTERN@),
{
    format_instant(t.seconds(), t.nanos(), t.offset(), RECORD_TIME_PATTERN)
}

} // verus!
