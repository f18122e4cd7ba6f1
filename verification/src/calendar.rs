//! Timestamps as calendar text.

use vstd::prelude::*;

verus! {

/// The first second of the calendar: midnight of the first of January of
/// the year -262143.
pub const MIN_CALENDAR_TIMESTAMP: i64 = -8_334_601_228_800;

/// The last second of the calendar: the end of the thirty-first of December
/// of the year 262142.
pub const MAX_CALENDAR_TIMESTAMP: i64 = 8_210_266_876_799;

/// The RFC 3339 text of the UTC time that lies `secs` seconds after the
/// epoch, as `chrono` writes it; nothing where `chrono` has no such time.
pub uninterp spec fn rfc3339_of(secs: int) -> Option<Seq<char>>;

/// Calls `chrono::DateTime::from_timestamp` with no nanoseconds and, where it
/// gives a time, `chrono::DateTime::to_rfc3339` on that time. Both depend on
/// their argument alone. The contract gives the text its name and claims
/// nothing of what it holds. It claims that there is a time exactly for the
/// seconds of the calendar: `from_timestamp` turns the seconds into a day and
/// a time of day, and refuses the day exactly where its year lies outside
/// `chrono`'s years, -262143 to 262142.
#[verifier::external_body]
fn rfc3339_from_seconds(secs: i64) -> (r: Option<String>)
    ensures
        match r {
            Some(text) => rfc3339_of(secs as int) == Some(text@),
            None => rfc3339_of(secs as int) is None,
        },
        r is Some <==> MIN_CALENDAR_TIMESTAMP <= secs <= MAX_CALENDAR_TIMESTAMP,
{
    chrono::DateTime::from_timestamp(secs, 0).map(|t| t.to_rfc3339())
}

/// Reads the clock through `chrono::Utc::now` and gives it in whole seconds
/// since the epoch (`chrono::DateTime::timestamp`). Nothing is claimed of the result.
#[verifier::external_body]
pub(crate) fn utc_now_seconds() -> (now: i64) {
    chrono::Utc::now().timestamp()
}

/// Whether a timestamp is a time of the calendar.
pub open spec fn in_calendar(secs: i64) -> bool {
    MIN_CALENDAR_TIMESTAMP <= secs <= MAX_CALENDAR_TIMESTAMP
}

/// The timestamp itself where the calendar has it, and else the fallback.
pub open spec fn calendar_time_or(secs: i64, fallback: i64) -> i64 {
    if in_calendar(secs) {
        secs
    } else {
        fallback
    }
}

/// Writes a timestamp as RFC 3339 text in UTC, where the calendar has it.
pub fn timestamp_text(secs: i64) -> (r: Option<String>)
    ensures
        match r {
            Some(text) => rfc3339_of(secs as int) == Some(text@),
            None => rfc3339_of(secs as int) is None,
        },
        r is Some <==> in_calendar(secs),
{
    rfc3339_from_seconds(secs)
}

/// Picks the timestamp where the calendar was found to have it, and else the fallback.
pub fn pick_timestamp(secs: i64, accepted: bool, fallback: i64) -> (r: i64)
    ensures
        r == if accepted {
            secs
        } else {
            fallback
        },
{
    if accepted {
        secs
    } else {
        fallback
    }
}

/// Gives the timestamp itself where the calendar has it, and else the fallback.
pub fn resolve_timestamp(secs: i64, fallback: i64) -> (r: i64)
    ensures
        r == calendar_time_or(secs, fallback),
{
    let accepted = rfc3339_from_seconds(secs).is_some();
    pick_timestamp(secs, accepted, fallback)
}

} // verus!
