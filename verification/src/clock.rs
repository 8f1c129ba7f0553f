//! The clock, and counting days back from it.

use chrono::{DateTime, TimeDelta, Utc};
use vstd::prelude::*;

verus! {

/// The first second that a date can name: midnight, 1 January 262144 BCE.
pub const FIRST_SECOND: i64 = -8_334_601_228_800;

/// The last millisecond that a date can name: the end of the year 262142.
pub const LAST_MILLI: i64 = 8_210_266_876_799_999;

/// Seconds in a day.
pub const DAY_SECONDS: i64 = 86_400;

/// Most days that can be counted back from any moment after 1969.
pub const MAX_DEPTH_DAYS: u32 = 96_465_292;

/// Whether `ms` is a moment that the clock can show.
pub open spec fn is_reading(ms: int) -> bool {
    0 <= ms <= LAST_MILLI
}

/// The second, since the Unix epoch, that stands `days` days before `now_ms`.
pub open spec fn days_before(now_ms: int, days: int) -> int {
    now_ms / 1000 - days * DAY_SECONDS
}

/// Whether a date can name the moment `days` days before `now_ms`.
pub open spec fn depth_in_range(now_ms: int, days: int) -> bool {
    is_reading(now_ms) && FIRST_SECOND <= days_before(now_ms, days)
}

/// Whether a date can name the moment `days` days before `now_ms`.
pub fn within_dates(now_ms: i64, days: u32) -> (within: bool)
    ensures
        within == depth_in_range(now_ms as int, days as int),
{
    0 <= now_ms && now_ms <= LAST_MILLI && FIRST_SECOND <= now_ms / 1000 - (days as i64)
        * DAY_SECONDS
}

/// The current time, in milliseconds since the Unix epoch.
///
/// Trusted: `chrono::Utc::now` gives a date, so its `timestamp_millis` is
/// inside the range of dates, and it gives none before the epoch: on a machine
/// whose clock stands before 1970 it panics.
#[verifier::external_body]
pub(crate) fn now_millis() -> (ms: i64)
    ensures
        is_reading(ms as int),
{
    Utc::now().timestamp_millis()
}

/// The second that stands `days` days before `now_ms`.
///
/// Trusted: taking `chrono::TimeDelta::days` from a `chrono::DateTime` steps
/// back over days of 86 400 seconds each, and `timestamp` drops the fraction
/// of a second. The subtraction panics outside the range of dates, which the
/// precondition leaves out.
#[verifier::external_body]
pub(crate) fn seconds_before(now_ms: i64, days: u32) -> (seconds: i64)
    requires
        depth_in_range(now_ms as int, days as int),
    ensures
        seconds == days_before(now_ms as int, days as int),
{
    let now = DateTime::<Utc>::from_timestamp_millis(now_ms).unwrap();
    (now - TimeDelta::days(i64::from(days))).timestamp()
}

/// No days back is the second in hand, and every day back is 86 400 seconds
/// earlier.
pub proof fn law_days_are_counted_back(now_ms: int, days: int)
    ensures
        days_before(now_ms, 0) * 1000 <= now_ms < days_before(now_ms, 0) * 1000 + 1000,
        days_before(now_ms, days + 1) == days_before(now_ms, days) - 86_400,
{
}

/// A moment after 1969 can be counted back from by `MAX_DEPTH_DAYS` days and by
/// any fewer.
pub proof fn law_ordinary_depths_are_in_range(now_ms: int, days: int)
    requires
        0 <= now_ms <= LAST_MILLI,
        0 <= days <= MAX_DEPTH_DAYS,
    ensures
        is_reading(now_ms),
        depth_in_range(now_ms, days),
{
}

} // verus!
