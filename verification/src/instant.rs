//! Timestamps that denote an instant of the UTC calendar.

use vstd::prelude::*;

verus! {

/// Seconds since the epoch of the earliest instant: the first second of
/// the year -262143, which chrono has as `DateTime::<Utc>::MIN_UTC`.
pub const MIN_INSTANT: i64 = -8_334_601_228_800;

/// Seconds since the epoch of the latest instant: the last second of the
/// year 262142, which chrono has as `DateTime::<Utc>::MAX_UTC`.
pub const MAX_INSTANT: i64 = 8_210_266_876_799;

/// Whether `secs` seconds since the epoch is an instant of the calendar.
pub open spec fn is_instant(secs: int) -> bool {
    MIN_INSTANT <= secs <= MAX_INSTANT
}

/// Trusted: calls chrono's `DateTime::<Utc>::from_timestamp` with no
/// nanoseconds and, where that yields a date and time, reads its seconds
/// back with `DateTime::timestamp`.
///
/// chrono answers for the dates of the years -262143 to 262142 and for no
/// others, and documents that the two functions round-trip. The contract
/// claims both: the seconds come back unchanged exactly when they lie
/// between [`MIN_INSTANT`] and [`MAX_INSTANT`].
#[verifier::external_body]
fn utc_seconds(secs: i64) -> (r: Option<i64>)
    ensures
        r == (if is_instant(secs as int) { Some(secs) } else { None::<i64> }),
{
    match chrono::DateTime::from_timestamp(secs, 0) {
        Some(instant) => Some(instant.timestamp()),
        None => None,
    }
}

/// Tells whether `secs` seconds since the epoch is an instant.
pub fn denotes_instant(secs: i64) -> (r: bool)
    ensures
        r == is_instant(secs as int),
{
    utc_seconds(secs).is_some()
}

} // verus!
