//! Points in time, and the age test of the retention rule.

use vstd::prelude::*;

verus! {

/// A point in time: whole seconds since the start of 1970, and the
/// nanoseconds past that second.
#[derive(Copy, Clone, PartialEq, Eq, Debug, Structural)]
pub struct Timestamp {
    pub secs: i64,
    pub nanos: u32,
}

/// The seconds in a day.
pub const SECONDS_PER_DAY: i64 = 86400;

/// The nanoseconds in a second.
pub const NANOS_PER_SECOND: i64 = 1000000000;

/// `chrono::Local::now`, read through `DateTime::timestamp` and
/// `DateTime::timestamp_subsec_nanos`: the time of the call. Nothing is
/// promised of it, and two calls need not agree. `chrono` panics where the
/// system's clock stands before 1970.
#[verifier::external_body]
pub(crate) fn now() -> (time: Timestamp) {
    let time = chrono::Local::now();
    Timestamp { secs: time.timestamp(), nanos: time.timestamp_subsec_nanos() }
}

/// Whether at `now` more than `days` days have passed since the second
/// `since`.
pub open spec fn more_than_days_since(now: Timestamp, since: int, days: int) -> bool {
    (now.secs - since) * NANOS_PER_SECOND + now.nanos > days * SECONDS_PER_DAY * NANOS_PER_SECOND
}

/// Whether a snapshot made at the second `creation` is, at `now`, too old
/// to be kept for `expire_in_days` days: its age is above that many days and
/// one day of grace.
pub open spec fn is_expired(creation: int, expire_in_days: int, now: Timestamp) -> bool {
    more_than_days_since(now, creation, expire_in_days + 1)
}

/// Decides `is_expired`, for every `i64`.
pub fn expired(creation: i64, expire_in_days: i64, now: Timestamp) -> (b: bool)
    ensures
        b == is_expired(creation as int, expire_in_days as int, now),
{
    let age: i128 = (now.secs as i128 - creation as i128) * 1000000000 + now.nanos as i128;
    let limit: i128 = (expire_in_days as i128 + 1) * 86400 * 1000000000;
    age > limit
}

} // verus!
