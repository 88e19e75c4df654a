use vstd::prelude::*;
use crate::instant::Instant;

verus! {

/// The default supplier of the current instant: the system clock, read
/// through chrono in the local timezone. Schedules take instants as
/// arguments, so tests can substitute any instant they like; this provider
/// exists for callers that want the real clock.
pub struct ChronoTimeProvider {}

impl ChronoTimeProvider {
    /// Relies on chrono::Local::now and chrono's Datelike and Timelike
    /// accessors: the current local time decomposes into a day number from
    /// CE, seconds from midnight below 86400, and a sub-second part below
    /// one second (clamped here during a leap second, which chrono encodes
    /// as a nanosecond overflow); chrono's representable dates lie between
    /// years -262144 and 262143, far inside our day range. chrono's `now`
    /// itself panics when the system clock reads before 1970.
    #[verifier::external_body]
    pub fn now() -> (r: Instant)
        ensures
            r.wf(),
            -100_000_000 <= r.days <= 100_000_000,
    {
        let dt = chrono::Local::now();
        let days = chrono::Datelike::num_days_from_ce(&dt) as i64;
        let secs = chrono::Timelike::num_seconds_from_midnight(&dt);
        let nanos = chrono::Timelike::nanosecond(&dt);
        let nanos = if nanos >= 1_000_000_000 { 999_999_999 } else { nanos };
        Instant { days, secs, nanos }
    }
}

} // verus!
