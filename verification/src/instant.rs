use vstd::prelude::*;
use vstd::arithmetic::div_mod::{
    lemma_div_is_ordered, lemma_div_plus_one, lemma_fundamental_div_mod,
};

verus! {

/// Seconds in a civil day.
pub const SECS_PER_DAY: u32 = 86400;

/// Nanoseconds in a second.
pub const NANOS_PER_SEC: u32 = 1_000_000_000;

/// Day number of 1970-01-01 when days are counted from January 1 of year 1
/// (which is day 1) in the proleptic Gregorian calendar.
pub const EPOCH_DAY: i64 = 719_163;

/// Largest day number, in absolute value, that an `Instant` may carry.
/// The bound (2^46 days) is far beyond any representable calendar date and
/// keeps every second-level computation comfortably inside `i64`.
pub const MAX_DAY: i64 = 0x4000_0000_0000;

/// A wall-clock instant, independent of any timezone: the calendar day it
/// falls on, the whole seconds elapsed since that day's midnight, and the
/// sub-second part. Day 1 is January 1 of year 1; days before that are zero
/// or negative.
#[derive(Clone, Copy, Debug, PartialEq, Eq, Structural)]
pub struct Instant {
    /// Day number in the proleptic Gregorian calendar (day 1 = 0001-01-01).
    pub days: i64,
    /// Whole seconds since this day's midnight; always below `SECS_PER_DAY`.
    pub secs: u32,
    /// Sub-second part in nanoseconds; always below `NANOS_PER_SEC`.
    pub nanos: u32,
}

/// A wall-clock time of day with second precision.
#[derive(Clone, Copy, Debug, PartialEq, Eq, Structural)]
pub struct TimeOfDay {
    /// Seconds since midnight; always below `SECS_PER_DAY`.
    pub secs: u32,
}

impl TimeOfDay {
    pub open spec fn wf(self) -> bool {
        self.secs < SECS_PER_DAY
    }

    /// Builds a time of day from hours, minutes and seconds; `None` when one
    /// of the components is out of range.
    pub fn from_hms(h: u32, m: u32, s: u32) -> (r: Option<TimeOfDay>)
        ensures
            h < 24 && m < 60 && s < 60 ==> r == Some(TimeOfDay { secs: (h * 3600 + m * 60 + s) as u32 }),
            !(h < 24 && m < 60 && s < 60) ==> r is None,
            r matches Some(t) ==> t.wf(),
    {
        if h < 24 && m < 60 && s < 60 {
            Some(TimeOfDay { secs: h * 3600 + m * 60 + s })
        } else {
            None
        }
    }
}

impl Instant {
    pub open spec fn wf(self) -> bool {
        &&& -MAX_DAY <= self.days <= MAX_DAY
        &&& self.secs < SECS_PER_DAY
        &&& self.nanos < NANOS_PER_SEC
    }

    /// Whole seconds since the Unix epoch; the sub-second part is not counted.
    pub open spec fn ts(self) -> int {
        (self.days - EPOCH_DAY) * (SECS_PER_DAY as int) + self.secs
    }

    /// Seconds since the Unix epoch of this day's midnight.
    pub open spec fn midnight_ts(self) -> int {
        (self.days - EPOCH_DAY) * (SECS_PER_DAY as int)
    }

    /// Day of the week as an index: 0 = Monday ... 6 = Sunday.
    /// Day 1 (0001-01-01) was a Monday.
    pub open spec fn weekday_index(self) -> int {
        (self.days - 1) % 7
    }

    /// Instants are ordered by their second count since the epoch, with the
    /// sub-second part breaking ties.
    pub open spec fn spec_le(self, other: Instant) -> bool {
        self.ts() < other.ts() || (self.ts() == other.ts() && self.nanos <= other.nanos)
    }

    pub open spec fn spec_lt(self, other: Instant) -> bool {
        self.ts() < other.ts() || (self.ts() == other.ts() && self.nanos < other.nanos)
    }

    /// Builds an instant from its raw components; `None` when they do not
    /// form a well-formed instant.
    pub fn new(days: i64, secs: u32, nanos: u32) -> (r: Option<Instant>)
        ensures
            (Instant { days, secs, nanos }).wf() ==> r == Some(Instant { days, secs, nanos }),
            !(Instant { days, secs, nanos }).wf() ==> r is None,
    {
        let i = Instant { days, secs, nanos };
        if -MAX_DAY <= days && days <= MAX_DAY && secs < SECS_PER_DAY && nanos < NANOS_PER_SEC {
            Some(i)
        } else {
            None
        }
    }

    pub fn le(&self, other: &Instant) -> (r: bool)
        requires
            self.wf(),
            other.wf(),
        ensures
            r == self.spec_le(*other),
    {
        proof {
            lemma_ts_order(*self, *other);
            lemma_ts_order(*other, *self);
        }
        if self.days != other.days {
            self.days < other.days
        } else if self.secs != other.secs {
            self.secs < other.secs
        } else {
            self.nanos <= other.nanos
        }
    }

    pub fn lt(&self, other: &Instant) -> (r: bool)
        requires
            self.wf(),
            other.wf(),
        ensures
            r == self.spec_lt(*other),
    {
        proof {
            lemma_ts_order(*self, *other);
            lemma_ts_order(*other, *self);
        }
        if self.days != other.days {
            self.days < other.days
        } else if self.secs != other.secs {
            self.secs < other.secs
        } else {
            self.nanos < other.nanos
        }
    }

    /// The same instant with the sub-second part discarded.
    pub(crate) fn truncated(self) -> (r: Instant)
        ensures
            r == (Instant { days: self.days, secs: self.secs, nanos: 0 }),
    {
        Instant { days: self.days, secs: self.secs, nanos: 0 }
    }

    /// Moves this instant forward by `delta` whole seconds.
    pub(crate) fn plus_secs(self, delta: u64) -> (r: Instant)
        requires
            self.wf(),
            delta <= 0x10_0000_0000_0000u64,
            self.days + (delta as int) / (SECS_PER_DAY as int) + 1 <= MAX_DAY,
        ensures
            r.wf(),
            r.ts() == self.ts() + delta,
            r.nanos == self.nanos,
            self.days <= r.days <= self.days + (delta as int) / (SECS_PER_DAY as int) + 1,
    {
        let total: u64 = self.secs as u64 + delta;
        let dd: u64 = total / 86400;
        let s2: u64 = total % 86400;
        proof {
            lemma_fundamental_div_mod(total as int, 86400);
            lemma_div_is_ordered(total as int, delta as int + 86400, 86400);
            lemma_div_plus_one(delta as int, 86400);
        }
        Instant { days: self.days + dd as i64, secs: s2 as u32, nanos: self.nanos }
    }

    /// Moves this instant backward by `delta` whole seconds.
    pub(crate) fn minus_secs(self, delta: u64) -> (r: Instant)
        requires
            self.wf(),
            delta <= 0x10_0000_0000_0000u64,
            -MAX_DAY <= self.days - (delta as int) / (SECS_PER_DAY as int) - 1,
        ensures
            r.wf(),
            r.ts() == self.ts() - delta,
            r.nanos == self.nanos,
            self.days - (delta as int) / (SECS_PER_DAY as int) - 1 <= r.days <= self.days,
    {
        if delta == 0 {
            return self;
        }
        let k: u64 = (delta + 86399) / 86400;
        let back: u64 = k * 86400 - delta;
        proof {
            lemma_fundamental_div_mod(delta as int + 86399, 86400);
            lemma_fundamental_div_mod(delta as int, 86400);
            lemma_div_is_ordered(delta as int, delta as int + 86399, 86400);
            lemma_div_is_ordered(delta as int + 86399, delta as int + 86400, 86400);
            lemma_div_plus_one(delta as int, 86400);
            assert(delta as int <= k * 86400 <= delta as int + 86399);
            assert(k <= (delta as int) / 86400 + 1);
            assert(1 <= k) by {
                assert(86400 <= delta as int + 86399);
                lemma_div_is_ordered(86400, delta as int + 86399, 86400);
            }
            vstd::arithmetic::div_mod::lemma_basic_div(k as int * 86400 - delta as int, 86400);
        }
        let shifted = Instant { days: self.days - k as i64, secs: self.secs, nanos: self.nanos };
        let r = shifted.plus_secs(back);
        proof {
            if k >= 1 {
                assert(r.days <= self.days);
            }
        }
        r
    }
}

/// The midnight instant of the given day.
pub open spec fn day_start(days: int) -> Instant {
    Instant { days: days as i64, secs: 0, nanos: 0 }
}

/// The instant whose whole-second count since the epoch is `ts`, carrying
/// the given sub-second part.
pub open spec fn instant_of_ts(ts: int, nanos: u32) -> Instant {
    Instant {
        days: (EPOCH_DAY + ts / (SECS_PER_DAY as int)) as i64,
        secs: (ts % (SECS_PER_DAY as int)) as u32,
        nanos,
    }
}

/// Second counts in this range decompose into a well-formed instant.
pub proof fn lemma_instant_of_ts_props(ts: int, nanos: u32)
    requires
        (-MAX_DAY - EPOCH_DAY) * (SECS_PER_DAY as int) <= ts,
        ts <= (MAX_DAY - EPOCH_DAY) * (SECS_PER_DAY as int) + (SECS_PER_DAY - 1),
        nanos < NANOS_PER_SEC,
    ensures
        instant_of_ts(ts, nanos).wf(),
        instant_of_ts(ts, nanos).ts() == ts,
        instant_of_ts(ts, nanos).days == EPOCH_DAY + ts / (SECS_PER_DAY as int),
        instant_of_ts(ts, nanos).nanos == nanos,
{
    let d: int = SECS_PER_DAY as int;
    lemma_fundamental_div_mod(ts, d);
    vstd::arithmetic::div_mod::lemma_mod_bound(ts, d);
    vstd::arithmetic::div_mod::lemma_div_multiples_vanish(-MAX_DAY - EPOCH_DAY, d);
    lemma_div_is_ordered((-MAX_DAY - EPOCH_DAY) * d, ts, d);
    assert((-MAX_DAY - EPOCH_DAY) * d == d * (-MAX_DAY - EPOCH_DAY)) by (nonlinear_arith);
    vstd::arithmetic::div_mod::lemma_fundamental_div_mod_converse_div(
        (MAX_DAY - EPOCH_DAY) * d + (d - 1), d, MAX_DAY - EPOCH_DAY, d - 1);
    lemma_div_is_ordered(ts, (MAX_DAY - EPOCH_DAY) * d + (d - 1), d);
}

/// `instant_of_ts` inverts `ts()` on well-formed instants.
pub proof fn lemma_instant_of_ts_inverse(i: Instant)
    requires
        i.wf(),
    ensures
        instant_of_ts(i.ts(), i.nanos) == i,
{
    vstd::arithmetic::div_mod::lemma_fundamental_div_mod_converse_div(
        i.ts(), SECS_PER_DAY as int, i.days - EPOCH_DAY, i.secs as int);
    vstd::arithmetic::div_mod::lemma_fundamental_div_mod_converse_mod(
        i.ts(), SECS_PER_DAY as int, i.days - EPOCH_DAY, i.secs as int);
}

/// Under well-formedness, the order of second counts agrees with the
/// lexicographic order of (day, second-of-day).
pub proof fn lemma_ts_order(a: Instant, b: Instant)
    requires
        a.wf(),
        b.wf(),
    ensures
        a.ts() < b.ts() <==> (a.days < b.days || (a.days == b.days && a.secs < b.secs)),
        a.ts() == b.ts() <==> (a.days == b.days && a.secs == b.secs),
{
    if a.days < b.days {
        assert((b.days - a.days) * (SECS_PER_DAY as int) >= SECS_PER_DAY as int) by (nonlinear_arith)
            requires b.days - a.days >= 1;
        assert(b.ts() - a.ts() == (b.days - a.days) * (SECS_PER_DAY as int) + b.secs - a.secs);
    }
    if b.days < a.days {
        assert((a.days - b.days) * (SECS_PER_DAY as int) >= SECS_PER_DAY as int) by (nonlinear_arith)
            requires a.days - b.days >= 1;
        assert(a.ts() - b.ts() == (a.days - b.days) * (SECS_PER_DAY as int) + a.secs - b.secs);
    }
}

} // verus!
