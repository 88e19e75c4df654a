use vstd::prelude::*;
use vstd::arithmetic::div_mod::{
    lemma_div_is_ordered, lemma_div_pos_is_pos, lemma_fundamental_div_mod,
    lemma_fundamental_div_mod_converse_div, lemma_mod_bound,
};
use crate::instant::{
    day_start, instant_of_ts, lemma_instant_of_ts_inverse, lemma_instant_of_ts_props,
    lemma_ts_order, Instant, EPOCH_DAY, MAX_DAY,
};

verus! {

/// A recurrence unit. Numeric variants carry a count `n`; `n == 0` is a
/// valid value and makes `next` and `prev` the identity.
#[derive(Eq, PartialEq, Debug, Copy, Clone, Structural)]
pub enum Interval {
    /// The next multiple of `n` seconds since the start of the Unix epoch
    Seconds(u32),
    /// The next multiple of `n` minutes since the start of the day
    Minutes(u32),
    /// The next multiple of `n` hours since the start of the day
    Hours(u32),
    /// The next multiple of `n` days since the start of the era
    Days(u32),
    /// The next multiple of `n` weeks since the start of the era
    Weeks(u32),
    /// Every Monday
    Monday,
    /// Every Tuesday
    Tuesday,
    /// Every Wednesday
    Wednesday,
    /// Every Thursday
    Thursday,
    /// Every Friday
    Friday,
    /// Every Saturday
    Saturday,
    /// Every Sunday
    Sunday,
    /// Every weekday (Monday through Friday)
    Weekday,
}

/// A numeric interval whose count is zero; `next` and `prev` leave the
/// instant unchanged for these.
pub open spec fn is_zero(ival: Interval) -> bool {
    match ival {
        Interval::Seconds(n) | Interval::Minutes(n) | Interval::Hours(n)
        | Interval::Days(n) | Interval::Weeks(n) => n == 0,
        _ => false,
    }
}

/// The length of one period in seconds, for the numeric variants.
pub open spec fn period_secs(ival: Interval) -> int {
    match ival {
        Interval::Seconds(n) => n as int,
        Interval::Minutes(n) => 60 * (n as int),
        Interval::Hours(n) => 3600 * (n as int),
        Interval::Days(n) => 86400 * (n as int),
        Interval::Weeks(n) => 604800 * (n as int),
        _ => 0,
    }
}

/// How many calendar days a single `next`, `prev` or `next_from` step can
/// move an instant, at most.
pub open spec fn span_days(ival: Interval) -> int {
    match ival {
        Interval::Seconds(n) => (n as int) / 86400 + 2,
        Interval::Minutes(n) => (60 * (n as int)) / 86400 + 2,
        Interval::Hours(n) => (3600 * (n as int)) / 86400 + 2,
        Interval::Days(n) => n as int + 1,
        Interval::Weeks(n) => 7 * (n as int) + 7,
        _ => 8,
    }
}

/// The instant is well-formed and far enough from the representable edge
/// that one step of this interval stays in range.
pub open spec fn ok_for(ival: Interval, t: Instant) -> bool {
    &&& t.wf()
    &&& t.days + span_days(ival) <= MAX_DAY
    &&& -MAX_DAY <= t.days - span_days(ival)
}

/// The weekday a named-weekday variant denotes, as an index (0 = Monday ...
/// 6 = Sunday); 7 for every other variant.
pub open spec fn weekday_num(ival: Interval) -> int {
    match ival {
        Interval::Monday => 0,
        Interval::Tuesday => 1,
        Interval::Wednesday => 2,
        Interval::Thursday => 3,
        Interval::Friday => 4,
        Interval::Saturday => 5,
        Interval::Sunday => 6,
        _ => 7,
    }
}

/// Days from a day with weekday index `dow` forward to the next strictly
/// later day with weekday index `target`; a full week when they coincide.
pub open spec fn next_weekday_shift(dow: int, target: int) -> int {
    7 - ((dow - target) % 7)
}

/// Days from a day with weekday index `dow` back to the closest day, today
/// included, with weekday index `target`.
pub open spec fn prev_weekday_shift(dow: int, target: int) -> int {
    (dow - target) % 7
}

/// Days forward from a day with weekday index `dow` to the next strictly
/// later non-weekend day.
pub open spec fn next_any_weekday_shift(dow: int) -> int {
    if dow == 4 { 3 } else if dow == 5 { 2 } else { 1 }
}

/// Monday of the week holding the given day.
pub open spec fn week_start(days: int) -> int {
    days - ((days - 1) % 7)
}

/// The week number used by the `Weeks` alignment rule.
pub open spec fn week_num(days: int) -> int {
    days / 7
}

/// The boundary-aligned instant strictly after `t`, by variant:
/// multiples of `n` seconds since the Unix epoch, multiples of `n` minutes
/// or hours since `t`'s own midnight, multiples of `n` days or weeks since
/// the start of the era (materialized at midnight), or the next matching
/// weekday at midnight. Zero-count numeric intervals leave `t` unchanged.
pub open spec fn next_spec(ival: Interval, t: Instant) -> Instant {
    match ival {
        Interval::Seconds(n) => if n == 0 { t } else {
            instant_of_ts(t.ts() + ((n as int) - t.ts() % (n as int)), 0)
        },
        Interval::Minutes(n) => if n == 0 { t } else {
            instant_of_ts(
                t.midnight_ts() + (t.secs as int) + (60 * (n as int) - (t.secs as int) % (60 * (n as int))), 0)
        },
        Interval::Hours(n) => if n == 0 { t } else {
            instant_of_ts(
                t.midnight_ts() + (t.secs as int) + (3600 * (n as int) - (t.secs as int) % (3600 * (n as int))), 0)
        },
        Interval::Days(n) => if n == 0 { t } else {
            day_start(t.days + ((n as int) - (t.days as int) % (n as int)))
        },
        Interval::Weeks(n) => if n == 0 { t } else {
            day_start(week_start(t.days as int) + 7 * ((n as int) - week_num(t.days as int) % (n as int)))
        },
        Interval::Weekday => day_start(t.days + next_any_weekday_shift(t.weekday_index())),
        _ => day_start(t.days + next_weekday_shift(t.weekday_index(), weekday_num(ival))),
    }
}

/// A remainder adjusted so that an exact boundary steps back one full
/// period: this is what makes `prev` return the previous distinct boundary.
pub open spec fn prev_mod(m: int, p: int) -> int {
    if m == 0 { p } else { m }
}

/// Days back from a day with weekday index `dow` to the most recent
/// non-weekend day: zero for a weekday with time left in the day, otherwise
/// the previous distinct non-weekend day.
pub open spec fn prev_any_weekday_shift(dow: int, secs: u32) -> int {
    if dow == 5 {
        1
    } else if dow == 6 {
        2
    } else if secs == 0 {
        if dow == 0 { 3 } else { 1 }
    } else {
        0
    }
}

/// The most recent boundary-aligned instant at or before `t`, by the same
/// alignment rules as `next_spec` — except that an instant exactly on a
/// boundary steps back to the previous distinct boundary. Zero-count
/// numeric intervals leave `t` unchanged.
pub open spec fn prev_spec(ival: Interval, t: Instant) -> Instant {
    match ival {
        Interval::Seconds(n) => if n == 0 { t } else {
            instant_of_ts(t.ts() - prev_mod(t.ts() % (n as int), n as int), 0)
        },
        Interval::Minutes(n) => if n == 0 { t } else {
            instant_of_ts(
                t.midnight_ts() + (t.secs as int)
                    - prev_mod((t.secs as int) % (60 * (n as int)), 60 * (n as int)), 0)
        },
        Interval::Hours(n) => if n == 0 { t } else {
            instant_of_ts(
                t.midnight_ts() + (t.secs as int)
                    - prev_mod((t.secs as int) % (3600 * (n as int)), 3600 * (n as int)), 0)
        },
        Interval::Days(n) => if n == 0 { t } else {
            day_start(t.days - (
                if (t.days as int) % (n as int) == 0 && t.secs == 0 {
                    n as int
                } else {
                    (t.days as int) % (n as int)
                }))
        },
        Interval::Weeks(n) => if n == 0 { t } else {
            day_start(week_start(t.days as int) - 7 * (
                if week_num(t.days as int) % (n as int) == 0 && t.secs == 0 {
                    n as int
                } else {
                    week_num(t.days as int) % (n as int)
                }))
        },
        Interval::Weekday => day_start(t.days - prev_any_weekday_shift(t.weekday_index(), t.secs)),
        _ => day_start(t.days - (
            if prev_weekday_shift(t.weekday_index(), weekday_num(ival)) == 0 && t.secs == 0 {
                7
            } else {
                prev_weekday_shift(t.weekday_index(), weekday_num(ival))
            })),
    }
}

/// One unconditional step of the interval from `t`: numeric variants add
/// exactly their length, keeping the time of day and the sub-second part,
/// with no alignment to a calendar grid; weekday variants still align to
/// the next matching midnight, exactly as `next` does.
pub open spec fn next_from_spec(ival: Interval, t: Instant) -> Instant {
    match ival {
        Interval::Seconds(n) => if n == 0 { t } else {
            instant_of_ts(t.ts() + (n as int), t.nanos)
        },
        Interval::Minutes(n) => if n == 0 { t } else {
            instant_of_ts(t.ts() + 60 * (n as int), t.nanos)
        },
        Interval::Hours(n) => if n == 0 { t } else {
            instant_of_ts(t.ts() + 3600 * (n as int), t.nanos)
        },
        Interval::Days(n) => if n == 0 { t } else {
            Instant { days: (t.days + (n as int)) as i64, secs: t.secs, nanos: t.nanos }
        },
        Interval::Weeks(n) => if n == 0 { t } else {
            Instant { days: (t.days + 7 * (n as int)) as i64, secs: t.secs, nanos: t.nanos }
        },
        _ => next_spec(ival, t),
    }
}

/// The weekday index an interval denotes: 0 for Monday through 6 for
/// Sunday, 7 for every other variant.
fn day_of_week(i: Interval) -> (r: usize)
    ensures
        r as int == weekday_num(i),
{
    match i {
        Interval::Monday => 0,
        Interval::Tuesday => 1,
        Interval::Wednesday => 2,
        Interval::Thursday => 3,
        Interval::Friday => 4,
        Interval::Saturday => 5,
        Interval::Sunday => 6,
        _ => 7,
    }
}

/// Whole seconds since the Unix epoch.
fn timestamp_of(t: &Instant) -> (r: i64)
    requires
        t.wf(),
    ensures
        r as int == t.ts(),
{
    (t.days - EPOCH_DAY) * 86400 + t.secs as i64
}

/// Day of the week of `t` as an index, 0 = Monday ... 6 = Sunday.
fn weekday_index_of(t: &Instant) -> (r: i64)
    requires
        t.wf(),
    ensures
        r as int == t.weekday_index(),
        0 <= r < 7,
{
    proof {
        lemma_mod_bound(t.days as int - 1, 7);
    }
    (t.days - 1).checked_rem_euclid(7).unwrap()
}

impl Interval {
    /// The boundary-aligned instant strictly after `from`; `next_spec`
    /// states the exact value for every variant.
    pub fn next(&self, from: &Instant) -> (r: Instant)
        requires
            ok_for(*self, *from),
        ensures
            r == next_spec(*self, *from),
            r.wf(),
            from.days - span_days(*self) <= r.days <= from.days + span_days(*self),
    {
        match *self {
            Interval::Seconds(n) => {
                if n == 0 {
                    return *from;
                }
                let ts: i64 = timestamp_of(from);
                proof {
                    lemma_mod_bound(ts as int, n as int);
                }
                let m: i64 = ts.checked_rem_euclid(n as i64).unwrap();
                let delta: u64 = (n as i64 - m) as u64;
                proof {
                    lemma_div_is_ordered(delta as int, n as int, 86400);
                }
                let r = from.truncated().plus_secs(delta);
                proof {
                    lemma_instant_of_ts_inverse(r);
                }
                r
            }
            Interval::Minutes(n) => {
                if n == 0 {
                    return *from;
                }
                let p: u64 = 60 * n as u64;
                let md: u64 = from.secs as u64 % p;
                let delta: u64 = p - md;
                proof {
                    lemma_div_is_ordered(delta as int, p as int, 86400);
                }
                let r = from.truncated().plus_secs(delta);
                proof {
                    lemma_instant_of_ts_inverse(r);
                }
                r
            }
            Interval::Hours(n) => {
                if n == 0 {
                    return *from;
                }
                let p: u64 = 3600 * n as u64;
                let md: u64 = from.secs as u64 % p;
                let delta: u64 = p - md;
                proof {
                    lemma_div_is_ordered(delta as int, p as int, 86400);
                }
                let r = from.truncated().plus_secs(delta);
                proof {
                    lemma_instant_of_ts_inverse(r);
                }
                r
            }
            Interval::Days(n) => {
                if n == 0 {
                    return *from;
                }
                proof {
                    lemma_mod_bound(from.days as int, n as int);
                }
                let m: i64 = from.days.checked_rem_euclid(n as i64).unwrap();
                Instant { days: from.days + (n as i64 - m), secs: 0, nanos: 0 }
            }
            Interval::Weeks(n) => {
                if n == 0 {
                    return *from;
                }
                let dow: i64 = weekday_index_of(from);
                let sow: i64 = from.days - dow;
                proof {
                    lemma_fundamental_div_mod(from.days as int, 7);
                    lemma_mod_bound(from.days as int, 7);
                }
                let wn: i64 = from.days.checked_div_euclid(7).unwrap();
                proof {
                    lemma_mod_bound(wn as int, n as int);
                }
                let m: i64 = wn.checked_rem_euclid(n as i64).unwrap();
                Instant { days: sow + 7 * (n as i64 - m), secs: 0, nanos: 0 }
            }
            Interval::Weekday => {
                let dow: i64 = weekday_index_of(from);
                let sh: i64 = if dow == 4 { 3 } else if dow == 5 { 2 } else { 1 };
                Instant { days: from.days + sh, secs: 0, nanos: 0 }
            }
            _ => {
                let dow: i64 = weekday_index_of(from);
                let j: i64 = day_of_week(*self) as i64;
                proof {
                    lemma_mod_bound(dow as int - j as int, 7);
                }
                let sh: i64 = 7 - (dow - j).checked_rem_euclid(7).unwrap();
                Instant { days: from.days + sh, secs: 0, nanos: 0 }
            }
        }
    }

    /// The most recent boundary-aligned instant at or before `from`, where
    /// an instant exactly on a boundary steps back to the previous distinct
    /// boundary; `prev_spec` states the exact value for every variant.
    pub fn prev(&self, from: &Instant) -> (r: Instant)
        requires
            ok_for(*self, *from),
        ensures
            r == prev_spec(*self, *from),
            r.wf(),
            from.days - span_days(*self) <= r.days <= from.days + span_days(*self),
    {
        match *self {
            Interval::Seconds(n) => {
                if n == 0 {
                    return *from;
                }
                let ts: i64 = timestamp_of(from);
                proof {
                    lemma_mod_bound(ts as int, n as int);
                }
                let m: i64 = ts.checked_rem_euclid(n as i64).unwrap();
                let delta: u64 = if m == 0 { n as u64 } else { m as u64 };
                proof {
                    lemma_div_is_ordered(delta as int, n as int, 86400);
                }
                let r = from.truncated().minus_secs(delta);
                proof {
                    lemma_instant_of_ts_inverse(r);
                }
                r
            }
            Interval::Minutes(n) => {
                if n == 0 {
                    return *from;
                }
                let p: u64 = 60 * n as u64;
                let md: u64 = from.secs as u64 % p;
                let delta: u64 = if md == 0 { p } else { md };
                proof {
                    lemma_div_is_ordered(delta as int, p as int, 86400);
                }
                let r = from.truncated().minus_secs(delta);
                proof {
                    lemma_instant_of_ts_inverse(r);
                }
                r
            }
            Interval::Hours(n) => {
                if n == 0 {
                    return *from;
                }
                let p: u64 = 3600 * n as u64;
                let md: u64 = from.secs as u64 % p;
                let delta: u64 = if md == 0 { p } else { md };
                proof {
                    lemma_div_is_ordered(delta as int, p as int, 86400);
                }
                let r = from.truncated().minus_secs(delta);
                proof {
                    lemma_instant_of_ts_inverse(r);
                }
                r
            }
            Interval::Days(n) => {
                if n == 0 {
                    return *from;
                }
                proof {
                    lemma_mod_bound(from.days as int, n as int);
                }
                let m: i64 = from.days.checked_rem_euclid(n as i64).unwrap();
                let m: i64 = if m == 0 && from.secs == 0 { n as i64 } else { m };
                Instant { days: from.days - m, secs: 0, nanos: 0 }
            }
            Interval::Weeks(n) => {
                if n == 0 {
                    return *from;
                }
                let dow: i64 = weekday_index_of(from);
                let sow: i64 = from.days - dow;
                proof {
                    lemma_fundamental_div_mod(from.days as int, 7);
                    lemma_mod_bound(from.days as int, 7);
                }
                let wn: i64 = from.days.checked_div_euclid(7).unwrap();
                proof {
                    lemma_mod_bound(wn as int, n as int);
                }
                let m: i64 = wn.checked_rem_euclid(n as i64).unwrap();
                let m: i64 = if m == 0 && from.secs == 0 { n as i64 } else { m };
                Instant { days: sow - 7 * m, secs: 0, nanos: 0 }
            }
            Interval::Weekday => {
                let dow: i64 = weekday_index_of(from);
                let sh: i64 = if dow == 5 {
                    1
                } else if dow == 6 {
                    2
                } else if from.secs == 0 {
                    if dow == 0 { 3 } else { 1 }
                } else {
                    0
                };
                Instant { days: from.days - sh, secs: 0, nanos: 0 }
            }
            _ => {
                let dow: i64 = weekday_index_of(from);
                let j: i64 = day_of_week(*self) as i64;
                proof {
                    lemma_mod_bound(dow as int - j as int, 7);
                }
                let sh: i64 = (dow - j).checked_rem_euclid(7).unwrap();
                let sh: i64 = if sh == 0 && from.secs == 0 { 7 } else { sh };
                Instant { days: from.days - sh, secs: 0, nanos: 0 }
            }
        }
    }

    /// One unconditional step forward from `from`, with no alignment for
    /// the numeric variants; `next_from_spec` states the exact value. This
    /// is what spaces repeat bursts evenly from their first fire.
    pub fn next_from(&self, from: &Instant) -> (r: Instant)
        requires
            ok_for(*self, *from),
        ensures
            r == next_from_spec(*self, *from),
            r.wf(),
            from.days - span_days(*self) <= r.days <= from.days + span_days(*self),
    {
        match *self {
            Interval::Seconds(n) => {
                if n == 0 {
                    return *from;
                }
                proof {
                    lemma_div_is_ordered(n as int, n as int, 86400);
                }
                let r = from.plus_secs(n as u64);
                proof {
                    lemma_instant_of_ts_inverse(r);
                }
                r
            }
            Interval::Minutes(n) => {
                if n == 0 {
                    return *from;
                }
                let p: u64 = 60 * n as u64;
                let r = from.plus_secs(p);
                proof {
                    lemma_instant_of_ts_inverse(r);
                }
                r
            }
            Interval::Hours(n) => {
                if n == 0 {
                    return *from;
                }
                let p: u64 = 3600 * n as u64;
                let r = from.plus_secs(p);
                proof {
                    lemma_instant_of_ts_inverse(r);
                }
                r
            }
            Interval::Days(n) => {
                if n == 0 {
                    return *from;
                }
                Instant { days: from.days + n as i64, secs: from.secs, nanos: from.nanos }
            }
            Interval::Weeks(n) => {
                if n == 0 {
                    return *from;
                }
                Instant { days: from.days + 7 * n as i64, secs: from.secs, nanos: from.nanos }
            }
            _ => self.next(from),
        }
    }
}

pub proof fn lemma_span_days_pos(ival: Interval)
    ensures
        span_days(ival) >= 1,
{
    match ival {
        Interval::Seconds(n) => { lemma_div_pos_is_pos(n as int, 86400); }
        Interval::Minutes(n) => { lemma_div_pos_is_pos(60 * (n as int), 86400); }
        Interval::Hours(n) => { lemma_div_pos_is_pos(3600 * (n as int), 86400); }
        _ => {}
    }
}

/// One period of a numeric interval stays under its day span, with a day
/// of slack to spare.
proof fn lemma_period_le_span(ival: Interval)
    requires
        ival matches Interval::Seconds(_) || ival matches Interval::Minutes(_)
            || ival matches Interval::Hours(_),
    ensures
        0 <= period_secs(ival) <= (span_days(ival) - 1) * 86400 - 1,
{
    let p = period_secs(ival);
    lemma_fundamental_div_mod(p, 86400);
    lemma_mod_bound(p, 86400);
}

/// Decomposing `t.ts() + delta` lands between `t.days` and
/// `t.days + span` when `delta` stays under `span` days.
proof fn lemma_step_up(t: Instant, delta: int, span: int)
    requires
        t.wf(),
        0 < delta,
        1 <= span,
        delta <= (span - 1) * 86400,
        t.days + span <= MAX_DAY,
    ensures
        instant_of_ts(t.ts() + delta, 0).wf(),
        instant_of_ts(t.ts() + delta, 0).ts() == t.ts() + delta,
        instant_of_ts(t.ts() + delta, 0).nanos == 0,
        t.days <= instant_of_ts(t.ts() + delta, 0).days <= t.days + span,
{
    let d: int = 86400;
    let k: int = t.days - EPOCH_DAY + span;
    let ts2: int = t.ts() + delta;
    assert(ts2 <= k * d - 1) by (nonlinear_arith)
        requires
            ts2 == (t.days - EPOCH_DAY) * d + t.secs + delta,
            t.secs < d,
            delta <= (span - 1) * d,
            k == t.days - EPOCH_DAY + span,
            d == 86400;
    assert((-MAX_DAY - EPOCH_DAY) * d <= ts2 && ts2 <= (MAX_DAY - EPOCH_DAY) * d)
        by (nonlinear_arith)
        requires
            ts2 == (t.days - EPOCH_DAY) * d + t.secs + delta,
            0 <= t.secs,
            0 < delta,
            ts2 <= k * d - 1,
            k <= MAX_DAY - EPOCH_DAY,
            -MAX_DAY <= t.days,
            d == 86400;
    lemma_instant_of_ts_props(ts2, 0);
    // upper day bound: ts2 <= k*d - 1, whose quotient is k - 1
    assert(k * d - 1 == (k - 1) * d + (d - 1)) by (nonlinear_arith);
    lemma_fundamental_div_mod_converse_div(k * d - 1, d, k - 1, d - 1);
    lemma_div_is_ordered(ts2, k * d - 1, d);
    // lower day bound
    vstd::arithmetic::div_mod::lemma_div_multiples_vanish(t.days - EPOCH_DAY, d);
    assert((t.days - EPOCH_DAY) * d == d * (t.days - EPOCH_DAY)) by (nonlinear_arith);
    lemma_div_is_ordered((t.days - EPOCH_DAY) * d, ts2, d);
}

/// Decomposing `t.ts() - delta` lands between `t.days - span` and `t.days`
/// when `delta` stays under `span` days.
proof fn lemma_step_down(t: Instant, delta: int, span: int)
    requires
        t.wf(),
        0 < delta,
        1 <= span,
        delta <= (span - 1) * 86400,
        -MAX_DAY <= t.days - span,
    ensures
        instant_of_ts(t.ts() - delta, 0).wf(),
        instant_of_ts(t.ts() - delta, 0).ts() == t.ts() - delta,
        instant_of_ts(t.ts() - delta, 0).nanos == 0,
        t.days - span <= instant_of_ts(t.ts() - delta, 0).days <= t.days,
{
    let d: int = 86400;
    let ts2: int = t.ts() - delta;
    assert((-MAX_DAY - EPOCH_DAY) * d <= ts2 && ts2 <= (MAX_DAY - EPOCH_DAY) * d + (d - 1))
        by (nonlinear_arith)
        requires
            0 < delta <= (span - 1) * d,
            -MAX_DAY <= t.days - span,
            t.days <= MAX_DAY,
            0 <= t.secs < d,
            ts2 == (t.days - EPOCH_DAY) * d + t.secs - delta,
            d == 86400;
    lemma_instant_of_ts_props(ts2, 0);
    // upper bound: ts2 <= t.ts() < (t.days - EPOCH_DAY + 1) * d
    lemma_div_is_ordered(ts2, (t.days - EPOCH_DAY) * d + t.secs, d);
    lemma_fundamental_div_mod_converse_div((t.days - EPOCH_DAY) * d + t.secs, d,
        t.days - EPOCH_DAY, t.secs as int);
    // lower bound: ts2 >= (t.days - span - EPOCH_DAY) * d
    assert((t.days - span - EPOCH_DAY) * d <= ts2) by (nonlinear_arith)
        requires
            ts2 == (t.days - EPOCH_DAY) * d + t.secs - delta,
            delta <= (span - 1) * d,
            0 <= t.secs,
            d == 86400;
    lemma_div_is_ordered((t.days - span - EPOCH_DAY) * d, ts2, d);
    vstd::arithmetic::div_mod::lemma_div_multiples_vanish(t.days - span - EPOCH_DAY, d);
    assert((t.days - span - EPOCH_DAY) * d == d * (t.days - span - EPOCH_DAY))
        by (nonlinear_arith);
}

/// `next_spec` keeps well-formedness, moves at most a span of days, and —
/// for an interval that is not a zero count — lands strictly after its
/// argument, on a whole second.
pub proof fn lemma_next_spec_props(ival: Interval, t: Instant)
    requires
        ok_for(ival, t),
    ensures
        next_spec(ival, t).wf(),
        t.days - span_days(ival) <= next_spec(ival, t).days <= t.days + span_days(ival),
        !is_zero(ival) ==> t.spec_lt(next_spec(ival, t)),
        !is_zero(ival) ==> next_spec(ival, t).nanos == 0,
        !is_zero(ival) && period_secs(ival) > 0 ==> t.ts() < next_spec(ival, t).ts()
            <= t.ts() + period_secs(ival),
        is_zero(ival) ==> next_spec(ival, t) == t,
        match ival {
            Interval::Seconds(n) => n != 0 ==> next_spec(ival, t).ts()
                == t.ts() + ((n as int) - t.ts() % (n as int)),
            Interval::Minutes(n) => n != 0 ==> next_spec(ival, t).ts()
                == t.ts() + (60 * (n as int) - (t.secs as int) % (60 * (n as int))),
            Interval::Hours(n) => n != 0 ==> next_spec(ival, t).ts()
                == t.ts() + (3600 * (n as int) - (t.secs as int) % (3600 * (n as int))),
            _ => true,
        },
{
    lemma_span_days_pos(ival);
    match ival {
        Interval::Seconds(n) => {
            if n != 0 {
                lemma_mod_bound(t.ts(), n as int);
                lemma_period_le_span(ival);
                lemma_step_up(t, (n as int) - t.ts() % (n as int), span_days(ival));
            }
        }
        Interval::Minutes(n) => {
            if n != 0 {
                let p = 60 * (n as int);
                lemma_mod_bound(t.secs as int, p);
                lemma_period_le_span(ival);
                lemma_step_up(t, p - (t.secs as int) % p, span_days(ival));
            }
        }
        Interval::Hours(n) => {
            if n != 0 {
                let p = 3600 * (n as int);
                lemma_mod_bound(t.secs as int, p);
                lemma_period_le_span(ival);
                lemma_step_up(t, p - (t.secs as int) % p, span_days(ival));
            }
        }
        Interval::Days(n) => {
            if n != 0 {
                lemma_mod_bound(t.days as int, n as int);
                let r = next_spec(ival, t);
                assert(r.days == t.days + ((n as int) - (t.days as int) % (n as int)));
                lemma_ts_order(t, r);
            }
        }
        Interval::Weeks(n) => {
            if n != 0 {
                lemma_mod_bound(t.days as int - 1, 7);
                lemma_fundamental_div_mod(t.days as int, 7);
                lemma_mod_bound(t.days as int, 7);
                lemma_mod_bound(week_num(t.days as int), n as int);
                let r = next_spec(ival, t);
                assert(7 * ((n as int) - week_num(t.days as int) % (n as int)) >= 7);
                assert(7 * ((n as int) - week_num(t.days as int) % (n as int)) <= 7 * (n as int))
                    by (nonlinear_arith)
                    requires week_num(t.days as int) % (n as int) >= 0;
                lemma_ts_order(t, r);
            }
        }
        _ => {
            lemma_mod_bound(t.days as int - 1, 7);
            let r = next_spec(ival, t);
            if ival is Weekday {
                lemma_ts_order(t, r);
            } else {
                lemma_mod_bound(t.weekday_index() - weekday_num(ival), 7);
                lemma_ts_order(t, r);
            }
        }
    }
}

/// `prev_spec` keeps well-formedness, moves at most a span of days, and —
/// for an interval that is not a zero count — lands strictly before its
/// argument, on a whole second: an instant exactly on a boundary steps
/// back to the previous distinct boundary.
pub proof fn lemma_prev_spec_props(ival: Interval, t: Instant)
    requires
        ok_for(ival, t),
    ensures
        prev_spec(ival, t).wf(),
        t.days - span_days(ival) <= prev_spec(ival, t).days <= t.days + span_days(ival),
        !is_zero(ival) ==> prev_spec(ival, t).spec_lt(t),
        !is_zero(ival) ==> prev_spec(ival, t).nanos == 0,
        is_zero(ival) ==> prev_spec(ival, t) == t,
{
    lemma_span_days_pos(ival);
    match ival {
        Interval::Seconds(n) => {
            if n != 0 {
                lemma_mod_bound(t.ts(), n as int);
                lemma_period_le_span(ival);
                lemma_step_down(t, prev_mod(t.ts() % (n as int), n as int), span_days(ival));
            }
        }
        Interval::Minutes(n) => {
            if n != 0 {
                let p = 60 * (n as int);
                lemma_mod_bound(t.secs as int, p);
                lemma_period_le_span(ival);
                lemma_step_down(t, prev_mod((t.secs as int) % p, p), span_days(ival));
            }
        }
        Interval::Hours(n) => {
            if n != 0 {
                let p = 3600 * (n as int);
                lemma_mod_bound(t.secs as int, p);
                lemma_period_le_span(ival);
                lemma_step_down(t, prev_mod((t.secs as int) % p, p), span_days(ival));
            }
        }
        Interval::Days(n) => {
            if n != 0 {
                lemma_mod_bound(t.days as int, n as int);
                let r = prev_spec(ival, t);
                lemma_ts_order(r, t);
            }
        }
        Interval::Weeks(n) => {
            if n != 0 {
                lemma_mod_bound(t.days as int - 1, 7);
                lemma_fundamental_div_mod(t.days as int, 7);
                lemma_mod_bound(t.days as int, 7);
                lemma_mod_bound(week_num(t.days as int), n as int);
                let r = prev_spec(ival, t);
                let m = if week_num(t.days as int) % (n as int) == 0 && t.secs == 0 {
                    n as int
                } else {
                    week_num(t.days as int) % (n as int)
                };
                assert(0 <= 7 * m <= 7 * (n as int)) by (nonlinear_arith)
                    requires 0 <= m <= n as int;
                lemma_ts_order(r, t);
            }
        }
        _ => {
            lemma_mod_bound(t.days as int - 1, 7);
            let r = prev_spec(ival, t);
            if ival is Weekday {
                lemma_ts_order(r, t);
            } else {
                lemma_mod_bound(t.weekday_index() - weekday_num(ival), 7);
                lemma_ts_order(r, t);
            }
        }
    }
}

/// `next_from_spec` keeps well-formedness, moves at most a span of days,
/// and — for an interval that is not a zero count — lands strictly after
/// its argument.
pub proof fn lemma_next_from_spec_props(ival: Interval, t: Instant)
    requires
        ok_for(ival, t),
    ensures
        next_from_spec(ival, t).wf(),
        t.days - span_days(ival) <= next_from_spec(ival, t).days <= t.days + span_days(ival),
        !is_zero(ival) ==> t.spec_lt(next_from_spec(ival, t)),
        !is_zero(ival) ==> t.ts() < next_from_spec(ival, t).ts(),
        is_zero(ival) ==> next_from_spec(ival, t) == t,
{
    lemma_span_days_pos(ival);
    match ival {
        Interval::Seconds(n) => {
            if n != 0 {
                lemma_period_le_span(ival);
                lemma_step_up_keep_nanos(t, n as int, span_days(ival));
            }
        }
        Interval::Minutes(n) => {
            if n != 0 {
                lemma_period_le_span(ival);
                lemma_step_up_keep_nanos(t, 60 * (n as int), span_days(ival));
            }
        }
        Interval::Hours(n) => {
            if n != 0 {
                lemma_period_le_span(ival);
                lemma_step_up_keep_nanos(t, 3600 * (n as int), span_days(ival));
            }
        }
        Interval::Days(n) => {
            if n != 0 {
                let r = next_from_spec(ival, t);
                lemma_ts_order(t, r);
            }
        }
        Interval::Weeks(n) => {
            if n != 0 {
                let r = next_from_spec(ival, t);
                assert(7 <= 7 * (n as int) <= span_days(ival)) by (nonlinear_arith)
                    requires 1 <= n as int, span_days(ival) == 7 * (n as int) + 7;
                lemma_ts_order(t, r);
            }
        }
        _ => {
            lemma_next_spec_props(ival, t);
        }
    }
}

/// Like `lemma_step_up`, for a step that keeps the sub-second part.
proof fn lemma_step_up_keep_nanos(t: Instant, delta: int, span: int)
    requires
        t.wf(),
        0 < delta,
        1 <= span,
        delta <= (span - 1) * 86400,
        t.days + span <= MAX_DAY,
    ensures
        instant_of_ts(t.ts() + delta, t.nanos).wf(),
        instant_of_ts(t.ts() + delta, t.nanos).ts() == t.ts() + delta,
        instant_of_ts(t.ts() + delta, t.nanos).nanos == t.nanos,
        t.days <= instant_of_ts(t.ts() + delta, t.nanos).days <= t.days + span,
{
    lemma_step_up(t, delta, span);
    assert(instant_of_ts(t.ts() + delta, t.nanos).days == instant_of_ts(t.ts() + delta, 0).days);
    assert(instant_of_ts(t.ts() + delta, t.nanos).secs == instant_of_ts(t.ts() + delta, 0).secs);
}

/// A convenience trait, implemented for `u32`, for writing intervals as
/// `5.seconds()`, `3.days()` and so on. Plural and singular forms behave
/// identically.
pub trait TimeUnits: Sized {
    /// The count this value denotes.
    spec fn spec_count(self) -> u32;

    fn seconds(self) -> (r: Interval)
        ensures
            r == Interval::Seconds(self.spec_count()),
    ;

    fn minutes(self) -> (r: Interval)
        ensures
            r == Interval::Minutes(self.spec_count()),
    ;

    fn hours(self) -> (r: Interval)
        ensures
            r == Interval::Hours(self.spec_count()),
    ;

    fn days(self) -> (r: Interval)
        ensures
            r == Interval::Days(self.spec_count()),
    ;

    fn weeks(self) -> (r: Interval)
        ensures
            r == Interval::Weeks(self.spec_count()),
    ;

    fn second(self) -> (r: Interval)
        ensures
            r == Interval::Seconds(self.spec_count()),
    ;

    fn minute(self) -> (r: Interval)
        ensures
            r == Interval::Minutes(self.spec_count()),
    ;

    fn hour(self) -> (r: Interval)
        ensures
            r == Interval::Hours(self.spec_count()),
    ;

    fn day(self) -> (r: Interval)
        ensures
            r == Interval::Days(self.spec_count()),
    ;

    fn week(self) -> (r: Interval)
        ensures
            r == Interval::Weeks(self.spec_count()),
    ;
}

impl TimeUnits for u32 {
    open spec fn spec_count(self) -> u32 {
        self
    }

    fn seconds(self) -> Interval {
        Interval::Seconds(self)
    }

    fn minutes(self) -> Interval {
        Interval::Minutes(self)
    }

    fn hours(self) -> Interval {
        Interval::Hours(self)
    }

    fn days(self) -> Interval {
        Interval::Days(self)
    }

    fn weeks(self) -> Interval {
        Interval::Weeks(self)
    }

    fn second(self) -> Interval {
        Interval::Seconds(self)
    }

    fn minute(self) -> Interval {
        Interval::Minutes(self)
    }

    fn hour(self) -> Interval {
        Interval::Hours(self)
    }

    fn day(self) -> Interval {
        Interval::Days(self)
    }

    fn week(self) -> Interval {
        Interval::Weeks(self)
    }
}

} // verus!
