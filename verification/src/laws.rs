//! The guarantees this library makes of its scheduling rules, stated and
//! proved once over the specifications that the executable functions are
//! verified against.

use vstd::prelude::*;
use vstd::arithmetic::div_mod::{
    lemma_fundamental_div_mod, lemma_fundamental_div_mod_converse_div, lemma_mod_bound,
    lemma_mod_multiples_basic,
};
use crate::instant::{Instant, EPOCH_DAY, MAX_DAY};
use crate::intervals::{
    is_zero, lemma_next_spec_props, lemma_prev_spec_props, next_spec, ok_for, period_secs,
    prev_spec, span_days, week_num, week_start, Interval,
};
use crate::run_config::{rc_next_spec, RunConfig};
use crate::job_schedule::{
    advance_count, advanced_from, becomes_never, repeat_active, spec_is_pending,
    union_next_spec, JobSchedule, RunCount,
};

verus! {

/// A zero-count interval is the identity: for any instant `t`, both
/// `next` and `prev` — and the unaligned `next_from` step — return `t`
/// unchanged, for every numeric variant.
pub proof fn lemma_zero_interval_identity(ival: Interval, t: Instant)
    requires
        is_zero(ival),
    ensures
        next_spec(ival, t) == t,
        prev_spec(ival, t) == t,
        crate::intervals::next_from_spec(ival, t) == t,
{
}

/// Boundary monotonicity: for a positive count, `next` lands strictly
/// after its argument; so does `next` of a named weekday or of `Weekday`.
pub proof fn lemma_next_strictly_after(ival: Interval, t: Instant)
    requires
        ok_for(ival, t),
        !is_zero(ival),
    ensures
        t.spec_lt(next_spec(ival, t)),
{
    lemma_next_spec_props(ival, t);
}

/// Exact-boundary asymmetry: for a positive count, `prev` lands strictly
/// before its argument — in particular, an instant exactly on a boundary
/// steps back to the previous distinct boundary, never to itself.
pub proof fn lemma_prev_strictly_before(ival: Interval, t: Instant)
    requires
        ok_for(ival, t),
        !is_zero(ival),
    ensures
        prev_spec(ival, t).spec_lt(t),
{
    lemma_prev_spec_props(ival, t);
}

/// No boundary is skipped: any multiple of `n` seconds strictly after `t`
/// lies at or after `t`'s next seconds boundary.
pub proof fn lemma_seconds_no_boundary_between(n: u32, t: Instant, b: int)
    requires
        n > 0,
        ok_for(Interval::Seconds(n), t),
        b % (n as int) == 0,
        b > t.ts(),
    ensures
        next_spec(Interval::Seconds(n), t).ts() <= b,
{
    let p: int = n as int;
    lemma_next_spec_props(Interval::Seconds(n), t);
    lemma_fundamental_div_mod(t.ts(), p);
    lemma_fundamental_div_mod(b, p);
    lemma_mod_bound(t.ts(), p);
    let q: int = t.ts() / p;
    let k: int = b / p;
    if k <= q {
        assert(k * p <= q * p) by (nonlinear_arith)
            requires k <= q, p > 0;
        assert(p * k <= p * q) by (nonlinear_arith)
            requires k * p <= q * p;
        assert(false);
    }
    assert(p * (q + 1) <= p * k) by (nonlinear_arith)
        requires q + 1 <= k, p > 0;
    assert(p * (q + 1) == p * q + p) by (nonlinear_arith);
    assert(b == p * k);
    assert(next_spec(Interval::Seconds(n), t).ts() == p * q + p);
}

/// No boundary is skipped for day-count intervals: any day number that is
/// a multiple of `n` and whose midnight lies strictly after `t` lies at or
/// after `t`'s next boundary day.
pub proof fn lemma_days_no_boundary_between(n: u32, t: Instant, b: int)
    requires
        n > 0,
        ok_for(Interval::Days(n), t),
        b % (n as int) == 0,
        t.spec_lt(crate::instant::day_start(b)),
        -MAX_DAY <= b <= MAX_DAY,
    ensures
        next_spec(Interval::Days(n), t).days <= b,
{
    let p: int = n as int;
    lemma_next_spec_props(Interval::Days(n), t);
    lemma_fundamental_div_mod(t.days as int, p);
    lemma_fundamental_div_mod(b, p);
    lemma_mod_bound(t.days as int, p);
    let q: int = (t.days as int) / p;
    let k: int = b / p;
    // a midnight strictly after `t` lies on a strictly later day
    assert((b - EPOCH_DAY) * 86400 > (t.days - EPOCH_DAY) * 86400 + t.secs);
    assert(b > t.days) by (nonlinear_arith)
        requires
            (b - EPOCH_DAY) * 86400 > (t.days - EPOCH_DAY) * 86400 + t.secs,
            t.secs >= 0;
    if k <= q {
        assert(p * k <= p * q) by (nonlinear_arith)
            requires k <= q, p > 0;
        assert(false);
    }
    assert(p * (q + 1) <= p * k) by (nonlinear_arith)
        requires q + 1 <= k, p > 0;
    assert(p * (q + 1) == p * q + p) by (nonlinear_arith);
    assert(next_spec(Interval::Days(n), t).days == p * q + p);
}

/// No boundary is skipped for minute and hour intervals: any multiple of
/// the period past `t`'s own midnight that lies strictly after `t` lies
/// at or after `t`'s next boundary.
pub proof fn lemma_day_anchored_no_boundary_between(ival: Interval, t: Instant, j: int)
    requires
        ok_for(ival, t),
        !is_zero(ival),
        ival matches Interval::Minutes(_) || ival matches Interval::Hours(_),
        t.midnight_ts() + j * period_secs(ival) > t.ts(),
    ensures
        next_spec(ival, t).ts() <= t.midnight_ts() + j * period_secs(ival),
{
    let p: int = period_secs(ival);
    lemma_next_spec_props(ival, t);
    lemma_fundamental_div_mod(t.secs as int, p);
    lemma_mod_bound(t.secs as int, p);
    let sq: int = (t.secs as int) / p;
    assert(j * p > t.secs as int);
    if j <= sq {
        assert(j * p <= sq * p) by (nonlinear_arith)
            requires j <= sq, p > 0;
        assert(sq * p == p * sq) by (nonlinear_arith);
        assert(false);
    }
    assert(p * (sq + 1) <= p * j) by (nonlinear_arith)
        requires sq + 1 <= j, p > 0;
    assert(p * (sq + 1) == p * sq + p) by (nonlinear_arith);
    assert(p * j == j * p) by (nonlinear_arith);
    assert(next_spec(ival, t).ts() == t.midnight_ts() + p * sq + p);
}

/// The condition under which successive boundaries are one period apart:
/// minute and hour boundaries are anchored at each day's own midnight, so
/// their period must divide the day; the week number is anchored one day
/// apart from the Monday week start, so even spacing asks that the
/// instant not be a Sunday.
pub open spec fn evenly_spaced_ok(ival: Interval, t: Instant) -> bool {
    &&& !is_zero(ival)
    &&& period_secs(ival) > 0
    &&& t.wf()
    &&& t.days + 2 * span_days(ival) <= MAX_DAY
    &&& -MAX_DAY <= t.days - 2 * span_days(ival)
    &&& match ival {
        Interval::Minutes(n) => 86400int % (60 * (n as int)) == 0,
        Interval::Hours(n) => 86400int % (3600 * (n as int)) == 0,
        Interval::Weeks(_) => t.weekday_index() != 6,
        _ => true,
    }
}

/// Even spacing: taking `next` twice from `t` moves exactly one period
/// past the first boundary, for every fixed-unit variant within
/// `evenly_spaced_ok`.
pub proof fn lemma_next_evenly_spaced(ival: Interval, t: Instant)
    requires
        evenly_spaced_ok(ival, t),
    ensures
        next_spec(ival, next_spec(ival, t)).ts()
            == next_spec(ival, t).ts() + period_secs(ival),
{
    lemma_next_spec_props(ival, t);
    let r1 = next_spec(ival, t);
    lemma_next_spec_props(ival, r1);
    match ival {
        Interval::Seconds(n) => {
            let p: int = n as int;
            lemma_fundamental_div_mod(t.ts(), p);
            let q: int = t.ts() / p;
            assert(r1.ts() == p * q + p);
            assert(p * q + p == (q + 1) * p) by (nonlinear_arith);
            lemma_mod_multiples_basic(q + 1, p);
            assert(r1.ts() % p == 0);
        }
        Interval::Minutes(n) => {
            lemma_evenly_spaced_day_anchored(t, r1, 60 * (n as int));
        }
        Interval::Hours(n) => {
            lemma_evenly_spaced_day_anchored(t, r1, 3600 * (n as int));
        }
        Interval::Days(n) => {
            let p: int = n as int;
            lemma_mod_bound(t.days as int, p);
            lemma_fundamental_div_mod(t.days as int, p);
            let q: int = (t.days as int) / p;
            assert(r1.days == p * q + p);
            assert(p * q + p == (q + 1) * p) by (nonlinear_arith);
            lemma_mod_multiples_basic(q + 1, p);
            assert((r1.days as int) % p == 0);
        }
        Interval::Weeks(n) => {
            let w: int = n as int;
            let days: int = t.days as int;
            lemma_mod_bound(days - 1, 7);
            lemma_fundamental_div_mod(days - 1, 7);
            let q: int = (days - 1) / 7;
            let r: int = (days - 1) % 7;
            assert(days == 7 * q + r + 1);
            // the week number of `t`: r < 6, so days / 7 == q
            assert(7 * q + (r + 1) == q * 7 + (r + 1)) by (nonlinear_arith);
            lemma_fundamental_div_mod_converse_div(days, 7, q, r + 1);
            assert(week_num(days) == q);
            lemma_mod_bound(q, w);
            lemma_fundamental_div_mod(q, w);
            let m: int = q % w;
            assert(week_start(days) == 7 * q + 1);
            let d1: int = week_start(days) + 7 * (w - m);
            assert(r1.days == d1);
            assert(d1 == 7 * (q + w - m) + 1) by (nonlinear_arith)
                requires d1 == 7 * q + 1 + 7 * (w - m);
            // the first boundary is a Monday whose week number is a
            // multiple of w
            assert(7 * (q + w - m) == (q + w - m) * 7) by (nonlinear_arith);
            lemma_mod_multiples_basic(q + w - m, 7);
            assert((d1 - 1) % 7 == 0);
            lemma_fundamental_div_mod_converse_div(d1, 7, q + w - m, 1);
            assert(week_num(d1) == q + w - m);
            let qq: int = q / w;
            assert(q + w - m == w * qq + w) by (nonlinear_arith)
                requires q == w * qq + m;
            assert(w * qq + w == (qq + 1) * w) by (nonlinear_arith);
            lemma_mod_multiples_basic(qq + 1, w);
            assert(week_num(d1) % w == 0);
            assert(r1.weekday_index() == 0);
            assert(week_start(d1) == d1);
            let d2: int = week_start(d1) + 7 * (w - 0);
            assert(next_spec(ival, r1).days == d2);
        }
        _ => {
            assert(false);
        }
    }
}

/// The shared argument for minutes and hours: when the period `p` divides
/// the day, the first boundary's seconds-from-midnight are again aligned,
/// so the second step adds exactly `p`.
proof fn lemma_evenly_spaced_day_anchored(t: Instant, r1: Instant, p: int)
    requires
        t.wf(),
        r1.wf(),
        0 < p,
        86400int % p == 0,
        r1.ts() == t.ts() + (p - (t.secs as int) % p),
    ensures
        (r1.secs as int) % p == 0,
{
    let k: int = 86400int / p;
    lemma_fundamental_div_mod(86400int, p);
    assert(86400 == p * k);
    assert(k > 0) by (nonlinear_arith)
        requires p * k == 86400, p > 0;
    // r1.secs relates to r1.ts() by the day decomposition
    assert(r1.ts() == (r1.days - EPOCH_DAY) * 86400 + r1.secs);
    // every midnight count is a multiple of p
    assert((r1.days - EPOCH_DAY) * 86400 == ((r1.days - EPOCH_DAY) * k) * p)
        by (nonlinear_arith)
        requires 86400 == p * k;
    assert((t.days - EPOCH_DAY) * 86400 == ((t.days - EPOCH_DAY) * k) * p)
        by (nonlinear_arith)
        requires 86400 == p * k;
    lemma_mod_multiples_basic((r1.days - EPOCH_DAY) * k, p);
    lemma_mod_multiples_basic((t.days - EPOCH_DAY) * k, p);
    // t.ts() + (p - t.secs % p) is a multiple of p plus t's midnight
    lemma_fundamental_div_mod(t.secs as int, p);
    let sq: int = (t.secs as int) / p;
    assert(r1.ts() == (t.days - EPOCH_DAY) * 86400 + p * sq + p);
    assert((r1.days - EPOCH_DAY) * 86400 + r1.secs
        == (t.days - EPOCH_DAY) * 86400 + p * sq + p);
    let diff: int = ((t.days - EPOCH_DAY) * k - (r1.days - EPOCH_DAY) * k + sq + 1);
    assert(r1.secs as int == diff * p) by (nonlinear_arith)
        requires
            (r1.days - EPOCH_DAY) * 86400 + r1.secs
                == (t.days - EPOCH_DAY) * 86400 + p * sq + p,
            86400 == p * k,
            diff == (t.days - EPOCH_DAY) * k - (r1.days - EPOCH_DAY) * k + sq + 1;
    lemma_mod_multiples_basic(diff, p);
}

/// Union of schedules, earliest wins: the combined next occurrence is
/// never later than any single configuration's, and coincides with one of
/// them.
pub proof fn lemma_union_earliest_wins(freqs: Seq<RunConfig>, now: Instant, i: int)
    requires
        1 <= freqs.len(),
        0 <= i < freqs.len(),
    ensures
        union_next_spec(freqs, now).spec_le(rc_next_spec(freqs[i], now)),
        exists|j: int| 0 <= j < freqs.len()
            && union_next_spec(freqs, now) == rc_next_spec(#[trigger] freqs[j], now),
    decreases freqs.len(),
{
    let u = union_next_spec(freqs, now);
    if freqs.len() == 1 {
        assert(u == rc_next_spec(freqs[0], now));
    } else {
        let head = rc_next_spec(freqs[0], now);
        let rest = union_next_spec(freqs.drop_first(), now);
        lemma_union_earliest_wins(freqs.drop_first(), now, if i == 0 { 0 } else { i - 1 });
        if i > 0 {
            assert(freqs.drop_first()[i - 1] == freqs[i]);
        }
        let j0: int = choose|j: int| 0 <= j < freqs.drop_first().len()
            && union_next_spec(freqs.drop_first(), now)
                == rc_next_spec(#[trigger] freqs.drop_first()[j], now);
        assert(freqs.drop_first()[j0] == freqs[j0 + 1]);
        if head.spec_le(rest) {
            assert(u == rc_next_spec(freqs[0], now));
        } else {
            assert(u == rc_next_spec(freqs[j0 + 1], now));
        }
    }
}

/// An armed or rescheduled job with a pending next run is never due later
/// than any of its configurations alone would make it.
pub proof fn lemma_schedule_earliest_wins(pre: JobSchedule, post: JobSchedule, now: Instant, i: int)
    requires
        advanced_from(pre, post, now),
        pre.run_count != RunCount::Never,
        !becomes_never(pre.run_count),
        !repeat_active(pre),
        0 <= i < pre.frequency@.len(),
    ensures
        post.next_run matches Some(t) && t.spec_le(rc_next_spec(pre.frequency@[i], now)),
{
    lemma_union_earliest_wins(pre.frequency@, now, i);
}

/// Run-count exhaustion: advancing a schedule that was set to run once
/// (and carries no repeat burst) clears the next run and pins the count at
/// `Never`; the job is never pending again, and every further advance
/// leaves the schedule exactly as it is.
pub proof fn lemma_run_count_exhaustion(pre: JobSchedule, post: JobSchedule, now: Instant)
    requires
        advanced_from(pre, post, now),
        pre.run_count == RunCount::Times(1),
        pre.repeat_config is None,
    ensures
        post.next_run is None,
        post.run_count == RunCount::Never,
        forall|later: Instant| !spec_is_pending(post, later),
        forall|post2: JobSchedule, later: Instant|
            advanced_from(post, post2, later) ==> post2 == post,
{
    assert(advance_count(RunCount::Times(1)) == RunCount::Never);
    assert(becomes_never(RunCount::Times(1)));
}

} // verus!
