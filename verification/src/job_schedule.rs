use vstd::prelude::*;
use crate::instant::{lemma_ts_order, Instant, TimeOfDay, MAX_DAY};
use crate::intervals::{
    is_zero, lemma_next_from_spec_props, next_from_spec, span_days, Interval,
};
use crate::run_config::{rc_next_spec, Adjustment, RunConfig};
use crate::timeparse::{parse_time, time_parse_spec, TimeParseError};
use crate::timeprovider::ChronoTimeProvider;

verus! {

/// How many more times a job may fire: never again (terminal), a countdown,
/// or with no limit (the default).
#[derive(Debug, Clone, Copy, PartialEq, Eq, Structural)]
pub enum RunCount {
    Never,
    Times(usize),
    Forever,
}

/// A repeat burst attached to a schedule: every time the primary schedule
/// fires, the job fires `repeats` extra times spaced by `repeat_interval`,
/// before control returns to the primary schedule. `repeats_left` counts
/// the burst down and is reset whenever the primary schedule fires.
#[derive(Debug, Clone, Copy, PartialEq, Eq, Structural)]
pub struct RepeatConfig {
    pub repeats: usize,
    pub repeat_interval: Interval,
    pub repeats_left: usize,
}

/// The per-job scheduling state: one or more run configurations (a logical
/// union — the earliest wins), the run-count policy, an optional repeat
/// burst, and the next-run/last-run bookkeeping.
#[derive(Debug)]
pub struct JobSchedule {
    pub frequency: Vec<RunConfig>,
    pub next_run: Option<Instant>,
    pub last_run: Option<Instant>,
    pub run_count: RunCount,
    pub repeat_config: Option<RepeatConfig>,
    pub pending_repeat: Option<Interval>,
}

/// The earliest of the configurations' next fire instants after `now`.
pub open spec fn union_next_spec(freqs: Seq<RunConfig>, now: Instant) -> Instant
    decreases freqs.len(),
{
    if freqs.len() <= 1 {
        rc_next_spec(freqs[0], now)
    } else {
        let head = rc_next_spec(freqs[0], now);
        let rest = union_next_spec(freqs.drop_first(), now);
        if head.spec_le(rest) { head } else { rest }
    }
}

/// The run count after one execution: a countdown loses one run and ends
/// at `Never`; `Forever` and `Never` stay as they are.
pub open spec fn advance_count(c: RunCount) -> RunCount {
    match c {
        RunCount::Never => RunCount::Never,
        RunCount::Times(n) => if n > 1 { RunCount::Times((n - 1) as usize) } else {
            RunCount::Never
        },
        RunCount::Forever => RunCount::Forever,
    }
}

/// This execution is the last one the run count allows.
pub open spec fn becomes_never(c: RunCount) -> bool {
    c == RunCount::Never || advance_count(c) == RunCount::Never
}

/// The instant repeat catch-up starts from: the stored next run, or `now`
/// when none is stored.
pub open spec fn catch_up_start(s: JobSchedule, now: Instant) -> Instant {
    match s.next_run {
        Some(t) => t,
        None => now,
    }
}

/// The conditions under which repeat catch-up is well defined: the repeat
/// interval makes progress and the instants stay in range.
pub open spec fn catch_up_ok(ival: Interval, t: Instant, now: Instant) -> bool {
    &&& !is_zero(ival)
    &&& t.wf()
    &&& now.wf()
    &&& -MAX_DAY <= t.days - span_days(ival)
    &&& t.days + span_days(ival) <= MAX_DAY
    &&& now.days + 2 * span_days(ival) <= MAX_DAY
}

/// Applies `next_from` starting at `t` until the result lands strictly
/// after `now`. Repeats missed entirely while the process was not ticking
/// are skipped, rather than fired in a burst.
pub open spec fn catch_up_spec(ival: Interval, t: Instant, now: Instant) -> Instant
    decreases now.ts() + 1 - t.ts()
        when catch_up_ok(ival, t, now)
{
    let n = next_from_spec(ival, t);
    if now.spec_lt(n) {
        n
    } else {
        proof {
            lemma_next_from_spec_props(ival, t);
            lemma_catch_up_step(ival, t, now);
        }
        catch_up_spec(ival, n, now)
    }
}

/// One catch-up step keeps the catch-up conditions, as long as it has not
/// yet passed `now`.
pub proof fn lemma_catch_up_step(ival: Interval, t: Instant, now: Instant)
    requires
        catch_up_ok(ival, t, now),
        !now.spec_lt(next_from_spec(ival, t)),
    ensures
        catch_up_ok(ival, next_from_spec(ival, t), now),
        next_from_spec(ival, t).ts() > t.ts(),
        next_from_spec(ival, t).ts() <= now.ts(),
{
    lemma_next_from_spec_props(ival, t);
    let n = next_from_spec(ival, t);
    lemma_ts_order(n, now);
    lemma_ts_order(t, n);
}

/// The fields that the builder methods touching only `frequency` leave
/// unchanged.
pub open spec fn same_but_frequency(pre: JobSchedule, post: JobSchedule) -> bool {
    &&& post.next_run == pre.next_run
    &&& post.last_run == pre.last_run
    &&& post.run_count == pre.run_count
    &&& post.repeat_config == pre.repeat_config
    &&& post.pending_repeat == pre.pending_repeat
}

/// The arming transition: how `post` relates to `pre` once the schedule
/// has been started against the instant `now`. A schedule that already has
/// a next run is left untouched; otherwise the next run becomes the
/// earliest occurrence over all configurations — none for an exhausted
/// count — and the repeat budget is filled.
pub open spec fn armed_from(pre: JobSchedule, post: JobSchedule, now: Instant) -> bool {
    if pre.next_run is Some {
        post == pre
    } else {
        &&& post.next_run == (if pre.run_count == RunCount::Never {
                Option::<Instant>::None
            } else {
                Some(union_next_spec(pre.frequency@, now))
            })
        &&& post.repeat_config == (match pre.repeat_config {
                Some(rc) => Some(RepeatConfig { repeats_left: rc.repeats, ..rc }),
                None => Option::<RepeatConfig>::None,
            })
        &&& post.frequency == pre.frequency
        &&& post.last_run == pre.last_run
        &&& post.run_count == pre.run_count
        &&& post.pending_repeat == pre.pending_repeat
    }
}

/// A repeat burst is attached and still has fires left.
pub open spec fn repeat_active(s: JobSchedule) -> bool {
    match s.repeat_config {
        Some(rc) => rc.repeats_left > 0,
        None => false,
    }
}

/// Whether a schedule is due at `now`: a next run is stored and lies at or
/// before `now`.
pub open spec fn spec_is_pending(s: JobSchedule, now: Instant) -> bool {
    match s.next_run {
        Some(t) => t.spec_le(now),
        None => false,
    }
}

/// The execute-and-reschedule transition: how `post` relates to `pre`
/// after the job's body ran at `now`. An exhausted count changes nothing.
/// An active repeat burst takes one fire and catches up from the stored
/// next run; otherwise the next run becomes the earliest occurrence over
/// all configurations — none when this execution uses up the last allowed
/// run — and the repeat budget is refilled. Either way the last run is
/// recorded and the run count advances.
pub open spec fn advanced_from(pre: JobSchedule, post: JobSchedule, now: Instant) -> bool {
    if pre.run_count == RunCount::Never {
        post == pre
    } else {
        &&& post.frequency == pre.frequency
        &&& post.pending_repeat == pre.pending_repeat
        &&& post.last_run == Some(now)
        &&& post.run_count == advance_count(pre.run_count)
        &&& if repeat_active(pre) {
            match pre.repeat_config {
                Some(rc) => {
                    &&& post.next_run == Some(catch_up_spec(
                        rc.repeat_interval, catch_up_start(pre, now), now))
                    &&& post.repeat_config == Some(RepeatConfig {
                        repeats_left: (rc.repeats_left - 1) as usize,
                        ..rc
                    })
                }
                None => false,
            }
        } else {
            &&& post.next_run == (if becomes_never(pre.run_count) {
                    Option::<Instant>::None
                } else {
                    Some(union_next_spec(pre.frequency@, now))
                })
            &&& post.repeat_config == (match pre.repeat_config {
                    Some(rc) => Some(RepeatConfig { repeats_left: rc.repeats, ..rc }),
                    None => Option::<RepeatConfig>::None,
                })
        }
    }
}

impl JobSchedule {
    /// Structural validity: at least one configuration, each with a
    /// well-formed adjustment, and well-formed stored instants.
    pub open spec fn wf(self) -> bool {
        &&& self.frequency@.len() >= 1
        &&& forall|i: int| 0 <= i < self.frequency@.len() ==> (#[trigger] self.frequency@[i]).wf()
        &&& match self.next_run {
            Some(t) => t.wf(),
            None => true,
        }
        &&& match self.last_run {
            Some(t) => t.wf(),
            None => true,
        }
    }

    /// Every configuration can take one step from `now` without leaving
    /// the representable range.
    pub open spec fn ok_at(self, now: Instant) -> bool {
        forall|i: int| 0 <= i < self.frequency@.len()
            ==> (#[trigger] self.frequency@[i]).ok_at(now)
    }

    /// A fresh schedule firing on `ival`, forever, not yet armed.
    pub fn new(ival: Interval) -> (s: JobSchedule)
        ensures
            s.wf(),
            s.frequency@.len() == 1,
            s.frequency@[0] == (RunConfig { base: ival, adjustment: None }),
            s.next_run is None,
            s.last_run is None,
            s.run_count == RunCount::Forever,
            s.repeat_config is None,
            s.pending_repeat is None,
    {
        let mut frequency: Vec<RunConfig> = Vec::new();
        frequency.push(RunConfig::from_interval(ival));
        JobSchedule {
            frequency,
            next_run: None,
            last_run: None,
            run_count: RunCount::Forever,
            repeat_config: None,
            pending_repeat: None,
        }
    }

    /// Gives the most recently added configuration a time-of-day
    /// adjustment, discarding any chain of offsets on it.
    pub fn at_time(&mut self, time: TimeOfDay) -> (r: &mut Self)
        requires
            old(self).wf(),
            time.wf(),
        ensures
            r.frequency@ == old(self).frequency@.update(
                old(self).frequency@.len() - 1,
                (RunConfig {
                    base: old(self).frequency@.last().base,
                    adjustment: Some(Adjustment::Time(time)),
                }),
            ),
            r.next_run == old(self).next_run,
            r.last_run == old(self).last_run,
            r.run_count == old(self).run_count,
            r.repeat_config == old(self).repeat_config,
            r.pending_repeat == old(self).pending_repeat,
            r.wf(),
            *final(self) == *final(r),
    {
        let last_idx: usize = self.frequency.len() - 1;
        let updated = self.frequency[last_idx].with_time(time);
        self.frequency.set(last_idx, updated);
        self
    }

    /// Appends `ival` to the chain of offsets of the most recently added
    /// configuration, discarding any time-of-day adjustment on it.
    pub fn plus(&mut self, ival: Interval) -> (r: &mut Self)
        requires
            old(self).wf(),
        ensures
            r.frequency@.len() == old(self).frequency@.len(),
            forall|i: int| 0 <= i < old(self).frequency@.len() - 1
                ==> r.frequency@[i] == old(self).frequency@[i],
            r.frequency@.last().base == old(self).frequency@.last().base,
            r.frequency@.last().spec_chain()
                == old(self).frequency@.last().spec_chain().push(ival),
            r.frequency@.last().adjustment matches Some(Adjustment::Intervals(_)),
            r.next_run == old(self).next_run,
            r.last_run == old(self).last_run,
            r.run_count == old(self).run_count,
            r.repeat_config == old(self).repeat_config,
            r.pending_repeat == old(self).pending_repeat,
            r.wf(),
            *final(self) == *final(r),
    {
        let last_idx: usize = self.frequency.len() - 1;
        let updated = self.frequency[last_idx].with_subinterval(ival);
        self.frequency.set(last_idx, updated);
        self
    }

    /// Adds another recurrence to the job: it will fire at the earliest of
    /// all its configurations' next occurrences.
    pub fn and_every(&mut self, ival: Interval) -> (r: &mut Self)
        requires
            old(self).wf(),
        ensures
            r.frequency@ == old(self).frequency@.push(
                (RunConfig { base: ival, adjustment: None })),
            r.next_run == old(self).next_run,
            r.last_run == old(self).last_run,
            r.run_count == old(self).run_count,
            r.repeat_config == old(self).repeat_config,
            r.pending_repeat == old(self).pending_repeat,
            r.wf(),
            *final(self) == *final(r),
    {
        self.frequency.push(RunConfig::from_interval(ival));
        self
    }

    /// Runs the job exactly once; the same as `count(1)`.
    pub fn once(&mut self) -> (r: &mut Self)
        ensures
            *r == (JobSchedule { run_count: RunCount::Times(1), ..*old(self) }),
            *final(self) == *final(r),
    {
        self.run_count = RunCount::Times(1);
        self
    }

    /// Runs the job with no limit; the default.
    pub fn forever(&mut self) -> (r: &mut Self)
        ensures
            *r == (JobSchedule { run_count: RunCount::Forever, ..*old(self) }),
            *final(self) == *final(r),
    {
        self.run_count = RunCount::Forever;
        self
    }

    /// Runs the job `count` more times.
    pub fn count(&mut self, count: usize) -> (r: &mut Self)
        ensures
            *r == (JobSchedule { run_count: RunCount::Times(count), ..*old(self) }),
            *final(self) == *final(r),
    {
        self.run_count = RunCount::Times(count);
        self
    }

    /// Begins attaching a repeat burst; `times` completes it.
    pub fn repeating_every(&mut self, interval: Interval) -> (r: &mut Self)
        ensures
            *r == (JobSchedule { pending_repeat: Some(interval), ..*old(self) }),
            *final(self) == *final(r),
    {
        self.pending_repeat = Some(interval);
        self
    }

    /// Completes `repeating_every`: after each primary fire the job fires
    /// `n` extra times at the pending interval. `n == 0`, or no pending
    /// interval, attaches nothing.
    pub fn times(&mut self, n: usize) -> (r: &mut Self)
        ensures
            *r == (JobSchedule {
                pending_repeat: None,
                repeat_config: match old(self).pending_repeat {
                    Some(iv) => if n >= 1 {
                        Some(RepeatConfig { repeats: n, repeat_interval: iv, repeats_left: 0 })
                    } else {
                        old(self).repeat_config
                    },
                    None => old(self).repeat_config,
                },
                ..*old(self)
            }),
            *final(self) == *final(r),
    {
        match self.pending_repeat {
            Some(iv) => {
                if n >= 1 {
                    self.repeat_config = Some(RepeatConfig {
                        repeats: n,
                        repeat_interval: iv,
                        repeats_left: 0,
                    });
                }
            }
            None => {}
        }
        self.pending_repeat = None;
        self
    }

    /// Whether this job may still run: its run count is not exhausted.
    pub fn can_run_again(&self) -> (r: bool)
        ensures
            r == (self.run_count != RunCount::Never),
    {
        self.run_count != RunCount::Never
    }

    /// Whether the job is due: a next run is scheduled at or before `now`.
    pub fn is_pending(&self, now: &Instant) -> (r: bool)
        requires
            self.wf(),
            now.wf(),
        ensures
            r == spec_is_pending(*self, *now),
    {
        match &self.next_run {
            Some(dt) => dt.le(now),
            None => false,
        }
    }

    /// The earliest next occurrence over all configurations, or `None` for
    /// an exhausted run count.
    fn next_run_time(&self, now: &Instant) -> (r: Option<Instant>)
        requires
            self.wf(),
            now.wf(),
            self.run_count != RunCount::Never ==> self.ok_at(*now),
        ensures
            self.run_count == RunCount::Never ==> r is None,
            self.run_count != RunCount::Never
                ==> r == Some(union_next_spec(self.frequency@, *now)),
            match r {
                Some(t) => t.wf(),
                None => true,
            },
    {
        match self.run_count {
            RunCount::Never => None,
            _ => {
                let n: usize = self.frequency.len();
                let mut i: usize = n - 1;
                let mut best: Instant = self.frequency[i].next(now);
                proof {
                    assert(self.frequency@.skip(n as int - 1) =~= seq![self.frequency@[n as int - 1]]);
                }
                while i > 0
                    invariant
                        0 <= i < n,
                        n == self.frequency@.len(),
                        self.wf(),
                        self.ok_at(*now),
                        now.wf(),
                        best == union_next_spec(self.frequency@.skip(i as int), *now),
                        best.wf(),
                    decreases i,
                {
                    i = i - 1;
                    let cand = self.frequency[i].next(now);
                    proof {
                        assert(self.frequency@.skip(i as int).drop_first()
                            =~= self.frequency@.skip(i as int + 1));
                        assert(self.frequency@.skip(i as int)[0] == self.frequency@[i as int]);
                    }
                    if cand.le(&best) {
                        best = cand;
                    }
                }
                proof {
                    assert(self.frequency@.skip(0) =~= self.frequency@);
                }
                Some(best)
            }
        }
    }

    /// Arms the schedule: on the first call, computes the first next-run
    /// instant as the earliest occurrence over all configurations (none for
    /// an exhausted count) and fills the repeat budget. Armed schedules are
    /// left untouched.
    pub fn start_schedule_at(&mut self, now: &Instant)
        requires
            old(self).wf(),
            now.wf(),
            old(self).next_run is None && old(self).run_count != RunCount::Never
                ==> old(self).ok_at(*now),
        ensures
            final(self).wf(),
            armed_from(*old(self), *final(self), *now),
    {
        if self.next_run.is_none() {
            self.next_run = self.next_run_time(now);
            match &mut self.repeat_config {
                Some(rc) => {
                    rc.repeats_left = rc.repeats;
                }
                None => {}
            }
        }
    }

    /// Arms the schedule against the system clock; `start_schedule_at`
    /// performs the same transition for an instant supplied by the caller.
    pub fn start_schedule(&mut self) -> (r: &mut Self)
        requires
            old(self).wf(),
            forall|i: int| 0 <= i < old(self).frequency@.len()
                ==> (#[trigger] old(self).frequency@[i]).total_span() <= MAX_DAY - 100_000_000,
        ensures
            r.wf(),
            exists|now: Instant| now.wf() && -100_000_000 <= now.days <= 100_000_000
                && #[trigger] armed_from(*old(self), *r, now),
            *final(self) == *final(r),
    {
        let now = ChronoTimeProvider::now();
        proof {
            assert forall|i: int| 0 <= i < self.frequency@.len()
                implies (#[trigger] self.frequency@[i]).ok_at(now) by {
                self.frequency@[i].lemma_adj_span_nonneg();
                crate::intervals::lemma_span_days_pos(self.frequency@[i].spec_base());
            }
        }
        self.start_schedule_at(&now);
        proof {
            assert(armed_from(*old(self), *self, now));
        }
        self
    }

    /// Sets the time of day at which the most recently added configuration
    /// fires, parsed from text; the caller owes a string in one of the
    /// accepted formats. `try_at` performs the same change but rejects
    /// unparsable text instead of requiring it.
    pub fn at(&mut self, time: &str) -> (r: &mut Self)
        requires
            old(self).wf(),
            time_parse_spec(time@) is Some,
        ensures
            time_parse_spec(time@) matches Some(v) && r.frequency@
                == old(self).frequency@.update(
                    old(self).frequency@.len() - 1,
                    (RunConfig {
                        base: old(self).frequency@.last().base,
                        adjustment: Some(Adjustment::Time(TimeOfDay { secs: v })),
                    }),
                ),
            same_but_frequency(*old(self), *r),
            r.wf(),
            *final(self) == *final(r),
    {
        match parse_time(time) {
            Ok(tod) => {
                self.at_time(tod);
            }
            Err(_) => {
                proof {
                    assert(false);
                }
            }
        }
        self
    }

    /// Sets the time of day at which the most recently added configuration
    /// fires, parsed from text; text in none of the accepted formats is
    /// rejected and leaves the schedule unchanged.
    pub fn try_at(&mut self, time: &str) -> (r: Result<(), TimeParseError>)
        requires
            old(self).wf(),
        ensures
            match r {
                Ok(_) => {
                    &&& time_parse_spec(time@) matches Some(v) && final(self).frequency@
                        == old(self).frequency@.update(
                            old(self).frequency@.len() - 1,
                            (RunConfig {
                                base: old(self).frequency@.last().base,
                                adjustment: Some(Adjustment::Time(TimeOfDay { secs: v })),
                            }),
                        )
                    &&& same_but_frequency(*old(self), *final(self))
                    &&& final(self).wf()
                }
                Err(_) => time_parse_spec(time@) is None && *final(self) == *old(self),
            },
    {
        let probe = parse_time(time);
        match probe {
            Ok(_) => {
                self.at(time);
                Ok(())
            }
            Err(_) => Err(TimeParseError),
        }
    }

    /// Advances the schedule after an execution at `now`, as the state
    /// machine prescribes: a no-op on an exhausted count; otherwise an
    /// active repeat burst takes one fire and catches up from the stored
    /// next run, while the primary path takes the earliest occurrence over
    /// all configurations (none when this execution exhausts the count) and
    /// refills the repeat budget; the last run and the run count advance.
    pub fn schedule_next(&mut self, now: &Instant)
        requires
            old(self).wf(),
            now.wf(),
            old(self).run_count != RunCount::Never && !becomes_never(old(self).run_count)
                ==> old(self).ok_at(*now),
            old(self).run_count != RunCount::Never && repeat_active(*old(self)) ==> {
                match old(self).repeat_config {
                    Some(rc) => catch_up_ok(
                        rc.repeat_interval, catch_up_start(*old(self), *now), *now),
                    None => false,
                }
            },
        ensures
            final(self).wf(),
            advanced_from(*old(self), *final(self), *now),
    {
        // Don't do anything if we've run out of runs
        if self.run_count == RunCount::Never {
            return;
        }

        // The next occurrence by the primary schedules; `None` when this
        // execution uses up the last allowed run.
        let exhausting: bool = match self.run_count {
            RunCount::Times(n) => n <= 1,
            _ => false,
        };
        let next_run_time: Option<Instant> = if exhausting {
            None
        } else {
            self.next_run_time(now)
        };

        let repeating: bool = match &self.repeat_config {
            Some(rc) => rc.repeats_left > 0,
            None => false,
        };
        if repeating {
            let rc: RepeatConfig = match &self.repeat_config {
                Some(rc) => *rc,
                None => RepeatConfig {
                    repeats: 0,
                    repeat_interval: Interval::Seconds(0),
                    repeats_left: 0,
                },
            };
            // Normal scheduling aligns with the calendar grid; repeats are
            // anchored to the first fire of the burst instead, so the next
            // repeat is measured from the stored next run (or from `now` if
            // it is somehow absent), skipping any repeats that were missed
            // entirely.
            let mut next: Instant = match &self.next_run {
                Some(t) => *t,
                None => *now,
            };
            let ghost start: Instant = next;
            loop
                invariant_except_break
                    catch_up_ok(rc.repeat_interval, next, *now),
                    catch_up_spec(rc.repeat_interval, start, *now)
                        == catch_up_spec(rc.repeat_interval, next, *now),
                    now.wf(),
                ensures
                    next == catch_up_spec(rc.repeat_interval, start, *now),
                    next.wf(),
                decreases now.ts() + 1 - next.ts(),
            {
                proof {
                    lemma_next_from_spec_props(rc.repeat_interval, next);
                }
                let stepped = rc.repeat_interval.next_from(&next);
                if now.lt(&stepped) {
                    next = stepped;
                    break;
                }
                proof {
                    lemma_catch_up_step(rc.repeat_interval, next, *now);
                }
                next = stepped;
            }
            self.next_run = Some(next);
            match &mut self.repeat_config {
                Some(rcm) => {
                    rcm.repeats_left = rcm.repeats_left - 1;
                }
                None => {}
            }
        } else {
            self.next_run = next_run_time;
            match &mut self.repeat_config {
                Some(rcm) => {
                    rcm.repeats_left = rcm.repeats;
                }
                None => {}
            }
        }

        self.last_run = Some(*now);
        self.run_count = match self.run_count {
            RunCount::Never => RunCount::Never,
            RunCount::Times(n) => if n > 1 { RunCount::Times(n - 1) } else { RunCount::Never },
            RunCount::Forever => RunCount::Forever,
        };
    }
}

} // verus!
