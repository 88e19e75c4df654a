use vstd::prelude::*;
use crate::instant::{Instant, TimeOfDay, MAX_DAY};
use crate::intervals::{lemma_span_days_pos, next_spec, ok_for, prev_spec, span_days, Interval};

verus! {

/// The refinement applied on top of a base interval: an ordered chain of
/// finer offset intervals, or a fixed time of day. The two forms are
/// mutually exclusive within one `RunConfig`; the most recent builder call
/// wins.
#[derive(Debug, PartialEq, Eq, Clone)]
pub enum Adjustment {
    Intervals(Vec<Interval>),
    Time(TimeOfDay),
}

/// A schedule for one recurring event: a base [`Interval`] and an optional
/// [`Adjustment`]. The adjustment is either a time of day used together
/// with a day-grained base ("every three days, at 3 PM"), or a chain of
/// offsets ("every three hours, plus 30 minutes, plus 10 seconds").
/// Values are immutable: the builder methods return a new configuration.
#[derive(Debug, PartialEq, Eq, Clone)]
pub struct RunConfig {
    pub base: Interval,
    pub adjustment: Option<Adjustment>,
}

/// A fixed time of day applied to a candidate instant: the candidate keeps
/// its day and takes the given wall-clock time, rolling one day forward
/// when that time already lies strictly in the candidate's past.
pub open spec fn apply_time_spec(tod: TimeOfDay, t: Instant) -> Instant {
    if tod.secs > t.secs || (tod.secs == t.secs && t.nanos == 0) {
        Instant { days: t.days, secs: tod.secs, nanos: 0 }
    } else {
        Instant { days: (t.days + 1) as i64, secs: tod.secs, nanos: 0 }
    }
}

/// A chain of offsets applied to a candidate instant: each sub-interval's
/// `next` is applied in order.
pub open spec fn apply_chain_spec(chain: Seq<Interval>, t: Instant) -> Instant
    decreases chain.len(),
{
    if chain.len() == 0 {
        t
    } else {
        apply_chain_spec(chain.drop_first(), next_spec(chain[0], t))
    }
}

pub open spec fn apply_adjustment_spec(adj: Option<Adjustment>, t: Instant) -> Instant {
    match adj {
        None => t,
        Some(Adjustment::Time(tod)) => apply_time_spec(tod, t),
        Some(Adjustment::Intervals(ivals)) => apply_chain_spec(ivals@, t),
    }
}

/// How many calendar days a whole chain of offsets can move an instant, at
/// most.
pub open spec fn chain_span(chain: Seq<Interval>) -> int
    decreases chain.len(),
{
    if chain.len() == 0 {
        0
    } else {
        span_days(chain[0]) + chain_span(chain.drop_first())
    }
}

pub proof fn lemma_chain_span_nonneg(chain: Seq<Interval>)
    ensures
        chain_span(chain) >= 0,
    decreases chain.len(),
{
    if chain.len() > 0 {
        lemma_span_days_pos(chain[0]);
        lemma_chain_span_nonneg(chain.drop_first());
    }
}

/// The composed rule of a `RunConfig`: the next instant strictly after
/// `from` at which it fires. The adjusted instant of the current base
/// period is used when it still lies strictly ahead; otherwise the
/// adjusted instant of the next base period.
pub open spec fn rc_next_spec(rc: RunConfig, from: Instant) -> Instant {
    let candidate = apply_adjustment_spec(rc.spec_adjustment(), prev_spec(rc.spec_base(), from));
    if from.spec_lt(candidate) {
        candidate
    } else {
        apply_adjustment_spec(rc.spec_adjustment(), next_spec(rc.spec_base(), from))
    }
}

impl RunConfig {
    pub open spec fn spec_base(self) -> Interval {
        self.base
    }

    pub open spec fn spec_adjustment(self) -> Option<Adjustment> {
        self.adjustment
    }

    /// The chain of offset intervals, empty when the adjustment is absent
    /// or is a time of day.
    pub open spec fn spec_chain(self) -> Seq<Interval> {
        match self.adjustment {
            Some(Adjustment::Intervals(ivals)) => ivals@,
            _ => Seq::empty(),
        }
    }

    /// How many calendar days the adjustment can move a candidate, at most.
    pub open spec fn adj_span(self) -> int {
        match self.adjustment {
            None => 0,
            Some(Adjustment::Time(_)) => 1,
            Some(Adjustment::Intervals(ivals)) => chain_span(ivals@),
        }
    }

    /// How many calendar days one `next` of this configuration can move an
    /// instant, at most.
    pub open spec fn total_span(self) -> int {
        span_days(self.base) + self.adj_span()
    }

    /// The instant is well-formed and far enough from the representable
    /// edge that one `next` of this configuration stays in range.
    pub open spec fn ok_at(self, t: Instant) -> bool {
        &&& t.wf()
        &&& t.days + self.total_span() <= MAX_DAY
        &&& -MAX_DAY <= t.days - self.total_span()
    }

    /// A time-of-day adjustment carries a well-formed time.
    pub open spec fn wf(self) -> bool {
        match self.adjustment {
            Some(Adjustment::Time(t)) => t.wf(),
            _ => true,
        }
    }

    pub proof fn lemma_adj_span_nonneg(self)
        ensures
            self.adj_span() >= 0,
    {
        match self.adjustment {
            Some(Adjustment::Intervals(ivals)) => { lemma_chain_span_nonneg(ivals@); }
            _ => {}
        }
    }

    pub fn from_interval(base: Interval) -> (r: RunConfig)
        ensures
            r.spec_base() == base,
            r.spec_adjustment() is None,
            r.wf(),
    {
        RunConfig { base, adjustment: None }
    }

    /// A copy of this configuration whose adjustment is the given time of
    /// day, discarding any chain of offsets.
    pub fn with_time(&self, t: TimeOfDay) -> (r: RunConfig)
        requires
            t.wf(),
        ensures
            r.spec_base() == self.spec_base(),
            r.spec_adjustment() == Some(Adjustment::Time(t)),
            r.wf(),
    {
        RunConfig { base: self.base, adjustment: Some(Adjustment::Time(t)) }
    }

    /// A copy of this configuration with `ival` appended to the chain of
    /// offsets, discarding any time-of-day adjustment.
    pub fn with_subinterval(&self, ival: Interval) -> (r: RunConfig)
        ensures
            r.spec_base() == self.spec_base(),
            r.spec_adjustment() matches Some(Adjustment::Intervals(q))
                && q@ == self.spec_chain().push(ival),
            r.wf(),
    {
        let mut queue: Vec<Interval> = Vec::new();
        match &self.adjustment {
            Some(Adjustment::Intervals(ivals)) => {
                let n: usize = ivals.len();
                let mut i: usize = 0;
                while i < n
                    invariant
                        i <= n,
                        n == ivals@.len(),
                        queue@ == ivals@.take(i as int),
                    decreases n - i,
                {
                    queue.push(ivals[i]);
                    proof {
                        assert(ivals@.take(i as int).push(ivals@[i as int])
                            =~= ivals@.take(i as int + 1));
                    }
                    i = i + 1;
                }
                proof {
                    assert(ivals@.take(n as int) =~= ivals@);
                }
            }
            _ => {}
        }
        queue.push(ival);
        RunConfig { base: self.base, adjustment: Some(Adjustment::Intervals(queue)) }
    }

    /// Applies this configuration's adjustment to a candidate instant.
    fn apply_adjustment(&self, from: &Instant) -> (r: Instant)
        requires
            self.wf(),
            from.wf(),
            from.days + self.adj_span() <= MAX_DAY,
            -MAX_DAY <= from.days - self.adj_span(),
        ensures
            r == apply_adjustment_spec(self.spec_adjustment(), *from),
            r.wf(),
            from.days - self.adj_span() <= r.days <= from.days + self.adj_span(),
    {
        match &self.adjustment {
            None => *from,
            Some(Adjustment::Time(t)) => {
                if t.secs > from.secs || (t.secs == from.secs && from.nanos == 0) {
                    Instant { days: from.days, secs: t.secs, nanos: 0 }
                } else {
                    Instant { days: from.days + 1, secs: t.secs, nanos: 0 }
                }
            }
            Some(Adjustment::Intervals(ivals)) => {
                let mut rv: Instant = *from;
                let n: usize = ivals.len();
                let mut i: usize = 0;
                proof {
                    assert(ivals@.skip(0) =~= ivals@);
                }
                while i < n
                    invariant
                        i <= n,
                        n == ivals@.len(),
                        rv.wf(),
                        apply_chain_spec(ivals@, *from) == apply_chain_spec(
                            ivals@.skip(i as int), rv),
                        from.days - (chain_span(ivals@) - chain_span(ivals@.skip(i as int)))
                            <= rv.days
                            <= from.days + (chain_span(ivals@) - chain_span(ivals@.skip(i as int))),
                        rv.days + chain_span(ivals@.skip(i as int)) <= MAX_DAY,
                        -MAX_DAY <= rv.days - chain_span(ivals@.skip(i as int)),
                    decreases n - i,
                {
                    proof {
                        assert(ivals@.skip(i as int)[0] == ivals@[i as int]);
                        assert(ivals@.skip(i as int).drop_first() =~= ivals@.skip(i as int + 1));
                        lemma_chain_span_nonneg(ivals@.skip(i as int + 1));
                        lemma_span_days_pos(ivals@[i as int]);
                        assert(ok_for(ivals@[i as int], rv));
                    }
                    rv = ivals[i].next(&rv);
                    i = i + 1;
                }
                proof {
                    assert(ivals@.skip(n as int) =~= Seq::<Interval>::empty());
                }
                rv
            }
        }
    }

    /// The next instant, strictly after `from`, at which this configuration
    /// fires; `rc_next_spec` states the exact value.
    pub fn next(&self, from: &Instant) -> (r: Instant)
        requires
            self.wf(),
            self.ok_at(*from),
        ensures
            r == rc_next_spec(*self, *from),
            r.wf(),
            from.days - self.total_span() <= r.days <= from.days + self.total_span(),
    {
        proof {
            self.lemma_adj_span_nonneg();
            lemma_span_days_pos(self.base);
        }
        let p = self.base.prev(from);
        let candidate = self.apply_adjustment(&p);
        if from.lt(&candidate) {
            candidate
        } else {
            let nx = self.base.next(from);
            self.apply_adjustment(&nx)
        }
    }
}

} // verus!
