use vstd::prelude::*;

use crate::instant::{instant_at, last_ns, NANOS_PER_SEC};
use crate::interval::{Interval};

verus! {

/// Every `n`-th interval of `duration` seconds: `[t, t+d]`, then `[t+n*d, t+(n+1)*d]`, ...
#[derive(Clone, Copy, Debug, PartialEq, Eq, Structural)]
pub struct EveryN {
    pub duration: u64,
    pub n: u32,
}

/// A session of `EveryN` over a bound.
#[derive(Clone, Copy, Debug)]
pub struct EveryNIterator {
    pub duration: u64,
    pub n: u32,
    /// What is left of the bound: `from` is where the next interval starts.
    pub interval: Interval,
    /// Set once the time line itself has run out.
    pub completed: bool,
}

impl EveryN {
    pub open spec fn wf(self) -> bool {
        self.duration >= 1 && self.n >= 1
    }

    pub fn new(duration: u64, n: u32) -> (r: EveryN)
        ensures
            r == (EveryN { duration, n }),
    {
        EveryN { duration, n }
    }

    /// Length of one interval, in seconds.
    pub fn duration(&self) -> (r: u64)
        ensures
            r == self.duration,
    {
        self.duration
    }

    /// Length of one interval, in seconds, as the estimate used to order rules.
    pub fn duration_hint(&self) -> (r: u64)
        ensures
            r == self.duration,
    {
        self.duration
    }

    pub fn iter_within(&self, bound: Interval) -> (r: EveryNIterator)
        requires
            self.wf(),
            bound.wf(),
        ensures
            r.wf(),
            r == (EveryNIterator { duration: self.duration, n: self.n, interval: bound, completed: false }),
    {
        EveryNIterator { duration: self.duration, n: self.n, interval: bound, completed: false }
    }
}

impl EveryNIterator {
    pub open spec fn wf(self) -> bool {
        self.duration >= 1 && self.n >= 1 && self.interval.ends_wf()
    }

    /// A lower bound on where anything this session yields from now on starts:
    /// past the end of the time line once the session is over.
    pub open spec fn low(self) -> int {
        if self.completed {
            last_ns() + 1
        } else {
            self.interval.from.ns()
        }
    }

    /// What one call of `next` returns, and the state it leaves.
    pub open spec fn step(self) -> (EveryNIterator, Option<Interval>) {
        let end = self.interval.from.ns() + self.duration * NANOS_PER_SEC;
        let resume = end + self.duration * (self.n - 1) * NANOS_PER_SEC;
        if self.completed {
            (self, None)
        } else if end > last_ns() {
            (EveryNIterator { completed: true, ..self }, None)
        } else if self.interval.to.is_some() && end >= self.interval.to.unwrap().ns() {
            (self, None)
        } else {
            let iv = Interval { from: self.interval.from, to: Some(instant_at(end)) };
            if resume > last_ns() {
                (EveryNIterator { completed: true, ..self }, Some(iv))
            } else {
                (
                    EveryNIterator {
                        interval: Interval { from: instant_at(resume), to: self.interval.to },
                        ..self
                    },
                    Some(iv),
                )
            }
        }
    }

    pub fn next(&mut self) -> (r: Option<Interval>)
        requires
            old(self).wf(),
        ensures
            final(self).wf(),
            (*final(self), r) == old(self).step(),
            final(self).interval.to == old(self).interval.to,
            old(self).low() <= final(self).low(),
            r.is_some() ==> r.unwrap().wf() && r.unwrap().to.is_some() && r.unwrap().ends_by(
                old(self).interval.to,
            ) && old(self).low() <= r.unwrap().from.ns() < final(self).low()
                && r.unwrap().to.unwrap().ns() <= final(self).low(),
    {
        if self.completed {
            return None;
        }
        let from = self.interval.from;
        let to = match from.add_secs(self.duration) {
            None => {
                self.completed = true;
                return None;
            },
            Some(to) => to,
        };
        match self.interval.to {
            Some(limit) => {
                if limit.le(&to) {
                    return None;
                }
            },
            None => {},
        }
        assert(self.duration as u128 * (self.n - 1) as u128 <= 0xffff_ffff_ffff_ffff * 0xffff_ffffu128)
            by (nonlinear_arith)
            requires
                self.n >= 1,
        ;
        let skip: u128 = self.duration as u128 * (self.n - 1) as u128;
        let resume = if skip > u64::MAX as u128 {
            assert(skip * 1_000_000_000 > last_ns()) by (nonlinear_arith)
                requires
                    skip > 0xffff_ffff_ffff_ffff,
            ;
            None
        } else {
            to.add_secs(skip as u64)
        };
        match resume {
            None => {
                self.completed = true;
            },
            Some(resume) => {
                self.interval.from = resume;
            },
        }
        Some(Interval { from, to: Some(to) })
    }
}

} // verus!
