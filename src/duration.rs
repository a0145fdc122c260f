use vstd::prelude::*;

use crate::instant::{instant_at, last_ns, Instant, NANOS_PER_SEC};
use crate::interval::{exceeds, Interval};

verus! {

/// Back-to-back intervals of a fixed number of seconds: `[t, t+d]`, `[t+d, t+2d]`, ...
/// Nothing is yielded once `t+d` would pass the end of the bound.
#[derive(Clone, Copy, Debug, PartialEq, Eq, Structural)]
pub struct DurationIterator {
    /// Length of each interval, in seconds.
    pub duration: u64,
    /// What is left of the bound: `from` is where the next interval starts.
    pub interval: Interval,
    /// Set once the time line itself has run out.
    pub completed: bool,
}

impl DurationIterator {
    pub open spec fn wf(self) -> bool {
        self.duration >= 1 && self.interval.ends_wf()
    }

    /// A lower bound on where anything this session yields from now on starts:
    /// past the end of the time line once the session is over.
    pub open spec fn low(self) -> int {
        if self.completed {
            last_ns() + 1
        } else {
            self.interval.from.ns()
        }
    }

    /// What one call of `next` returns, and the state it leaves.
    pub open spec fn step(self) -> (DurationIterator, Option<Interval>) {
        let end = self.interval.from.ns() + self.duration * NANOS_PER_SEC;
        if self.completed {
            (self, None)
        } else if end > last_ns() {
            (DurationIterator { completed: true, ..self }, None)
        } else if self.interval.to.is_some() && end > self.interval.to.unwrap().ns() {
            (self, None)
        } else {
            let to = instant_at(end);
            (
                DurationIterator { interval: Interval { from: to, to: self.interval.to }, ..self },
                Some(Interval { from: self.interval.from, to: Some(to) }),
            )
        }
    }

    /// A session over `bound` for intervals of `duration` seconds.
    pub fn new(duration: u64, bound: Interval) -> (r: DurationIterator)
        requires
            duration >= 1,
            bound.wf(),
        ensures
            r.wf(),
            r == (DurationIterator { duration, interval: bound, completed: false }),
    {
        DurationIterator { duration, interval: bound, completed: false }
    }

    pub fn next(&mut self) -> (r: Option<Interval>)
        requires
            old(self).wf(),
        ensures
            final(self).wf(),
            (*final(self), r) == old(self).step(),
            final(self).interval.to == old(self).interval.to,
            old(self).low() <= final(self).low(),
            r.is_some() ==> r.unwrap().wf() && r.unwrap().to.is_some() && r.unwrap().ends_by(
                old(self).interval.to,
            ) && old(self).low() <= r.unwrap().from.ns() < final(self).low()
                && r.unwrap().to.unwrap().ns() <= final(self).low(),
    {
        if self.completed {
            return None;
        }
        let from = self.interval.from;
        match from.add_secs(self.duration) {
            None => {
                self.completed = true;
                None
            },
            Some(to) => {
                if exceeds(&to, &self.interval.to) {
                    None
                } else {
                    self.interval.from = to;
                    Some(Interval { from, to: Some(to) })
                }
            },
        }
    }
}

} // verus!
