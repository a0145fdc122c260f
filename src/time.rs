use vstd::prelude::*;

use crate::instant::{instant_at, last_ns, Instant, MAX_DAY, NANOS_PER_SEC, SECS_PER_DAY};
use crate::interval::{exceeds, Interval};
use crate::types::ClockTime;

verus! {

/// The day on which a clock time is next reached at or after `from`: the same day
/// while the time of day of `from` has not passed it, else the day after.
pub open spec fn anchor_day(from: Instant, time_nanos: int) -> int {
    if from.nanos > time_nanos {
        from.day + 1
    } else {
        from.day as int
    }
}

/// A session that yields each daily occurrence of a clock time as a point interval.
#[derive(Clone, Copy, Debug)]
pub struct TimeIterator {
    pub time: ClockTime,
    /// What is left of the bound: `from` is where the search for the next occurrence starts.
    pub interval: Interval,
    pub completed: bool,
}

impl ClockTime {
    /// One day, in seconds: the clock time recurs daily.
    pub fn duration_hint(&self) -> (r: u64)
        ensures
            r == SECS_PER_DAY,
    {
        SECS_PER_DAY
    }

    pub fn iter_within(&self, bound: Interval) -> (r: TimeIterator)
        requires
            self.wf(),
            bound.wf(),
        ensures
            r.wf(),
            r == (TimeIterator { time: *self, interval: bound, completed: false }),
    {
        TimeIterator { time: *self, interval: bound, completed: false }
    }
}

impl TimeIterator {
    pub open spec fn wf(self) -> bool {
        self.time.wf() && self.interval.ends_wf()
    }

    /// A lower bound on where anything this session yields from now on starts:
    /// past the end of the time line once the session is over.
    pub open spec fn low(self) -> int {
        if self.completed {
            last_ns() + 1
        } else {
            self.interval.from.ns()
        }
    }

    /// What one call of `next` returns, and the state it leaves.
    pub open spec fn step(self) -> (TimeIterator, Option<Interval>) {
        let day = anchor_day(self.interval.from, self.time.nanos());
        let at = Instant { day: day as i32, nanos: self.time.nanos() as u64 };
        let resume = at.ns() + NANOS_PER_SEC;
        if self.completed {
            (self, None)
        } else if day > MAX_DAY {
            (TimeIterator { completed: true, ..self }, None)
        } else if self.interval.to.is_some() && at.ns() > self.interval.to.unwrap().ns() {
            (TimeIterator { completed: true, ..self }, None)
        } else if resume > last_ns() {
            (TimeIterator { completed: true, ..self }, Some(Interval { from: at, to: Some(at) }))
        } else {
            (
                TimeIterator {
                    interval: Interval { from: instant_at(resume), to: self.interval.to },
                    ..self
                },
                Some(Interval { from: at, to: Some(at) }),
            )
        }
    }

    pub fn next(&mut self) -> (r: Option<Interval>)
        requires
            old(self).wf(),
        ensures
            final(self).wf(),
            (*final(self), r) == old(self).step(),
            final(self).interval.to == old(self).interval.to,
            old(self).low() <= final(self).low(),
            r.is_some() ==> r.unwrap().wf() && r.unwrap().to.is_some() && r.unwrap().ends_by(
                old(self).interval.to,
            ) && old(self).low() <= r.unwrap().from.ns() < final(self).low()
                && r.unwrap().to.unwrap().ns() <= final(self).low(),
    {
        if self.completed {
            return None;
        }
        let time = self.time.nanos_of_day();
        let from = self.interval.from;
        let base = if from.nanos > time {
            // already past the clock time today: move to the next day
            match from.next_day_start() {
                Some(next) => next,
                None => {
                    self.completed = true;
                    return None;
                },
            }
        } else {
            from
        };
        let at = Instant { day: base.day, nanos: time };
        if exceeds(&at, &self.interval.to) {
            self.completed = true;
            return None;
        }
        match at.add_secs(1) {
            Some(resume) => {
                self.interval.from = resume;
            },
            None => {
                self.completed = true;
            },
        }
        Some(Interval { from: at, to: Some(at) })
    }
}

} // verus!
