use vstd::prelude::*;

use crate::instant::{instant_at, last_ns, Instant, MAX_DAY, NANOS_PER_SEC, SECS_PER_DAY};
use crate::interval::{exceeds, Interval};
use crate::time::anchor_day;
use crate::types::ClockTime;

verus! {

/// A daily window from one clock time to another. Where `to` is not after `from`
/// the window crosses midnight and ends on the following day.
#[derive(Clone, Copy, Debug, PartialEq, Eq, Structural)]
pub struct TimeFrame {
    pub from: ClockTime,
    pub to: ClockTime,
}

/// A session that yields the daily window, once per day.
#[derive(Clone, Copy, Debug)]
pub struct TimeFrameIterator {
    pub frame: TimeFrame,
    /// What is left of the bound: `from` is where the search for the next window starts.
    pub interval: Interval,
    pub completed: bool,
}

impl TimeFrame {
    pub open spec fn wf(self) -> bool {
        self.from.wf() && self.to.wf()
    }

    /// Length of the window in seconds, across midnight where it wraps.
    pub open spec fn span_secs(self) -> int {
        if self.to.secs() > self.from.secs() {
            self.to.secs() - self.from.secs()
        } else {
            SECS_PER_DAY - self.from.secs() + self.to.secs()
        }
    }

    pub fn new(from: ClockTime, to: ClockTime) -> (r: TimeFrame)
        ensures
            r == (TimeFrame { from, to }),
    {
        TimeFrame { from, to }
    }

    /// Length of the window in seconds, across midnight where it wraps.
    pub fn duration_hint(&self) -> (r: u64)
        requires
            self.wf(),
        ensures
            r == self.span_secs(),
    {
        let f: u64 = self.from.hour as u64 * 3600 + self.from.minute as u64 * 60
            + self.from.second as u64;
        let t: u64 = self.to.hour as u64 * 3600 + self.to.minute as u64 * 60
            + self.to.second as u64;
        if t > f {
            t - f
        } else {
            SECS_PER_DAY - f + t
        }
    }

    pub fn iter_within(&self, bound: Interval) -> (r: TimeFrameIterator)
        requires
            self.wf(),
            bound.wf(),
        ensures
            r.wf(),
            r == (TimeFrameIterator { frame: *self, interval: bound, completed: false }),
    {
        TimeFrameIterator { frame: *self, interval: bound, completed: false }
    }
}

impl TimeFrameIterator {
    pub open spec fn wf(self) -> bool {
        self.frame.wf() && self.interval.ends_wf()
    }

    /// A lower bound on where anything this session yields from now on starts:
    /// past the end of the time line once the session is over.
    pub open spec fn low(self) -> int {
        if self.completed {
            last_ns() + 1
        } else {
            self.interval.from.ns()
        }
    }

    /// What one call of `next` returns, and the state it leaves.
    pub open spec fn step(self) -> (TimeFrameIterator, Option<Interval>) {
        let limit = self.interval.to;
        let day = anchor_day(self.interval.from, self.frame.from.nanos());
        let start = Instant { day: day as i32, nanos: self.frame.from.nanos() as u64 };
        let end_day = if self.frame.to.secs() > self.frame.from.secs() {
            day
        } else {
            day + 1
        };
        let end = Instant { day: end_day as i32, nanos: self.frame.to.nanos() as u64 };
        let resume = end.ns() + NANOS_PER_SEC;
        let done = TimeFrameIterator { completed: true, ..self };
        let iv = Interval { from: start, to: Some(end) };
        if self.completed {
            (self, None)
        } else if day > MAX_DAY {
            (done, None)
        } else if limit.is_some() && start.ns() > limit.unwrap().ns() {
            (done, None)
        } else if end_day > MAX_DAY {
            (done, None)
        } else if limit.is_some() && end.ns() > limit.unwrap().ns() {
            (done, None)
        } else if resume > last_ns() {
            (done, Some(iv))
        } else {
            (
                TimeFrameIterator { interval: Interval { from: instant_at(resume), to: limit }, ..self },
                Some(iv),
            )
        }
    }

    pub fn next(&mut self) -> (r: Option<Interval>)
        requires
            old(self).wf(),
        ensures
            final(self).wf(),
            (*final(self), r) == old(self).step(),
            final(self).interval.to == old(self).interval.to,
            old(self).low() <= final(self).low(),
            r.is_some() ==> r.unwrap().wf() && r.unwrap().to.is_some() && r.unwrap().ends_by(
                old(self).interval.to,
            ) && old(self).low() <= r.unwrap().from.ns() < final(self).low()
                && r.unwrap().to.unwrap().ns() <= final(self).low(),
    {
        if self.completed {
            return None;
        }
        let open = self.frame.from.nanos_of_day();
        let close = self.frame.to.nanos_of_day();
        let from = self.interval.from;
        let base = if from.nanos > open {
            // the window has already opened today: move to the next day
            match from.next_day_start() {
                Some(next) => next,
                None => {
                    self.completed = true;
                    return None;
                },
            }
        } else {
            from
        };
        let start = Instant { day: base.day, nanos: open };
        if exceeds(&start, &self.interval.to) {
            self.completed = true;
            return None;
        }
        let end_base = if close > open {
            start
        } else {
            // the window crosses midnight
            match start.next_day_start() {
                Some(next) => next,
                None => {
                    self.completed = true;
                    return None;
                },
            }
        };
        let end = Instant { day: end_base.day, nanos: close };
        if exceeds(&end, &self.interval.to) {
            self.completed = true;
            return None;
        }
        match end.add_secs(1) {
            Some(resume) => {
                self.interval.from = resume;
            },
            None => {
                self.completed = true;
            },
        }
        Some(Interval { from: start, to: Some(end) })
    }
}

} // verus!
