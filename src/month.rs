use vstd::prelude::*;

use crate::calendar::{civil_from_day, civil_of, days_in_month, month_len};
use crate::instant::{last_ns, Instant, MAX_DAY};
use crate::interval::{exceeds, Interval};

verus! {

/// Length of the month that follows month `month` of `year`.
pub open spec fn next_month_len(year: int, month: int) -> int {
    if month == 12 {
        31
    } else {
        month_len(year, month + 1)
    }
}

/// Days left in month `m` of `y` after day `d` of it.
pub open spec fn days_left(y: int, m: int, d: int) -> int {
    if d <= month_len(y, m) {
        month_len(y, m) - d
    } else {
        0
    }
}

/// Day number one calendar month after `day`: the same day of the next month, that
/// day being `start_day` clamped to the length of the next month.
pub open spec fn month_later(day: int, start_day: int) -> int {
    let (y, m, d) = civil_of(day);
    let len = next_month_len(y, m);
    let target = if len < start_day {
        len
    } else {
        start_day
    };
    day + days_left(y, m, d) + target
}

/// A session that steps one calendar month at a time, anchored on a day of the month.
#[derive(Clone, Copy, Debug)]
pub struct MonthIterator {
    /// What is left of the bound: `from` is where the next month starts.
    pub interval: Interval,
    /// Day of the month each step aims for (clamped in shorter months).
    pub start_day: u32,
    pub completed: bool,
}

impl MonthIterator {
    pub open spec fn wf(self) -> bool {
        self.interval.ends_wf() && 1 <= self.start_day <= 31
    }

    /// A lower bound on where anything this session yields from now on starts:
    /// past the end of the time line once the session is over.
    pub open spec fn low(self) -> int {
        if self.completed {
            last_ns() + 1
        } else {
            self.interval.from.ns()
        }
    }

    /// The same session with the end of its bound replaced by `l`.
    pub open spec fn with_limit(self, l: Option<Instant>) -> MonthIterator {
        MonthIterator { interval: Interval { to: l, ..self.interval }, ..self }
    }

    /// A fresh session over `bound`, anchored on the day of the month it starts on.
    pub open spec fn opened(self, bound: Interval) -> bool {
        self.interval == bound && !self.completed && self.start_day == civil_of(
            bound.from.day as int,
        ).2
    }

    /// What one call of `next` returns, and the state it leaves.
    pub open spec fn step(self) -> (MonthIterator, Option<Interval>) {
        let from = self.interval.from;
        let to_day = month_later(from.day as int, self.start_day as int);
        let to = Instant { day: to_day as i32, nanos: from.nanos };
        if self.completed {
            (self, None)
        } else if to_day > MAX_DAY {
            (MonthIterator { completed: true, ..self }, None)
        } else if self.interval.to.is_some() && to.ns() > self.interval.to.unwrap().ns() {
            (self, None)
        } else {
            (
                MonthIterator { interval: Interval { from: to, to: self.interval.to }, ..self },
                Some(Interval { from, to: Some(to) }),
            )
        }
    }

    /// A session over `interval`, anchored on the day of the month it starts on.
    pub fn new(interval: Interval) -> (r: MonthIterator)
        requires
            interval.wf(),
        ensures
            r.wf(),
            r.opened(interval),
    {
        let (_, _, start_day) = civil_from_day(interval.from.day);
        MonthIterator { interval, start_day, completed: false }
    }

    pub fn next(&mut self) -> (r: Option<Interval>)
        requires
            old(self).wf(),
        ensures
            final(self).wf(),
            (*final(self), r) == old(self).step(),
            final(self).interval.to == old(self).interval.to,
            old(self).low() <= final(self).low(),
            r.is_some() ==> r.unwrap().wf() && r.unwrap().to.is_some() && r.unwrap().ends_by(
                old(self).interval.to,
            ) && old(self).low() <= r.unwrap().from.ns() < final(self).low()
                && r.unwrap().to.unwrap().ns() <= final(self).low(),
            r.is_some() ==> r.unwrap().to.is_some() && r.unwrap().from.ns() < r.unwrap().to.unwrap().ns(),
    {
        if self.completed {
            return None;
        }
        let from = self.interval.from;
        let (y, m, d) = civil_from_day(from.day);
        let len = days_in_month(y, m);
        let next_len = if m == 12 {
            31
        } else {
            days_in_month(y, m + 1)
        };
        let target = if next_len < self.start_day {
            next_len
        } else {
            self.start_day
        };
        let to_day: i64 = from.day as i64 + (len - d) as i64 + target as i64;
        if to_day > MAX_DAY as i64 {
            self.completed = true;
            return None;
        }
        let to = Instant { day: to_day as i32, nanos: from.nanos };
        if exceeds(&to, &self.interval.to) {
            return None;
        }
        self.interval.from = to;
        Some(Interval { from, to: Some(to) })
    }
}

} // verus!
