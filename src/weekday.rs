use vstd::prelude::*;

use crate::instant::{last_ns, weekday_of_day, Instant, MAX_DAY, NANOS_PER_DAY};
use crate::interval::Interval;

verus! {

/// Days from weekday `wd` (counted from Monday) to the first day at offset `k` or
/// later whose weekday is in `days`; 7 when no weekday is.
pub open spec fn next_offset(days: Seq<bool>, wd: int, k: int) -> int
    decreases 7 - k,
{
    if k >= 7 {
        7
    } else if days[(wd + k) % 7] {
        k
    } else {
        next_offset(days, wd, k + 1)
    }
}

/// The offset found lies between the offset searched from and 7.
pub proof fn lemma_next_offset_range(days: Seq<bool>, wd: int, k: int)
    requires
        0 <= k <= 7,
    ensures
        k <= next_offset(days, wd, k) <= 7,
    decreases 7 - k,
{
    if k < 7 {
        lemma_next_offset_range(days, wd, k + 1);
    }
}

/// A session that yields every calendar day whose weekday is in a set, one full day at a time.
#[derive(Clone, Copy, Debug)]
pub struct WeekdayIterator {
    /// Indexed from Monday (0) to Sunday (6).
    pub days: [bool; 7],
    /// What is left of the bound: `from` is where the search for the next day starts.
    pub interval: Interval,
    pub completed: bool,
}

impl WeekdayIterator {
    pub open spec fn wf(self) -> bool {
        self.interval.ends_wf()
    }

    /// A lower bound on where anything this session yields from now on starts:
    /// past the end of the time line once the session is over.
    pub open spec fn low(self) -> int {
        if self.completed {
            last_ns() + 1
        } else {
            self.interval.from.ns()
        }
    }

    /// What one call of `next` returns, and the state it leaves: the next matching
    /// day whole, from midnight (or from the start of the search, on its own day) to
    /// its last nanosecond; cut short at the end of the bound, which then ends the session.
    pub open spec fn step(self) -> (WeekdayIterator, Option<Interval>) {
        let cursor = self.interval.from;
        let limit = self.interval.to;
        let k = next_offset(self.days@, weekday_of_day(cursor.day as int), 0);
        let target = cursor.day + k;
        let from = if k == 0 {
            cursor
        } else {
            Instant { day: target as i32, nanos: 0 }
        };
        let end = Instant { day: target as i32, nanos: (NANOS_PER_DAY - 1) as u64 };
        let done = WeekdayIterator { completed: true, ..self };
        if self.completed {
            (self, None)
        } else if k >= 7 || target > MAX_DAY {
            (done, None)
        } else if limit.is_some() && limit.unwrap().ns() < from.ns() {
            (done, None)
        } else if limit.is_some() && limit.unwrap().ns() < end.ns() {
            (done, Some(Interval { from, to: limit }))
        } else if target + 1 > MAX_DAY {
            (done, Some(Interval { from, to: Some(end) }))
        } else {
            (
                WeekdayIterator {
                    interval: Interval { from: Instant { day: (target + 1) as i32, nanos: 0 }, to: limit },
                    ..self
                },
                Some(Interval { from, to: Some(end) }),
            )
        }
    }

    pub fn new(days: [bool; 7], bound: Interval) -> (r: WeekdayIterator)
        requires
            bound.wf(),
        ensures
            r.wf(),
            r == (WeekdayIterator { days, interval: bound, completed: false }),
    {
        WeekdayIterator { days, interval: bound, completed: false }
    }

    pub fn next(&mut self) -> (r: Option<Interval>)
        requires
            old(self).wf(),
        ensures
            final(self).wf(),
            (*final(self), r) == old(self).step(),
            final(self).interval.to == old(self).interval.to,
            old(self).low() <= final(self).low(),
            r.is_some() ==> r.unwrap().wf() && r.unwrap().to.is_some() && r.unwrap().ends_by(
                old(self).interval.to,
            ) && old(self).low() <= r.unwrap().from.ns() < final(self).low()
                && r.unwrap().to.unwrap().ns() <= final(self).low(),
    {
        if self.completed {
            return None;
        }
        let cursor = self.interval.from;
        let wd = cursor.weekday_index();
        let mut k: u32 = 0;
        while k < 7 && !self.days[((wd + k) % 7) as usize]
            invariant
                k <= 7,
                wd < 7,
                next_offset(self.days@, wd as int, 0) == next_offset(self.days@, wd as int, k as int),
            decreases 7 - k,
        {
            k = k + 1;
        }
        if k >= 7 || cursor.day as i64 + k as i64 > MAX_DAY as i64 {
            self.completed = true;
            return None;
        }
        let target: i32 = cursor.day + k as i32;
        let from = if k == 0 {
            cursor
        } else {
            Instant { day: target, nanos: 0 }
        };
        let end = Instant { day: target, nanos: NANOS_PER_DAY - 1 };
        match self.interval.to {
            Some(limit) => {
                if limit.lt(&from) {
                    self.completed = true;
                    return None;
                }
                if limit.lt(&end) {
                    self.completed = true;
                    return Some(Interval { from, to: Some(limit) });
                }
            },
            None => {},
        }
        // step a little past the end of the day, back to midnight of the next one
        match end.add_secs(10) {
            Some(past) => {
                self.interval.from = past.start_of_day();
            },
            None => {
                self.completed = true;
            },
        }
        Some(Interval { from, to: Some(end) })
    }
}

} // verus!
