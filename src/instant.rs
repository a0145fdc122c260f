use vstd::prelude::*;

verus! {

/// Nanoseconds in one second.
pub const NANOS_PER_SEC: u64 = 1_000_000_000;

/// Seconds in one day.
pub const SECS_PER_DAY: u64 = 86_400;

/// Nanoseconds in one day.
pub const NANOS_PER_DAY: u64 = 86_400_000_000_000;

/// Day number (days counted from 1970-01-01) of 0001-01-01, the first day the library represents.
pub const MIN_DAY: i32 = -719_162;

/// Day number of 9999-12-31, the last day the library represents.
pub const MAX_DAY: i32 = 2_932_896;

/// Position of the last representable instant (9999-12-31T23:59:59.999999999Z) on the time line.
pub open spec fn last_ns() -> int {
    (MAX_DAY - MIN_DAY + 1) * NANOS_PER_DAY - 1
}

/// Day of the week of a day number, counted from Monday (0) to Sunday (6).
/// 0001-01-01 was a Monday in the proleptic Gregorian calendar.
pub open spec fn weekday_of_day(day: int) -> int {
    (day - MIN_DAY) % 7
}

/// The instant at position `ns` on the time line.
pub open spec fn instant_at(ns: int) -> Instant {
    Instant { day: (MIN_DAY + ns / (NANOS_PER_DAY as int)) as i32, nanos: (ns % (NANOS_PER_DAY as int)) as u64 }
}

/// A point in time (UTC) to the nanosecond: a day number counted from
/// 1970-01-01 and the nanoseconds elapsed since that day's midnight.
#[derive(Clone, Copy, Debug, PartialEq, Eq, Structural)]
pub struct Instant {
    pub day: i32,
    pub nanos: u64,
}

impl Instant {
    /// The day lies in years 1 to 9999 and the time of day is below 24 hours.
    pub open spec fn wf(self) -> bool {
        MIN_DAY <= self.day <= MAX_DAY && self.nanos < NANOS_PER_DAY
    }

    /// Position on the time line: nanoseconds since 0001-01-01T00:00:00Z.
    pub open spec fn ns(self) -> int {
        (self.day - MIN_DAY) * NANOS_PER_DAY + self.nanos
    }

    /// An instant from a day number and the nanoseconds since that day's midnight;
    /// `None` where either lies outside the represented range.
    pub fn new(day: i32, nanos: u64) -> (r: Option<Instant>)
        ensures
            r.is_some() <==> (MIN_DAY <= day <= MAX_DAY && nanos < NANOS_PER_DAY),
            r.is_some() ==> r.unwrap() == (Instant { day, nanos }),
    {
        if MIN_DAY <= day && day <= MAX_DAY && nanos < NANOS_PER_DAY {
            Some(Instant { day, nanos })
        } else {
            None
        }
    }

    /// The instant `secs` seconds and `nanos` nanoseconds after 1970-01-01T00:00:00Z;
    /// `None` where `nanos` is not below a second or the instant is not representable.
    pub fn from_timestamp(secs: i64, nanos: u32) -> (r: Option<Instant>)
        ensures
            r.is_some() <==> (nanos < NANOS_PER_SEC && MIN_DAY * SECS_PER_DAY <= secs < (MAX_DAY
                + 1) * SECS_PER_DAY),
            r.is_some() ==> r.unwrap().wf() && r.unwrap().ns() == (secs - MIN_DAY * SECS_PER_DAY)
                * NANOS_PER_SEC + nanos,
    {
        let lo: i64 = MIN_DAY as i64 * SECS_PER_DAY as i64;
        let hi: i64 = (MAX_DAY as i64 + 1) * SECS_PER_DAY as i64;
        if nanos as u64 >= NANOS_PER_SEC || secs < lo || secs >= hi {
            return None;
        }
        let off: u64 = (secs - lo) as u64;
        let days: u64 = off / SECS_PER_DAY;
        let rem: u64 = off % SECS_PER_DAY;
        proof {
            vstd::arithmetic::div_mod::lemma_fundamental_div_mod(off as int, SECS_PER_DAY as int);
            vstd::arithmetic::div_mod::lemma_div_is_ordered(
                off as int,
                (hi - lo - 1) as int,
                SECS_PER_DAY as int,
            );
            assert((hi - lo - 1) / (SECS_PER_DAY as int) == MAX_DAY - MIN_DAY);
            assert(rem * 1_000_000_000 + nanos < 86_400_000_000_000) by (nonlinear_arith)
                requires
                    rem < 86_400,
                    nanos < 1_000_000_000,
            ;
        }
        Some(Instant { day: (days as i64 + MIN_DAY as i64) as i32, nanos: rem * NANOS_PER_SEC + nanos as u64 })
    }

    /// Whole seconds since 1970-01-01T00:00:00Z (rounded down).
    pub fn timestamp(&self) -> (r: i64)
        requires
            self.wf(),
        ensures
            r == self.day * SECS_PER_DAY + self.nanos / NANOS_PER_SEC,
    {
        self.day as i64 * SECS_PER_DAY as i64 + (self.nanos / NANOS_PER_SEC) as i64
    }

    /// Nanoseconds past the whole second.
    pub fn subsec_nanos(&self) -> (r: u32)
        ensures
            r == self.nanos % NANOS_PER_SEC,
    {
        (self.nanos % NANOS_PER_SEC) as u32
    }

    /// Midnight at the start of the given day.
    pub fn start_of_day(&self) -> (r: Instant)
        requires
            self.wf(),
        ensures
            r.wf(),
            r.day == self.day,
            r.nanos == 0,
    {
        Instant { day: self.day, nanos: 0 }
    }

    /// The last nanosecond of the given day.
    pub fn end_of_day(&self) -> (r: Instant)
        requires
            self.wf(),
        ensures
            r.wf(),
            r.day == self.day,
            r.nanos == NANOS_PER_DAY - 1,
    {
        Instant { day: self.day, nanos: NANOS_PER_DAY - 1 }
    }

    /// `self` is no later than `other`.
    pub fn le(&self, other: &Instant) -> (r: bool)
        requires
            self.wf(),
            other.wf(),
        ensures
            r == (self.ns() <= other.ns()),
    {
        self.day < other.day || (self.day == other.day && self.nanos <= other.nanos)
    }

    /// `self` is strictly earlier than `other`.
    pub fn lt(&self, other: &Instant) -> (r: bool)
        requires
            self.wf(),
            other.wf(),
        ensures
            r == (self.ns() < other.ns()),
    {
        self.day < other.day || (self.day == other.day && self.nanos < other.nanos)
    }

    /// Nanoseconds from `self` to `other` (negative when `other` is earlier).
    pub fn nanos_until(&self, other: &Instant) -> (r: i128)
        requires
            self.wf(),
            other.wf(),
        ensures
            r == other.ns() - self.ns(),
    {
        let days: i128 = other.day as i128 - self.day as i128;
        assert(-10_000_000 <= days <= 10_000_000);
        assert(-10_000_000 * 86_400_000_000_000 <= days * 86_400_000_000_000 <= 10_000_000
            * 86_400_000_000_000) by (nonlinear_arith)
            requires
                -10_000_000 <= days <= 10_000_000,
        ;
        days * (NANOS_PER_DAY as i128) + (other.nanos as i128 - self.nanos as i128)
    }

    /// The instant `secs` seconds later; `None` when it lies past the last representable instant.
    pub fn add_secs(&self, secs: u64) -> (r: Option<Instant>)
        requires
            self.wf(),
        ensures
            r.is_some() <==> self.ns() + secs * NANOS_PER_SEC <= last_ns(),
            r.is_some() ==> r.unwrap().wf() && r.unwrap().ns() == self.ns() + secs * NANOS_PER_SEC,
            r.is_some() ==> r.unwrap() == instant_at(self.ns() + secs * NANOS_PER_SEC),
    {
        assert((secs as u128) * 1_000_000_000 <= 0xffff_ffff_ffff_ffff * 1_000_000_000u128)
            by (nonlinear_arith);
        let total: u128 = self.nanos as u128 + (secs as u128) * (NANOS_PER_SEC as u128);
        let days: u128 = total / (NANOS_PER_DAY as u128);
        let rem: u128 = total % (NANOS_PER_DAY as u128);
        proof {
            vstd::arithmetic::div_mod::lemma_fundamental_div_mod(
                total as int,
                NANOS_PER_DAY as int,
            );
        }
        let room: i64 = MAX_DAY as i64 - self.day as i64;
        if days > room as u128 {
            None
        } else {
            let r = Instant { day: (self.day as i64 + days as i64) as i32, nanos: rem as u64 };
            proof {
                lemma_instant_at(r.ns());
                lemma_ns_injective(r, instant_at(r.ns()));
            }
            Some(r)
        }
    }

    /// Midnight at the start of the following day; `None` on the last representable day.
    pub fn next_day_start(&self) -> (r: Option<Instant>)
        requires
            self.wf(),
        ensures
            r.is_some() <==> self.day < MAX_DAY,
            r.is_some() ==> r.unwrap().wf() && r.unwrap().day == self.day + 1 && r.unwrap().nanos
                == 0,
    {
        if self.day < MAX_DAY {
            Some(Instant { day: self.day + 1, nanos: 0 })
        } else {
            None
        }
    }

    /// Day of the week, counted from Monday (0) to Sunday (6).
    pub fn weekday_index(&self) -> (r: u32)
        requires
            self.wf(),
        ensures
            r == weekday_of_day(self.day as int),
            r < 7,
    {
        ((self.day as i64 - MIN_DAY as i64) % 7) as u32
    }
}

/// Two well-formed instants at the same position on the time line are equal.
pub proof fn lemma_ns_injective(a: Instant, b: Instant)
    requires
        a.wf(),
        b.wf(),
        a.ns() == b.ns(),
    ensures
        a == b,
{
}

/// Every position on the represented time line names exactly one instant.
pub proof fn lemma_instant_at(ns: int)
    requires
        0 <= ns <= last_ns(),
    ensures
        instant_at(ns).wf(),
        instant_at(ns).ns() == ns,
{
    vstd::arithmetic::div_mod::lemma_fundamental_div_mod(ns, NANOS_PER_DAY as int);
    vstd::arithmetic::div_mod::lemma_div_pos_is_pos(ns, NANOS_PER_DAY as int);
    vstd::arithmetic::div_mod::lemma_div_is_ordered(ns, last_ns(), NANOS_PER_DAY as int);
    assert(last_ns() / (NANOS_PER_DAY as int) == MAX_DAY - MIN_DAY);
}

} // verus!
