use vstd::prelude::*;

use crate::duration::DurationIterator;
use crate::every_n::EveryNIterator;
use crate::instant::{last_ns, Instant, SECS_PER_DAY};
use crate::interval::Interval;
use crate::merge_n::MergeN;
use crate::month::MonthIterator;
use crate::time::TimeIterator;
use crate::timeframe::{TimeFrame, TimeFrameIterator};
use crate::types::{ClockTime, Weekday};
use crate::weekday::WeekdayIterator;

verus! {

/// Seconds in four weeks: the nominal length of a month when rules are ordered by coarseness.
pub const SECS_PER_NOMINAL_MONTH: u64 = 2_419_200;

/// A recurrence rule.
#[derive(Debug)]
pub enum Period {
    /// Back-to-back intervals of this many seconds.
    Fixed(u64),
    /// Every `n`-th interval of this many seconds.
    Step(u64, u32),
    /// Spans of this many calendar months.
    Month(u32),
    /// Spans of this many quarters (three calendar months each).
    Quarter(u32),
    /// Spans of this many years (twelve calendar months each).
    Year(u32),
    /// Every Saturday and Sunday.
    Weekend,
    /// Every Monday to Friday.
    Weekday,
    /// Every given day of the week.
    DayOfWeek(Weekday),
    /// Every day at a clock time.
    At(ClockTime),
    /// Every day from one clock time to another.
    Frame(TimeFrame),
    /// Every `n`-th occurrence of another rule.
    Ordinal(usize, Box<Period>),
}

/// The days of the week (Monday first) that a weekday rule matches.
pub open spec fn week_mask(p: Period) -> Seq<bool> {
    match p {
        Period::Weekend => seq![false, false, false, false, false, true, true],
        Period::Weekday => seq![true, true, true, true, true, false, false],
        Period::DayOfWeek(w) => Seq::new(7, |i: int| i == w.index()),
        _ => seq![false, false, false, false, false, false, false],
    }
}

/// A running session of a rule over a bound.
#[derive(Debug)]
pub enum PeriodIter {
    Fixed(DurationIterator),
    Step(EveryNIterator),
    Months(MergeN),
    Days(WeekdayIterator),
    Time(TimeIterator),
    Frame(TimeFrameIterator),
    Ordinal(Box<OrdinalIterator>),
}

/// A session that yields the first, then every `step`-th occurrence of another session.
#[derive(Debug)]
pub struct OrdinalIterator {
    pub inner: PeriodIter,
    pub step: usize,
    pub started: bool,
}

/// `k + 1` steps of a session, stopping at the first `None`: the state left and the
/// last result.
pub open spec fn nth_within(s: PeriodIter, k: nat, h: nat) -> (PeriodIter, Option<Interval>)
    decreases h, k + 1,
{
    let (next, r) = s.step_within(h);
    if r.is_none() || k == 0 {
        (next, r)
    } else {
        nth_within(next, (k - 1) as nat, h)
    }
}

impl Period {
    /// Counts and steps are positive and clock times are times of day.
    pub open spec fn wf(self) -> bool
        decreases self,
    {
        match self {
            Period::Fixed(d) => d >= 1,
            Period::Step(d, n) => d >= 1 && n >= 1,
            Period::Month(n) => n >= 1,
            Period::Quarter(n) => 1 <= n && 3 * n <= u32::MAX,
            Period::Year(n) => 1 <= n && 12 * n <= u32::MAX,
            Period::Weekend | Period::Weekday | Period::DayOfWeek(_) => true,
            Period::At(t) => t.wf(),
            Period::Frame(f) => f.wf(),
            Period::Ordinal(n, inner) => n >= 1 && inner.wf(),
        }
    }

    /// The estimate of one occurrence's length, in seconds, used to order rules
    /// from coarsest to finest; a month counts as four weeks.
    pub open spec fn hint(self) -> int
        decreases self,
    {
        match self {
            Period::Fixed(d) => d as int,
            Period::Step(d, _) => d as int,
            Period::Month(n) => SECS_PER_NOMINAL_MONTH * n,
            Period::Quarter(n) => SECS_PER_NOMINAL_MONTH * 3 * n,
            Period::Year(n) => SECS_PER_NOMINAL_MONTH * 12 * n,
            Period::Weekend | Period::Weekday | Period::DayOfWeek(_) => SECS_PER_DAY as int,
            Period::At(_) => SECS_PER_DAY as int,
            Period::Frame(f) => f.span_secs(),
            Period::Ordinal(_, inner) => inner.hint(),
        }
    }

    /// `s` is a fresh session of this rule over `bound`.
    pub open spec fn opens(self, bound: Interval, s: PeriodIter) -> bool
        decreases self,
    {
        match (self, s) {
            (Period::Fixed(d), PeriodIter::Fixed(it)) => it == DurationIterator {
                duration: d,
                interval: bound,
                completed: false,
            },
            (Period::Step(d, n), PeriodIter::Step(it)) => it == EveryNIterator {
                duration: d,
                n,
                interval: bound,
                completed: false,
            },
            (Period::Month(n), PeriodIter::Months(m)) => m.how_many == n && !m.completed
                && m.base.opened(bound),
            (Period::Quarter(n), PeriodIter::Months(m)) => m.how_many == 3 * n && !m.completed
                && m.base.opened(bound),
            (Period::Year(n), PeriodIter::Months(m)) => m.how_many == 12 * n && !m.completed
                && m.base.opened(bound),
            (Period::Weekend, PeriodIter::Days(w)) => w.days@ == week_mask(self) && w.interval
                == bound && !w.completed,
            (Period::Weekday, PeriodIter::Days(w)) => w.days@ == week_mask(self) && w.interval
                == bound && !w.completed,
            (Period::DayOfWeek(_), PeriodIter::Days(w)) => w.days@ == week_mask(self) && w.interval
                == bound && !w.completed,
            (Period::At(t), PeriodIter::Time(it)) => it == TimeIterator {
                time: t,
                interval: bound,
                completed: false,
            },
            (Period::Frame(f), PeriodIter::Frame(it)) => it == TimeFrameIterator {
                frame: f,
                interval: bound,
                completed: false,
            },
            (Period::Ordinal(n, inner), PeriodIter::Ordinal(o)) => o.step == n && !o.started
                && inner.opens(bound, o.inner),
            _ => false,
        }
    }

    /// The estimate of one occurrence's length, in seconds, used to order rules
    /// from coarsest to finest; a month counts as four weeks.
    pub fn duration_hint(&self) -> (r: u64)
        requires
            self.wf(),
        ensures
            r == self.hint(),
        decreases self,
    {
        match self {
            Period::Fixed(d) => *d,
            Period::Step(d, _) => *d,
            Period::Month(n) => SECS_PER_NOMINAL_MONTH * (*n as u64),
            Period::Quarter(n) => {
                assert(2_419_200 * 3 * (*n as u64) <= 2_419_200 * 3 * 0xffff_ffffu64)
                    by (nonlinear_arith)
                    requires
                        *n <= 0xffff_ffffu32,
                ;
                SECS_PER_NOMINAL_MONTH * 3 * (*n as u64)
            },
            Period::Year(n) => {
                assert(2_419_200 * 12 * (*n as u64) <= 2_419_200 * 12 * 0xffff_ffffu64)
                    by (nonlinear_arith)
                    requires
                        *n <= 0xffff_ffffu32,
                ;
                SECS_PER_NOMINAL_MONTH * 12 * (*n as u64)
            },
            Period::Weekend | Period::Weekday | Period::DayOfWeek(_) => SECS_PER_DAY,
            Period::At(_) => SECS_PER_DAY,
            Period::Frame(f) => f.duration_hint(),
            Period::Ordinal(_, inner) => inner.duration_hint(),
        }
    }

    /// Whether the rule is well formed: counts and steps positive, clock times valid.
    pub fn is_valid(&self) -> (r: bool)
        ensures
            r == self.wf(),
        decreases self,
    {
        match self {
            Period::Fixed(d) => *d >= 1,
            Period::Step(d, n) => *d >= 1 && *n >= 1,
            Period::Month(n) => *n >= 1,
            Period::Quarter(n) => 1 <= *n && *n <= u32::MAX / 3,
            Period::Year(n) => 1 <= *n && *n <= u32::MAX / 12,
            Period::Weekend | Period::Weekday | Period::DayOfWeek(_) => true,
            Period::At(t) => t.hour < 24 && t.minute < 60 && t.second < 60,
            Period::Frame(f) => f.from.hour < 24 && f.from.minute < 60 && f.from.second < 60
                && f.to.hour < 24 && f.to.minute < 60 && f.to.second < 60,
            Period::Ordinal(n, inner) => *n >= 1 && inner.is_valid(),
        }
    }

    /// A fresh session of this rule over `bound`.
    pub fn iter_within(&self, bound: Interval) -> (r: PeriodIter)
        requires
            self.wf(),
            bound.wf(),
        ensures
            r.wf(),
            self.opens(bound, r),
            r.low() == bound.from.ns(),
            r.limit() == bound.to,
        decreases self,
    {
        match self {
            Period::Fixed(d) => PeriodIter::Fixed(DurationIterator::new(*d, bound)),
            Period::Step(d, n) => PeriodIter::Step(
                EveryNIterator { duration: *d, n: *n, interval: bound, completed: false },
            ),
            Period::Month(n) => PeriodIter::Months(MergeN::new(MonthIterator::new(bound), *n as usize)),
            Period::Quarter(n) => PeriodIter::Months(
                MergeN::new(MonthIterator::new(bound), (3 * *n) as usize),
            ),
            Period::Year(n) => PeriodIter::Months(
                MergeN::new(MonthIterator::new(bound), (12 * *n) as usize),
            ),
            Period::Weekend => {
                let days = [false, false, false, false, false, true, true];
                assert(days@ =~= week_mask(*self));
                PeriodIter::Days(WeekdayIterator::new(days, bound))
            },
            Period::Weekday => {
                let days = [true, true, true, true, true, false, false];
                assert(days@ =~= week_mask(*self));
                PeriodIter::Days(WeekdayIterator::new(days, bound))
            },
            Period::DayOfWeek(w) => {
                let mut days = [false, false, false, false, false, false, false];
                let i = w.num_days_from_monday();
                days[i as usize] = true;
                assert(days@ =~= week_mask(*self));
                PeriodIter::Days(WeekdayIterator::new(days, bound))
            },
            Period::At(t) => PeriodIter::Time(t.iter_within(bound)),
            Period::Frame(f) => PeriodIter::Frame(f.iter_within(bound)),
            Period::Ordinal(n, inner) => {
                let s = inner.iter_within(bound);
                PeriodIter::Ordinal(Box::new(OrdinalIterator { inner: s, step: *n, started: false }))
            },
        }
    }
}

impl PeriodIter {
    pub open spec fn wf(self) -> bool
        decreases self,
    {
        match self {
            PeriodIter::Fixed(it) => it.wf(),
            PeriodIter::Step(it) => it.wf(),
            PeriodIter::Months(it) => it.wf(),
            PeriodIter::Days(it) => it.wf(),
            PeriodIter::Time(it) => it.wf(),
            PeriodIter::Frame(it) => it.wf(),
            PeriodIter::Ordinal(o) => o.step >= 1 && o.inner.wf(),
        }
    }

    /// A lower bound on where anything this session yields from now on starts.
    pub open spec fn low(self) -> int
        decreases self,
    {
        match self {
            PeriodIter::Fixed(it) => it.low(),
            PeriodIter::Step(it) => it.low(),
            PeriodIter::Months(it) => it.low(),
            PeriodIter::Days(it) => it.low(),
            PeriodIter::Time(it) => it.low(),
            PeriodIter::Frame(it) => it.low(),
            PeriodIter::Ordinal(o) => o.inner.low(),
        }
    }

    /// The end of the bound the session runs within.
    pub open spec fn limit(self) -> Option<Instant>
        decreases self,
    {
        match self {
            PeriodIter::Fixed(it) => it.interval.to,
            PeriodIter::Step(it) => it.interval.to,
            PeriodIter::Months(it) => it.base.interval.to,
            PeriodIter::Days(it) => it.interval.to,
            PeriodIter::Time(it) => it.interval.to,
            PeriodIter::Frame(it) => it.interval.to,
            PeriodIter::Ordinal(o) => o.inner.limit(),
        }
    }

    /// How deeply ordinal selections nest in this session.
    pub open spec fn height(self) -> nat
        decreases self,
    {
        match self {
            PeriodIter::Ordinal(o) => 1 + o.inner.height(),
            _ => 0,
        }
    }

    /// How far the session still is from the end of the time line: every occurrence
    /// it yields brings it closer.
    pub open spec fn rank(self) -> nat {
        if self.low() <= last_ns() + 1 {
            (last_ns() + 1 - self.low()) as nat
        } else {
            0
        }
    }

    /// What one call of `next` returns, and the state it leaves.
    pub open spec fn step(self) -> (PeriodIter, Option<Interval>) {
        self.step_within(self.height())
    }

    /// What one call of `next` returns, and the state it leaves, where ordinal
    /// selections nest at most `h` deep (deeper ones are left unchanged).
    pub open spec fn step_within(self, h: nat) -> (PeriodIter, Option<Interval>)
        decreases h, 0nat,
    {
        match self {
            PeriodIter::Fixed(it) => (PeriodIter::Fixed(it.step().0), it.step().1),
            PeriodIter::Step(it) => (PeriodIter::Step(it.step().0), it.step().1),
            PeriodIter::Months(it) => (PeriodIter::Months(it.step().0), it.step().1),
            PeriodIter::Days(it) => (PeriodIter::Days(it.step().0), it.step().1),
            PeriodIter::Time(it) => (PeriodIter::Time(it.step().0), it.step().1),
            PeriodIter::Frame(it) => (PeriodIter::Frame(it.step().0), it.step().1),
            PeriodIter::Ordinal(o) => {
                if h == 0 {
                    (self, None)
                } else {
                    let (inner, r) = if o.started {
                        nth_within(o.inner, (o.step - 1) as nat, (h - 1) as nat)
                    } else {
                        o.inner.step_within((h - 1) as nat)
                    };
                    (
                        PeriodIter::Ordinal(
                            Box::new(OrdinalIterator { inner, step: o.step, started: true }),
                        ),
                        r,
                    )
                }
            },
        }
    }

    /// The same session with the end of its bound replaced by `l`.
    pub open spec fn with_limit(self, l: Option<Instant>) -> PeriodIter
        decreases self,
    {
        match self {
            PeriodIter::Fixed(it) => PeriodIter::Fixed(
                DurationIterator { interval: Interval { to: l, ..it.interval }, ..it },
            ),
            PeriodIter::Step(it) => PeriodIter::Step(
                EveryNIterator { interval: Interval { to: l, ..it.interval }, ..it },
            ),
            PeriodIter::Months(it) => PeriodIter::Months(
                MergeN { base: it.base.with_limit(l), ..it },
            ),
            PeriodIter::Days(it) => PeriodIter::Days(
                WeekdayIterator { interval: Interval { to: l, ..it.interval }, ..it },
            ),
            PeriodIter::Time(it) => PeriodIter::Time(
                TimeIterator { interval: Interval { to: l, ..it.interval }, ..it },
            ),
            PeriodIter::Frame(it) => PeriodIter::Frame(
                TimeFrameIterator { interval: Interval { to: l, ..it.interval }, ..it },
            ),
            PeriodIter::Ordinal(o) => PeriodIter::Ordinal(
                Box::new(OrdinalIterator { inner: o.inner.with_limit(l), ..*o }),
            ),
        }
    }

    /// What one call of `next` does to the session, and the occurrence it yields:
    /// the bound's end is kept, the session only moves forward, and an occurrence is
    /// a closed interval inside the bound, at or after where the session stood and
    /// before where it now stands.
    pub open spec fn advanced(self, next: PeriodIter, r: Option<Interval>) -> bool {
        &&& next.wf()
        &&& next.limit() == self.limit()
        &&& next.height() == self.height()
        &&& self.low() <= next.low()
        &&& r.is_some() ==> {
            let iv = r.unwrap();
            &&& iv.wf()
            &&& iv.to.is_some()
            &&& iv.ends_by(self.limit())
            &&& self.low() <= iv.from.ns() < next.low()
            &&& iv.to.unwrap().ns() <= next.low()
        }
    }

    pub fn next(&mut self) -> (r: Option<Interval>)
        requires
            old(self).wf(),
        ensures
            old(self).advanced(*final(self), r),
            (*final(self), r) == old(self).step(),
        decreases old(self).height(), 1nat,
    {
        match self {
            PeriodIter::Fixed(it) => it.next(),
            PeriodIter::Step(it) => it.next(),
            PeriodIter::Months(it) => it.next(),
            PeriodIter::Days(it) => it.next(),
            PeriodIter::Time(it) => it.next(),
            PeriodIter::Frame(it) => it.next(),
            PeriodIter::Ordinal(o) => o.next(),
        }
    }
}

/// A session that yields nothing keeps yielding nothing.
pub proof fn lemma_exhausted_stays(s: PeriodIter)
    requires
        s.wf(),
        s.step().1.is_none(),
    ensures
        s.step().0.step().1.is_none(),
    decreases s.height(), 1nat,
{
    match s {
        PeriodIter::Ordinal(o) => {
            let k = (o.step - 1) as nat;
            let (s1, _) = s.step();
            if o.started {
                lemma_nth_exhausted(o.inner, k);
                lemma_nth_keeps_height(o.inner, k);
                let i1 = nth_within(o.inner, k, o.inner.height()).0;
                assert(s1 == PeriodIter::Ordinal(
                    Box::new(OrdinalIterator { inner: i1, step: o.step, started: true }),
                ));
                assert(i1.step_within(i1.height()).1.is_none());
                assert(nth_within(i1, k, i1.height()).1.is_none());
            } else {
                lemma_exhausted_stays(o.inner);
                lemma_step_keeps_height(o.inner);
                let i1 = o.inner.step().0;
                assert(i1.step_within(i1.height()).1.is_none());
                assert(nth_within(i1, k, i1.height()).1.is_none());
            }
        },
        _ => {},
    }
}

/// Steps of a session keep its depth of ordinal selections.
proof fn lemma_step_keeps_height(s: PeriodIter)
    ensures
        s.step().0.height() == s.height(),
    decreases s.height(), 1nat,
{
    match s {
        PeriodIter::Ordinal(o) => {
            if o.started {
                lemma_nth_keeps_height(o.inner, (o.step - 1) as nat);
            } else {
                lemma_step_keeps_height(o.inner);
            }
        },
        _ => {},
    }
}

proof fn lemma_nth_keeps_height(s: PeriodIter, k: nat)
    ensures
        nth_within(s, k, s.height()).0.height() == s.height(),
    decreases s.height(), 2 + k,
{
    lemma_step_keeps_height(s);
    let (next, r) = s.step();
    if r.is_some() && k > 0 {
        lemma_nth_keeps_height(next, (k - 1) as nat);
    }
}

/// Once `k + 1` steps of a session come to nothing, the session is left yielding nothing.
proof fn lemma_nth_exhausted(s: PeriodIter, k: nat)
    requires
        s.wf(),
        nth_within(s, k, s.height()).1.is_none(),
    ensures
        nth_within(s, k, s.height()).0.step().1.is_none(),
    decreases s.height(), 2 + k,
{
    lemma_step_keeps_height(s);
    crate::laws::lemma_step_advances(s);
    let (next, r) = s.step();
    if r.is_none() {
        lemma_exhausted_stays(s);
    } else {
        lemma_nth_exhausted(next, (k - 1) as nat);
    }
}

impl OrdinalIterator {
    pub fn next(&mut self) -> (r: Option<Interval>)
        requires
            old(self).step >= 1,
            old(self).inner.wf(),
        ensures
            final(self).step == old(self).step,
            final(self).step >= 1,
            final(self).started,
            old(self).inner.advanced(final(self).inner, r),
            (final(self).inner, r) == if old(self).started {
                nth_within(old(self).inner, (old(self).step - 1) as nat, old(self).inner.height())
            } else {
                old(self).inner.step_within(old(self).inner.height())
            },
        decreases old(self).inner.height() + 1, 0nat,
    {
        if !self.started {
            self.started = true;
            return self.inner.next();
        }
        let ghost start = self.inner;
        let ghost h = self.inner.height();
        let ghost k = (self.step - 1) as nat;
        let mut i: usize = 1;
        while i < self.step
            invariant
                1 <= i <= self.step,
                self.step == old(self).step,
                self.started,
                start == old(self).inner,
                old(self).started,
                h == start.height(),
                k == old(self).step - 1,
                start.advanced(self.inner, None),
                self.inner.height() == h,
                nth_within(start, k, h) == nth_within(self.inner, (k - (i - 1)) as nat, h),
            decreases self.step - i,
        {
            let ghost before = self.inner;
            match self.inner.next() {
                None => {
                    assert(nth_within(before, (k - (i - 1)) as nat, h) == (self.inner, None::<Interval>));
                    return None;
                },
                Some(_) => {},
            }
            assert(nth_within(before, (k - (i - 1)) as nat, h) == nth_within(
                self.inner,
                (k - i) as nat,
                h,
            ));
            i = i + 1;
        }
        let ghost before = self.inner;
        let r = self.inner.next();
        assert(nth_within(before, 0, h) == (self.inner, r));
        r
    }
}

} // verus!
