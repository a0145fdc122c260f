use vstd::prelude::*;

use crate::combine::Combine;
use crate::instant::{lemma_instant_at, Instant, NANOS_PER_SEC};
use crate::interval::Interval;
use crate::merge::Merge;
use crate::duration::DurationIterator;
use crate::every_n::EveryNIterator;
use crate::merge_n::pull;
use crate::time::TimeIterator;
use crate::timeframe::TimeFrameIterator;
use crate::weekday::WeekdayIterator;
use crate::month::MonthIterator;
use crate::period::{Period, PeriodIter};
use crate::schedule::ScheduleIterator;

verus! {

/// A rule's session yields its occurrences in order: of two occurrences yielded one
/// after the other, the second starts no earlier than the first, and each is a
/// closed interval whose end is not before its start.
pub proof fn lemma_occurrences_in_order(
    s0: PeriodIter,
    s1: PeriodIter,
    s2: PeriodIter,
    a: Interval,
    b: Interval,
)
    requires
        s0.advanced(s1, Some(a)),
        s1.advanced(s2, Some(b)),
    ensures
        a.from.ns() <= b.from.ns(),
        a.to.is_some() && a.from.ns() <= a.to.unwrap().ns(),
        b.to.is_some() && b.from.ns() <= b.to.unwrap().ns(),
{
}

/// A union of rules yields intervals without overlaps and in order: of two intervals
/// handed out one after the other, the first is bounded, and the second starts no
/// earlier than the first ends (hence no earlier than the first starts).
pub proof fn lemma_combine_in_order_without_overlap(
    c0: Combine,
    c1: Combine,
    c2: Combine,
    a: Interval,
    b: Interval,
)
    requires
        c0.stepped(c1, Some(a)),
        c1.stepped(c2, Some(b)),
    ensures
        a.to.is_some(),
        a.to.unwrap().ns() <= b.from.ns(),
        a.from.ns() <= b.from.ns(),
        b.to.is_some() ==> b.from.ns() <= b.to.unwrap().ns(),
{
}

/// All the intervals a union of rules hands out over a run of calls are in order
/// and without overlaps: any one of them starts no earlier than every earlier one ends.
pub proof fn lemma_combine_run_sorted(states: Seq<Combine>, outs: Seq<Interval>, i: int, j: int)
    requires
        states.len() == outs.len() + 1,
        forall|k: int| 0 <= k < outs.len() ==> #[trigger] states[k].stepped(states[k + 1], Some(outs[k])),
        0 <= i < j < outs.len(),
    ensures
        outs[i].to.is_some(),
        outs[i].to.unwrap().ns() <= outs[j].from.ns(),
        outs[i].from.ns() <= outs[j].from.ns(),
    decreases j - i,
{
    let k = j - 1;
    assert(states[k].stepped(states[k + 1], Some(outs[k])));
    assert(states[j].stepped(states[j + 1], Some(outs[j])));
    lemma_combine_in_order_without_overlap(states[k], states[j], states[j + 1], outs[k], outs[j]);
    if i < j - 1 {
        lemma_combine_run_sorted(states, outs, i, j - 1);
        assert(states[i].stepped(states[i + 1], Some(outs[i])));
    }
}

/// The occurrences a rule's session yields over a run of calls are in order of
/// their start.
pub proof fn lemma_occurrence_run_sorted(states: Seq<PeriodIter>, outs: Seq<Interval>, i: int, j: int)
    requires
        states.len() == outs.len() + 1,
        forall|k: int| 0 <= k < outs.len() ==> #[trigger] states[k].advanced(states[k + 1], Some(outs[k])),
        0 <= i < j < outs.len(),
    ensures
        outs[i].from.ns() <= outs[j].from.ns(),
        outs[i].to.is_some() && outs[i].to.unwrap().ns() <= outs[j].from.ns(),
    decreases j - i,
{
    let k = j - 1;
    assert(states[k].advanced(states[k + 1], Some(outs[k])));
    assert(states[j].advanced(states[j + 1], Some(outs[j])));
    if i < j - 1 {
        lemma_occurrence_run_sorted(states, outs, i, j - 1);
    }
}

/// Coalesced spans come in order, each separated from the next by more than the
/// bridged gap.
pub proof fn lemma_merged_spans_apart(m0: Merge, m1: Merge, m2: Merge, a: Interval, b: Interval)
    requires
        m0.stepped(m1, Some(a)),
        m1.stepped(m2, Some(b)),
    ensures
        a.to.is_some(),
        b.from.ns() > a.to.unwrap().ns() + m0.diff * NANOS_PER_SEC,
        a.from.ns() < b.from.ns(),
{
}

/// A schedule yields its occurrences in order and without overlaps: of two
/// occurrences yielded one after the other, the second starts no earlier than the
/// first ends.
pub proof fn lemma_schedule_in_order<'a>(
    s0: ScheduleIterator<'a>,
    s1: ScheduleIterator<'a>,
    s2: ScheduleIterator<'a>,
    a: Interval,
    b: Interval,
)
    requires
        s0.stepped(s1, Some(a)),
        s1.stepped(s2, Some(b)),
    ensures
        a.to.is_some(),
        a.from.ns() <= a.to.unwrap().ns(),
        a.to.unwrap().ns() <= b.from.ns(),
        a.from.ns() <= b.from.ns(),
{
}

/// Two occurrences a rule's session yields one after the other, from any well-formed
/// state: each is closed, the first starts no earlier than where the session stood,
/// and the second starts after the first starts and no earlier than it ends.
pub proof fn lemma_steps_in_order(s0: PeriodIter, a: Interval, b: Interval)
    requires
        s0.wf(),
        s0.step().1 == Some(a),
        s0.step().0.step().1 == Some(b),
    ensures
        a.to.is_some() && a.from.ns() <= a.to.unwrap().ns(),
        b.to.is_some() && b.from.ns() <= b.to.unwrap().ns(),
        s0.low() <= a.from.ns(),
        a.from.ns() < b.from.ns(),
        a.to.unwrap().ns() <= b.from.ns(),
{
    lemma_step_advances(s0);
    lemma_step_advances(s0.step().0);
}

/// Fixed-length intervals come in order, each closed, from where the session stands.
pub proof fn lemma_duration_in_order(it: DurationIterator, a: Interval, b: Interval)
    requires
        it.wf(),
        it.step().1 == Some(a),
        it.step().0.step().1 == Some(b),
    ensures
        a.to.is_some() && a.from.ns() <= a.to.unwrap().ns(),
        b.to.is_some() && b.from.ns() <= b.to.unwrap().ns(),
        it.interval.from.ns() <= a.from.ns(),
        a.from.ns() < b.from.ns(),
{
    lemma_steps_in_order(PeriodIter::Fixed(it), a, b);
}

/// Every `n`-th interval comes in order, each closed, from where the session stands.
pub proof fn lemma_every_n_in_order(it: EveryNIterator, a: Interval, b: Interval)
    requires
        it.wf(),
        it.step().1 == Some(a),
        it.step().0.step().1 == Some(b),
    ensures
        a.to.is_some() && a.from.ns() <= a.to.unwrap().ns(),
        b.to.is_some() && b.from.ns() <= b.to.unwrap().ns(),
        it.interval.from.ns() <= a.from.ns(),
        a.from.ns() < b.from.ns(),
{
    lemma_steps_in_order(PeriodIter::Step(it), a, b);
}

/// Months come one after the other: each starts where the session stands, ends after
/// it starts, and the next starts where it ended.
pub proof fn lemma_months_in_order(it: MonthIterator, a: Interval, b: Interval)
    requires
        it.wf(),
        it.step().1 == Some(a),
        it.step().0.step().1 == Some(b),
    ensures
        a.from == it.interval.from,
        a.to.is_some() && a.from.ns() < a.to.unwrap().ns(),
        b.to.is_some() && b.from.ns() < b.to.unwrap().ns(),
        b.from == a.to.unwrap(),
        a.from.ns() < b.from.ns(),
{
    lemma_month_step(it);
    lemma_month_step(it.step().0);
}

/// Matching days come in order, each closed, from where the session stands.
pub proof fn lemma_days_in_order(it: WeekdayIterator, a: Interval, b: Interval)
    requires
        it.wf(),
        it.step().1 == Some(a),
        it.step().0.step().1 == Some(b),
    ensures
        a.to.is_some() && a.from.ns() <= a.to.unwrap().ns(),
        b.to.is_some() && b.from.ns() <= b.to.unwrap().ns(),
        it.interval.from.ns() <= a.from.ns(),
        a.from.ns() < b.from.ns(),
{
    lemma_steps_in_order(PeriodIter::Days(it), a, b);
}

/// Daily clock times come in order, from where the session stands.
pub proof fn lemma_times_in_order(it: TimeIterator, a: Interval, b: Interval)
    requires
        it.wf(),
        it.step().1 == Some(a),
        it.step().0.step().1 == Some(b),
    ensures
        a.to.is_some() && a.from.ns() <= a.to.unwrap().ns(),
        it.interval.from.ns() <= a.from.ns(),
        a.from.ns() < b.from.ns(),
{
    lemma_steps_in_order(PeriodIter::Time(it), a, b);
}

/// Daily windows come in order, each closed, from where the session stands.
pub proof fn lemma_windows_in_order(it: TimeFrameIterator, a: Interval, b: Interval)
    requires
        it.wf(),
        it.step().1 == Some(a),
        it.step().0.step().1 == Some(b),
    ensures
        a.to.is_some() && a.from.ns() <= a.to.unwrap().ns(),
        b.to.is_some() && b.from.ns() <= b.to.unwrap().ns(),
        it.interval.from.ns() <= a.from.ns(),
        a.from.ns() < b.from.ns(),
{
    lemma_steps_in_order(PeriodIter::Frame(it), a, b);
}

/// What up to `k` calls of `next` yield, stopping at the first `None`.
pub open spec fn run(s: PeriodIter, k: nat) -> Seq<Interval>
    decreases k,
{
    if k == 0 {
        seq![]
    } else {
        let (next, r) = s.step();
        if r.is_none() {
            seq![]
        } else {
            seq![r.unwrap()] + run(next, (k - 1) as nat)
        }
    }
}

/// Every interval of `ivs` is closed and ends before `t`.
pub open spec fn all_end_before(ivs: Seq<Interval>, t: Instant) -> bool {
    forall|i: int|
        0 <= i < ivs.len() ==> (#[trigger] ivs[i]).to.is_some() && ivs[i].to.unwrap().ns() < t.ns()
}

/// One step of a month session, read off its specification.
proof fn lemma_month_step(b: MonthIterator)
    requires
        b.wf(),
    ensures
        ({
            let (a, r) = b.step();
            &&& a.wf()
            &&& a.interval.to == b.interval.to
            &&& a.start_day == b.start_day
            &&& b.low() <= a.low()
            &&& r.is_some() ==> !b.completed && !a.completed && r.unwrap().from == b.interval.from
                && r.unwrap().to == Some(a.interval.from) && r.unwrap().from.ns()
                < a.interval.from.ns() && (b.interval.to.is_some() ==> a.interval.from.ns()
                <= b.interval.to.unwrap().ns())
        }),
{
}

/// What `pull` yields, read off the month steps it is made of.
proof fn lemma_pull_advances(b: MonthIterator, k: nat)
    requires
        b.wf(),
    ensures
        ({
            let (ua, us) = pull(b, k);
            &&& ua.wf()
            &&& ua.interval.to == b.interval.to
            &&& b.low() <= ua.low()
            &&& us.len() <= k
            &&& us.len() == k && k > 0 ==> !b.completed && !ua.completed && us[0].from
                == b.interval.from && us.last().to == Some(ua.interval.from) && b.interval.from.ns()
                < ua.interval.from.ns() && (b.interval.to.is_some() ==> ua.interval.from.ns()
                <= b.interval.to.unwrap().ns())
        }),
    decreases k,
{
    if k > 0 {
        lemma_month_step(b);
        let (next, r) = b.step();
        if r.is_some() {
            lemma_pull_advances(next, (k - 1) as nat);
            let (ua, us) = pull(b, k);
            let (_, rest) = pull(next, (k - 1) as nat);
            assert(us == seq![r.unwrap()] + rest);
        }
    }
}

/// Replacing the end of the bound keeps a session well formed, and keeps its depth.
proof fn lemma_with_limit(s: PeriodIter, l: Option<Instant>)
    requires
        s.wf(),
        l.is_some() ==> l.unwrap().wf(),
    ensures
        s.with_limit(l).wf(),
        s.with_limit(l).limit() == l,
        s.with_limit(l).height() == s.height(),
        s.with_limit(l).low() == s.low(),
    decreases s,
{
    match s {
        PeriodIter::Ordinal(o) => {
            lemma_with_limit(o.inner, l);
        },
        _ => {},
    }
}

/// One step of a session moves it forward as `advanced` says.
pub proof fn lemma_step_advances(s: PeriodIter)
    requires
        s.wf(),
    ensures
        s.advanced(s.step().0, s.step().1),
    decreases s.height(), 1nat,
{
    match s {
        PeriodIter::Fixed(it) => {
            let end = it.interval.from.ns() + it.duration * NANOS_PER_SEC;
            if end <= crate::instant::last_ns() {
                lemma_instant_at(end);
            }
        },
        PeriodIter::Step(it) => {
            let end = it.interval.from.ns() + it.duration * NANOS_PER_SEC;
            let resume = end + it.duration * (it.n - 1) * NANOS_PER_SEC;
            assert(it.duration * (it.n - 1) * NANOS_PER_SEC >= 0) by (nonlinear_arith)
                requires
                    it.n >= 1,
            ;
            if end <= crate::instant::last_ns() {
                lemma_instant_at(end);
            }
            if resume <= crate::instant::last_ns() {
                lemma_instant_at(resume);
            }
        },
        PeriodIter::Months(m) => {
            lemma_pull_advances(m.base, m.how_many as nat);
        },
        PeriodIter::Days(it) => {
            crate::weekday::lemma_next_offset_range(
                it.days@,
                crate::instant::weekday_of_day(it.interval.from.day as int),
                0,
            );
        },
        PeriodIter::Time(it) => {
            let day = crate::time::anchor_day(it.interval.from, it.time.nanos());
            let at = Instant { day: day as i32, nanos: it.time.nanos() as u64 };
            if 0 <= at.ns() + NANOS_PER_SEC <= crate::instant::last_ns() {
                lemma_instant_at(at.ns() + NANOS_PER_SEC);
            }
        },
        PeriodIter::Frame(it) => {
            let (_, r) = s.step();
            if r.is_some() && 0 <= r.unwrap().to.unwrap().ns() + NANOS_PER_SEC
                <= crate::instant::last_ns() {
                lemma_instant_at(r.unwrap().to.unwrap().ns() + NANOS_PER_SEC);
            }
        },
        PeriodIter::Ordinal(o) => {
            if o.started {
                lemma_nth_advances(o.inner, (o.step - 1) as nat);
            } else {
                lemma_step_advances(o.inner);
            }
        },
    }
}

/// `k + 1` steps of a session move it forward as `advanced` says.
pub proof fn lemma_nth_advances(s: PeriodIter, k: nat)
    requires
        s.wf(),
    ensures
        s.advanced(
            crate::period::nth_within(s, k, s.height()).0,
            crate::period::nth_within(s, k, s.height()).1,
        ),
    decreases s.height(), 2 + k,
{
    lemma_step_advances(s);
    let (next, r) = s.step();
    if r.is_some() && k > 0 {
        lemma_nth_advances(next, (k - 1) as nat);
    }
}

proof fn lemma_month_step_far_bound(b: MonthIterator, t: Instant)
    requires
        b.wf(),
        b.interval.to.is_none(),
        t.wf(),
    ensures
        ({
            let (ua, r) = b.step();
            let (ba, rb) = b.with_limit(Some(t)).step();
            &&& ua.wf()
            &&& ua.interval.to.is_none()
            &&& r.is_some() && r.unwrap().to.unwrap().ns() <= t.ns() ==> ba == ua.with_limit(Some(t))
                && rb == r
            &&& r.is_some() && r.unwrap().to.unwrap().ns() > t.ns() ==> rb.is_none()
            &&& r.is_none() ==> rb.is_none()
            &&& r.is_some() ==> r.unwrap().to == Some(ua.interval.from) && r.unwrap().from
                == b.interval.from && r.unwrap().from.ns() < ua.interval.from.ns()
        }),
{
}

proof fn lemma_pull_far_bound(b: MonthIterator, k: nat, t: Instant)
    requires
        b.wf(),
        b.interval.to.is_none(),
        t.wf(),
    ensures
        ({
            let (ua, us) = pull(b, k);
            let (ba, bs) = pull(b.with_limit(Some(t)), k);
            &&& us.len() <= k
            &&& ua.wf()
            &&& ua.interval.to.is_none()
            &&& us.len() == k && (k == 0 || us.last().to.unwrap().ns() < t.ns()) ==> ba
                == ua.with_limit(Some(t)) && bs == us
            &&& us.len() < k ==> bs.len() < k
            &&& us.len() == k && k > 0 ==> us.last().to == Some(ua.interval.from) && us[0].from
                == b.interval.from && us[0].to.is_some() && us[0].to.unwrap().ns()
                <= ua.interval.from.ns()
        }),
    decreases k,
{
    if k > 0 {
        lemma_month_step_far_bound(b, t);
        let (next, r) = b.step();
        if r.is_some() {
            lemma_pull_far_bound(next, (k - 1) as nat, t);
            let (ua, us) = pull(b, k);
            let (na, ns_) = pull(next, (k - 1) as nat);
            assert(us == seq![r.unwrap()] + ns_);
            if k > 1 && ns_.len() == k - 1 {
                lemma_month_step_far_bound(next, t);
                assert(ns_[0].from == next.interval.from);
            }
        }
    }
}

proof fn lemma_step_far_bound(s: PeriodIter, t: Instant)
    requires
        s.wf(),
        s.limit().is_none(),
        t.wf(),
    ensures
        ({
            let (a, r) = s.step();
            let (b, rb) = s.with_limit(Some(t)).step();
            &&& a.wf()
            &&& a.limit().is_none()
            &&& a.height() == s.height()
            &&& r.is_some() ==> r.unwrap().to.is_some()
            &&& r.is_some() && r.unwrap().to.unwrap().ns() < t.ns() ==> b == a.with_limit(Some(t))
                && rb == r
        }),
    decreases s.height(), 1nat,
{
    lemma_step_advances(s);
    lemma_with_limit(s, Some(t));
    match s {
        PeriodIter::Fixed(it) => {
            let end = it.interval.from.ns() + it.duration * NANOS_PER_SEC;
            if end <= crate::instant::last_ns() {
                lemma_instant_at(end);
            }
        },
        PeriodIter::Step(it) => {
            let end = it.interval.from.ns() + it.duration * NANOS_PER_SEC;
            let resume = end + it.duration * (it.n - 1) * NANOS_PER_SEC;
            if 0 <= end <= crate::instant::last_ns() {
                lemma_instant_at(end);
            }
            if 0 <= resume <= crate::instant::last_ns() {
                lemma_instant_at(resume);
            }
            assert(it.duration * (it.n - 1) * NANOS_PER_SEC >= 0) by (nonlinear_arith)
                requires
                    it.n >= 1,
            ;
        },
        PeriodIter::Months(m) => {
            lemma_pull_far_bound(m.base, m.how_many as nat, t);
        },
        PeriodIter::Days(it) => {
            crate::weekday::lemma_next_offset_range(
                it.days@,
                crate::instant::weekday_of_day(it.interval.from.day as int),
                0,
            );
        },
        PeriodIter::Time(it) => {
            let day = crate::time::anchor_day(it.interval.from, it.time.nanos());
            let at = Instant { day: day as i32, nanos: it.time.nanos() as u64 };
            if 0 <= at.ns() + NANOS_PER_SEC <= crate::instant::last_ns() {
                lemma_instant_at(at.ns() + NANOS_PER_SEC);
            }
        },
        PeriodIter::Frame(it) => {
            let (_, r) = s.step();
            if r.is_some() && 0 <= r.unwrap().to.unwrap().ns() + NANOS_PER_SEC
                <= crate::instant::last_ns() {
                lemma_instant_at(r.unwrap().to.unwrap().ns() + NANOS_PER_SEC);
            }
        },
        PeriodIter::Ordinal(o) => {
            if o.started {
                lemma_nth_far_bound(o.inner, (o.step - 1) as nat, t);
            } else {
                lemma_step_far_bound(o.inner, t);
            }
        },
    }
}

/// `k + 1` steps with no end to the bound, and with an end after the last
/// occurrence, go the same way.
proof fn lemma_nth_far_bound(s: PeriodIter, k: nat, t: Instant)
    requires
        s.wf(),
        s.limit().is_none(),
        t.wf(),
    ensures
        ({
            let (a, r) = crate::period::nth_within(s, k, s.height());
            let (b, rb) = crate::period::nth_within(s.with_limit(Some(t)), k, s.height());
            r.is_some() && r.unwrap().to.unwrap().ns() < t.ns() ==> b == a.with_limit(Some(t))
                && rb == r
        }),
    decreases s.height(), 2 + k,
{
    lemma_step_far_bound(s, t);
    lemma_step_advances(s);
    lemma_with_limit(s, Some(t));
    let h = s.height();
    let bounded = s.with_limit(Some(t));
    let (next, r1) = s.step();
    assert(s.step_within(h) == s.step());
    assert(bounded.step_within(h) == bounded.step());
    if r1.is_some() && k > 0 {
        lemma_nth_advances(next, (k - 1) as nat);
        lemma_nth_far_bound(next, (k - 1) as nat, t);
        let (a, r) = crate::period::nth_within(s, k, h);
        assert((a, r) == crate::period::nth_within(next, (k - 1) as nat, h));
        if r.is_some() && r.unwrap().to.unwrap().ns() < t.ns() {
            assert(r1.unwrap().to.unwrap().ns() <= next.low());
            assert(next.low() <= r.unwrap().from.ns());
            assert(bounded.step() == (next.with_limit(Some(t)), r1));
            assert(crate::period::nth_within(bounded, k, h) == crate::period::nth_within(
                next.with_limit(Some(t)),
                (k - 1) as nat,
                h,
            ));
        }
    }
}

/// Running a session with no end to its bound, and running it with an end far
/// enough ahead, yield the same first `k` occurrences: far enough means after the
/// end of each of the `k` occurrences the open-ended run yields.
pub proof fn lemma_far_bound_round_trip(s: PeriodIter, t: Instant, k: nat)
    requires
        s.wf(),
        s.limit().is_none(),
        t.wf(),
        run(s, k).len() == k,
        all_end_before(run(s, k), t),
    ensures
        run(s.with_limit(Some(t)), k) == run(s, k),
    decreases k,
{
    if k > 0 {
        lemma_step_far_bound(s, t);
        let (a, r) = s.step();
        if r.is_some() {
            let rest = run(a, (k - 1) as nat);
            assert(run(s, k) == seq![r.unwrap()] + rest);
            assert(run(s, k)[0] == r.unwrap());
            assert forall|i: int| 0 <= i < rest.len() implies (#[trigger] rest[i]).to.is_some()
                && rest[i].to.unwrap().ns() < t.ns() by {
                assert(rest[i] == run(s, k)[i + 1]);
            }
            assert(run(s, k).len() == 1 + rest.len());
            lemma_far_bound_round_trip(a, t, (k - 1) as nat);
        }
    }
}

/// A rule opened on a bound, and the same rule opened on that bound with an end
/// given to it, differ in the end of the bound alone.
pub proof fn lemma_open_with_limit(
    p: Period,
    bound: Interval,
    t: Instant,
    s1: PeriodIter,
    s2: PeriodIter,
)
    requires
        p.opens(bound, s1),
        p.opens(Interval { to: Some(t), ..bound }, s2),
    ensures
        s2 == s1.with_limit(Some(t)),
        s1.limit() == bound.to,
    decreases p,
{
    match (s1, s2) {
        (PeriodIter::Days(w1), PeriodIter::Days(w2)) => {
            assert(w2.days =~= w1.days);
        },
        (PeriodIter::Ordinal(o1), PeriodIter::Ordinal(o2)) => {
            match p {
                Period::Ordinal(_, inner) => {
                    lemma_open_with_limit(*inner, bound, t, o1.inner, o2.inner);
                },
                _ => {},
            }
        },
        _ => {},
    }
}

} // verus!
