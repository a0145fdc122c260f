use vstd::prelude::*;

use crate::instant::last_ns;
use crate::interval::Interval;
use crate::month::MonthIterator;

verus! {

/// Up to `k` steps of a month session, stopping at its first `None`: the state it is
/// left in and the months it yielded.
pub open spec fn pull(base: MonthIterator, k: nat) -> (MonthIterator, Seq<Interval>)
    decreases k,
{
    if k == 0 {
        (base, seq![])
    } else {
        let (next, r) = base.step();
        if r.is_none() {
            (next, seq![])
        } else {
            let (rest_state, rest) = pull(next, (k - 1) as nat);
            (rest_state, seq![r.unwrap()] + rest)
        }
    }
}

/// Collapses every `how_many` consecutive months of a month session into one span:
/// "every 3 months" yields one quarter-wide interval per step.
#[derive(Clone, Copy, Debug)]
pub struct MergeN {
    pub base: MonthIterator,
    pub how_many: usize,
    pub completed: bool,
}

impl MergeN {
    pub open spec fn wf(self) -> bool {
        self.base.wf() && self.how_many >= 1
    }

    /// A lower bound on where anything this session yields from now on starts.
    pub open spec fn low(self) -> int {
        if self.completed {
            last_ns() + 1
        } else {
            self.base.low()
        }
    }

    /// What one call of `next` returns, and the state it leaves: the span from the
    /// start of the first of the next `how_many` months to the end of the last; a
    /// shortfall of months ends the session.
    pub open spec fn step(self) -> (MergeN, Option<Interval>) {
        let (base, items) = pull(self.base, self.how_many as nat);
        if self.completed {
            (self, None)
        } else if items.len() < self.how_many {
            (MergeN { base, completed: true, ..self }, None)
        } else {
            (MergeN { base, ..self }, Some(Interval { from: items[0].from, to: items.last().to }))
        }
    }

    pub fn new(base: MonthIterator, how_many: usize) -> (r: MergeN)
        requires
            base.wf(),
            how_many >= 1,
        ensures
            r.wf(),
            r == (MergeN { base, how_many, completed: false }),
    {
        MergeN { base, how_many, completed: false }
    }

    pub fn next(&mut self) -> (r: Option<Interval>)
        requires
            old(self).wf(),
        ensures
            final(self).wf(),
            (*final(self), r) == old(self).step(),
            final(self).base.interval.to == old(self).base.interval.to,
            old(self).low() <= final(self).low(),
            r.is_some() ==> r.unwrap().wf() && r.unwrap().to.is_some() && r.unwrap().ends_by(
                old(self).base.interval.to,
            ) && old(self).low() <= r.unwrap().from.ns() < final(self).low()
                && r.unwrap().to.unwrap().ns() <= final(self).low(),
    {
        if self.completed {
            return None;
        }
        let ghost start = self.base;
        let ghost n = self.how_many as nat;
        let mut first: Option<Interval> = None;
        let mut last: Option<Interval> = None;
        let mut i: usize = 0;
        while i < self.how_many
            invariant
                self.wf(),
                self.how_many == n,
                !self.completed,
                start == old(self).base,
                n == old(self).how_many,
                !old(self).completed,
                i <= n,
                pull(start, n).0 == pull(self.base, (n - i) as nat).0,
                pull(start, n).1 =~= pull(start, i as nat).1 + pull(self.base, (n - i) as nat).1,
                pull(start, i as nat).1.len() == i,
                pull(start, i as nat).0 == self.base,
                i == 0 ==> first.is_none() && last.is_none(),
                i > 0 ==> first == Some(pull(start, i as nat).1[0]) && last == Some(
                    pull(start, i as nat).1.last(),
                ),
                self.base.interval.to == start.interval.to,
                start.low() <= self.base.low(),
                i > 0 ==> first.unwrap().from.wf() && start.low() == first.unwrap().from.ns()
                    && last.unwrap().to == Some(self.base.interval.from)
                    && first.unwrap().from.ns() < self.base.low() && !self.base.completed
                    && last.unwrap().to.unwrap().wf() && (start.interval.to.is_some()
                    ==> last.unwrap().to.unwrap().ns() <= start.interval.to.unwrap().ns()),
            decreases n - i,
        {
            proof {
                lemma_pull_extend(start, i as nat);
            }
            let ghost before = self.base;
            match self.base.next() {
                None => {
                    assert(pull(before, (n - i) as nat).1 =~= seq![]);
                    assert(pull(before, (n - i) as nat).0 == self.base);
                    assert(pull(start, n).1 =~= pull(start, i as nat).1);
                    self.completed = true;
                    return None;
                },
                Some(iv) => {
                    if i == 0 {
                        first = Some(iv);
                    }
                    last = Some(iv);
                },
            }
            i = i + 1;
        }
        match (first, last) {
            (Some(f), Some(l)) => Some(Interval { from: f.from, to: l.to }),
            _ => None,
        }
    }
}

/// One more step of a month session extends what `pull` yields by that step.
pub proof fn lemma_pull_extend(base: MonthIterator, i: nat)
    requires
        pull(base, i).1.len() == i,
    ensures
        ({
            let (mid, items) = pull(base, i);
            let (next, r) = mid.step();
            &&& r.is_some() ==> pull(base, i + 1).1 == items.push(r.unwrap()) && pull(base, i + 1).0 == next
            &&& r.is_none() ==> pull(base, i + 1).1 == items && pull(base, i + 1).0 == next
        }),
    decreases i,
{
    if i == 0 {
        reveal_with_fuel(pull, 2);
        let (next, r) = base.step();
        if r.is_some() {
            assert(pull(base, 1).1 =~= seq![r.unwrap()]);
        } else {
            assert(pull(base, 1).1 =~= seq![]);
        }
    } else {
        let (next, r) = base.step();
        lemma_pull_extend(next, (i - 1) as nat);
        let (mid, items) = pull(base, i);
        let (_, rest) = pull(next, (i - 1) as nat);
        let (_, r2) = mid.step();
        assert((i + 1 - 1) as nat == i);
        if r2.is_some() {
            assert(seq![r.unwrap()] + rest.push(r2.unwrap()) =~= (seq![r.unwrap()] + rest).push(
                r2.unwrap(),
            ));
        }
    }
}

} // verus!
