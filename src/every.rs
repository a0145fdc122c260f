use vstd::prelude::*;

use crate::combine::{is_taken, Combine};
use crate::interval::Interval;
use crate::period::{Period, PeriodIter};

verus! {

/// A union of rules: "every Saturday and Sunday". Its occurrences are those of all
/// its rules, merged in order without overlaps.
#[derive(Debug)]
pub struct Every {
    pub periods: Vec<Period>,
}

impl Every {
    /// At least one rule, and every rule well formed.
    pub open spec fn wf(self) -> bool {
        &&& self.periods@.len() >= 1
        &&& forall|i: int| 0 <= i < self.periods@.len() ==> #[trigger] self.periods@[i].wf()
    }

    /// The coarseness estimate of the union: that of its first rule.
    pub open spec fn hint(self) -> int {
        self.periods@[0].hint()
    }

    /// `c` is a fresh union session over `bound`: one fresh session per rule, each in
    /// order, none pulled yet, nothing handed out.
    pub open spec fn opened(self, bound: Interval, c: Combine) -> bool {
        &&& c.iterators@.len() == self.periods@.len()
        &&& c.state@.len() == self.periods@.len()
        &&& forall|i: int|
            0 <= i < self.periods@.len() ==> #[trigger] self.periods@[i].opens(bound, c.iterators@[i])
        &&& forall|i: int| 0 <= i < c.state@.len() ==> is_taken(#[trigger] c.state@[i])
        &&& c.prev.is_none()
        &&& !c.completed
    }

    pub fn new(periods: Vec<Period>) -> (r: Every)
        ensures
            r.periods@ == periods@,
    {
        Every { periods }
    }

    /// Whether every rule is well formed and there is at least one.
    pub fn is_valid(&self) -> (r: bool)
        ensures
            r == self.wf(),
    {
        if self.periods.len() == 0 {
            return false;
        }
        let mut i: usize = 0;
        while i < self.periods.len()
            invariant
                i <= self.periods@.len(),
                forall|k: int| 0 <= k < i ==> #[trigger] self.periods@[k].wf(),
            decreases self.periods@.len() - i,
        {
            if !self.periods[i].is_valid() {
                return false;
            }
            i = i + 1;
        }
        true
    }

    /// The coarseness estimate of the union, in seconds: that of its first rule.
    pub fn duration_hint(&self) -> (r: u64)
        requires
            self.wf(),
        ensures
            r == self.hint(),
    {
        self.periods[0].duration_hint()
    }

    /// A session that merges fresh sessions of all the rules over `bound`.
    pub fn iter_within(&self, bound: Interval) -> (r: Combine)
        requires
            self.wf(),
            bound.wf(),
        ensures
            r.wf(),
            r.within(bound),
            self.opened(bound, r),
    {
        let mut iterators: Vec<PeriodIter> = Vec::new();
        let mut i: usize = 0;
        while i < self.periods.len()
            invariant
                self.wf(),
                bound.wf(),
                i <= self.periods@.len(),
                iterators@.len() == i,
                forall|k: int|
                    0 <= k < i ==> (#[trigger] iterators@[k]).wf() && iterators@[k].limit() == bound.to
                        && iterators@[k].low() == bound.from.ns() && self.periods@[k].opens(
                        bound,
                        iterators@[k],
                    ),
            decreases self.periods@.len() - i,
        {
            let s = self.periods[i].iter_within(bound);
            let ghost before = iterators@;
            iterators.push(s);
            assert forall|k: int| 0 <= k < i + 1 implies (#[trigger] iterators@[k]).wf()
                && iterators@[k].limit() == bound.to && iterators@[k].low() == bound.from.ns()
                && self.periods@[k].opens(bound, iterators@[k]) by {
                if k < i {
                    assert(iterators@[k] == before[k]);
                }
            }
            i = i + 1;
        }
        assert(forall|k: int|
            0 <= k < iterators@.len() ==> (#[trigger] iterators@[k]).limit() == bound.to
                && iterators@[k].low() >= bound.from.ns());
        let r = Combine::new(iterators);
        r
    }
}

} // verus!
