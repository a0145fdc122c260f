use vstd::prelude::*;

use crate::every::Every;
use crate::period::Period;
use crate::types::ClockTime;

verus! {

/// One or more clock times of every day: "at 7pm and 8:30pm".
#[derive(Debug)]
pub struct At(pub Vec<ClockTime>);

impl At {
    /// At least one time, and every time a time of day.
    pub open spec fn wf(self) -> bool {
        &&& self.0@.len() >= 1
        &&& forall|i: int| 0 <= i < self.0@.len() ==> (#[trigger] self.0@[i]).wf()
    }

    pub fn new(times: Vec<ClockTime>) -> (r: At)
        ensures
            r.0@ == times@,
    {
        At(times)
    }

    /// The union of one daily rule per clock time, in the order given.
    pub fn to_every(&self) -> (r: Every)
        ensures
            r.periods@.len() == self.0@.len(),
            forall|i: int| 0 <= i < self.0@.len() ==> #[trigger] r.periods@[i] == Period::At(self.0@[i]),
            self.wf() ==> r.wf(),
    {
        let mut periods: Vec<Period> = Vec::new();
        let mut i: usize = 0;
        while i < self.0.len()
            invariant
                i <= self.0@.len(),
                periods@.len() == i,
                forall|k: int| 0 <= k < i ==> #[trigger] periods@[k] == Period::At(self.0@[k]),
            decreases self.0@.len() - i,
        {
            periods.push(Period::At(self.0[i]));
            i = i + 1;
        }
        Every::new(periods)
    }
}

} // verus!
