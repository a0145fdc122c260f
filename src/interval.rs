use vstd::prelude::*;

use crate::instant::Instant;

verus! {

/// A span of time from `from` to `to`; `to == None` means open-ended.
#[derive(Clone, Copy, Debug, PartialEq, Eq, Structural)]
pub struct Interval {
    pub from: Instant,
    pub to: Option<Instant>,
}

impl Interval {
    /// Both ends are representable instants.
    pub open spec fn ends_wf(self) -> bool {
        &&& self.from.wf()
        &&& self.to.is_some() ==> self.to.unwrap().wf()
    }

    /// Both ends are representable and the end, where there is one, is not before the start.
    pub open spec fn wf(self) -> bool {
        &&& self.ends_wf()
        &&& self.to.is_some() ==> self.from.ns() <= self.to.unwrap().ns()
    }

    /// The interval ends no later than `limit` (anything ends before an absent limit).
    pub open spec fn ends_by(self, limit: Option<Instant>) -> bool {
        limit.is_some() ==> self.to.is_some() && self.to.unwrap().ns() <= limit.unwrap().ns()
    }

    /// An open-ended interval that starts at `from`.
    pub fn from(from: Instant) -> (r: Interval)
        ensures
            r.from == from,
            r.to.is_none(),
    {
        Interval { from, to: None }
    }

    /// The interval from `from` to `to`; `None` where `to` is before `from`.
    pub fn between(from: Instant, to: Instant) -> (r: Option<Interval>)
        requires
            from.wf(),
            to.wf(),
        ensures
            r.is_some() <==> from.ns() <= to.ns(),
            r.is_some() ==> r.unwrap() == (Interval { from, to: Some(to) }),
    {
        if from.le(&to) {
            Some(Interval { from, to: Some(to) })
        } else {
            None
        }
    }
}

/// `t` lies after `limit` (never, where there is no limit).
pub fn exceeds(t: &Instant, limit: &Option<Instant>) -> (r: bool)
    requires
        t.wf(),
        limit.is_some() ==> limit.unwrap().wf(),
    ensures
        r == (limit.is_some() && t.ns() > limit.unwrap().ns()),
{
    match limit {
        Some(l) => l.lt(t),
        None => false,
    }
}

} // verus!
