use vstd::prelude::*;

use crate::combine::Combine;
use crate::instant::{Instant, NANOS_PER_SEC};
use crate::interval::Interval;

verus! {

/// Coalesces the stream of a `Combine`: an interval that starts before, or within
/// `diff` seconds after, the end of the span being built is absorbed into it.
pub struct Merge {
    /// The span being built.
    pub prev: Option<Interval>,
    pub base: Combine,
    /// The largest gap, in seconds, that is still bridged.
    pub diff: u64,
    pub completed: bool,
    /// How many intervals one output may absorb before the session gives up.
    pub max_merges: usize,
    pub merges: usize,
    /// What the base yielded to each pull of the last call of `next`.
    pub pulls: Ghost<Seq<Option<Interval>>>,
    /// The base before each of those pulls, and after the last.
    pub bases: Ghost<Seq<Combine>>,
}

/// `v` starts before `end`, or no more than `diff` seconds after it.
pub open spec fn bridged(v: Interval, end: Instant, diff: u64) -> bool {
    v.from.ns() < end.ns() || v.from.ns() - end.ns() <= diff * NANOS_PER_SEC
}

impl Merge {
    pub open spec fn wf(self) -> bool {
        &&& self.base.wf()
        &&& self.prev.is_some() ==> {
            let acc = self.prev.unwrap();
            &&& acc.wf()
            &&& acc.to.is_some() ==> self.base.prev.is_some() && self.base.prev.unwrap().to == acc.to
            &&& acc.to.is_none() ==> self.base.completed
        }
    }

    /// The base runs within `b`, and so does the span being built.
    pub open spec fn within(self, b: Interval) -> bool {
        &&& self.base.within(b)
        &&& self.prev.is_some() ==> self.prev.unwrap().from.ns() >= b.from.ns()
            && self.prev.unwrap().ends_by(b.to)
    }

    /// What one call of `next` guarantees: a span handed out is well formed and starts
    /// where the span being built started; unless the session is over, the span built
    /// next starts more than `diff` seconds after it ends. Exactly what is handed out
    /// follows from what was pulled from the base (see `folded`).
    pub open spec fn stepped(self, next: Merge, r: Option<Interval>) -> bool {
        &&& next.wf()
        &&& next.diff == self.diff
        &&& next.max_merges == self.max_merges
        &&& self.completed ==> r.is_none()
        &&& r.is_none() ==> next.completed
        &&& !self.completed ==> self.folded(next, r)
        &&& r.is_some() ==> r.unwrap().wf()
        &&& r.is_some() && self.prev.is_some() ==> r.unwrap().from == self.prev.unwrap().from
        &&& r.is_some() && !next.completed ==> r.unwrap().to.is_some() && next.prev.is_some()
            && next.prev.unwrap().from.ns() > r.unwrap().to.unwrap().ns() + self.diff * NANOS_PER_SEC
    }

    /// Index of the first pull of a call that can be absorbed: the first pull seeds
    /// the span where none is being built.
    pub open spec fn first_absorbable(self) -> int {
        if self.prev.is_none() {
            1
        } else {
            0
        }
    }

    /// Where the span being built starts, given the pulls of a call.
    pub open spec fn seed_from(self, pulls: Seq<Option<Interval>>) -> Instant {
        if self.prev.is_some() {
            self.prev.unwrap().from
        } else {
            pulls[0].unwrap().from
        }
    }

    /// Where the span being built ends just before pull `k` of a call: at the end of
    /// the interval pulled last (or of the span the call started with).
    pub open spec fn end_before(self, pulls: Seq<Option<Interval>>, k: int) -> Option<Instant> {
        if k == 0 {
            self.prev.unwrap().to
        } else {
            pulls[k - 1].unwrap().to
        }
    }

    /// What a call of `next` on a session not yet over did, read off what it pulled
    /// from the base (recorded in `next.pulls`, the base's states in `next.bases`):
    /// every pull but the last was absorbed into the span, or seeded it, within the
    /// budget; the last pull decides the result. The base ran out: the span built, if
    /// any. An open-ended interval seeded or was absorbed: the span, open-ended, and
    /// the session ends. A bounded interval was absorbed past the budget: nothing, and
    /// the session ends. An interval too far from the span: the span, ending where the
    /// last absorbed interval (or the seed) ended, and the far interval seeds the next.
    pub open spec fn folded(self, next: Merge, r: Option<Interval>) -> bool {
        let p = next.pulls@;
        let n = p.len() as int;
        let s0 = self.first_absorbable();
        let span = Interval { from: self.seed_from(p), to: self.end_before(p, n - 1) };
        &&& n >= 1
        &&& next.bases@.len() == n + 1
        &&& next.bases@[0] == self.base
        &&& next.bases@[n] == next.base
        &&& forall|k: int|
            0 <= k < n ==> #[trigger] next.bases@[k].stepped(next.bases@[k + 1], p[k])
        &&& forall|k: int|
            0 <= k < n - 1 ==> (#[trigger] p[k]).is_some() && p[k].unwrap().to.is_some() && (k
                >= s0 ==> bridged(p[k].unwrap(), self.end_before(p, k).unwrap(), self.diff))
        &&& n - 1 - s0 <= self.max_merges
        &&& match p[n - 1] {
            None => next.completed && r == if n - 1 < s0 {
                None
            } else {
                Some(span)
            },
            Some(v) => if n - 1 < s0 {
                v.to.is_none() && r == Some(v) && next.completed
            } else if bridged(v, self.end_before(p, n - 1).unwrap(), self.diff) {
                if v.to.is_none() {
                    r == Some(Interval { from: self.seed_from(p), to: None }) && next.completed
                } else {
                    n - s0 > self.max_merges && r.is_none() && next.completed
                }
            } else {
                r == Some(span) && next.prev == Some(v) && !next.completed
            },
        }
    }

    pub fn new(base: Combine, diff: u64, max_merges: usize) -> (r: Merge)
        requires
            base.wf(),
            base.prev.is_none(),
        ensures
            r.wf(),
            forall|b: Interval| base.within(b) ==> #[trigger] r.within(b),
            r.base == base,
            r.prev.is_none(),
            r.diff == diff,
            r.max_merges == max_merges,
            !r.completed,
    {
        Merge {
            base,
            prev: None,
            diff,
            completed: false,
            max_merges,
            merges: 0,
            pulls: Ghost(Seq::empty()),
            bases: Ghost(Seq::empty()),
        }
    }

    /// The next span. It starts where the span being built started, and the span
    /// that follows it starts more than `diff` seconds after it ends.
    #[verifier::spinoff_prover]
    #[verifier::rlimit(100)]
    pub fn next(&mut self) -> (r: Option<Interval>)
        requires
            old(self).wf(),
        ensures
            old(self).stepped(*final(self), r),
            forall|b: Interval| #[trigger]
                old(self).within(b) ==> final(self).within(b) && (r.is_some() ==> r.unwrap().from.ns()
                    >= b.from.ns() && r.unwrap().ends_by(b.to)),
    {
        if self.completed {
            return None;
        }
        self.merges = 0;
        let gap: i128 = self.diff as i128 * (NANOS_PER_SEC as i128);
        let ghost s0 = old(self).first_absorbable();
        let ghost mut p: Seq<Option<Interval>> = Seq::empty();
        let ghost mut bs: Seq<Combine> = seq![self.base];
        loop
            invariant
                self.wf(),
                !self.completed,
                !old(self).completed,
                self.diff == old(self).diff,
                self.max_merges == old(self).max_merges,
                gap == self.diff * NANOS_PER_SEC,
                self.merges <= self.max_merges + 1,
                s0 == old(self).first_absorbable(),
                bs.len() == p.len() + 1,
                bs[0] == old(self).base,
                bs[p.len() as int] == self.base,
                forall|k: int| 0 <= k < p.len() ==> #[trigger] bs[k].stepped(bs[k + 1], p[k]),
                forall|k: int|
                    0 <= k < p.len() ==> (#[trigger] p[k]).is_some() && p[k].unwrap().to.is_some()
                        && (k >= s0 ==> bridged(
                        p[k].unwrap(),
                        old(self).end_before(p, k).unwrap(),
                        self.diff,
                    )),
                p.len() >= s0 ==> self.merges == p.len() - s0,
                p.len() < s0 ==> self.merges == 0 && p.len() == 0,
                p.len() == 0 ==> self.prev == old(self).prev,
                p.len() > 0 ==> self.prev == Some(
                    Interval { from: old(self).seed_from(p), to: p[p.len() - 1].unwrap().to },
                ),
                old(self).prev.is_some() ==> self.prev.is_some() && self.prev.unwrap().from
                    == old(self).prev.unwrap().from,
                forall|b: Interval| #[trigger] old(self).within(b) ==> self.within(b),
            decreases 2 * (self.max_merges + 1 - self.merges) + if self.prev.is_none() {
                1int
            } else {
                0int
            },
        {
            if self.merges > self.max_merges {
                self.completed = true;
                self.pulls = Ghost(p);
                self.bases = Ghost(bs);
                return None;
            }
            let ghost base0 = self.base;
            let pulled = self.base.next();
            proof {
                p = p.push(pulled);
                bs = bs.push(self.base);
                assert forall|k: int| 0 <= k < p.len() implies #[trigger] bs[k].stepped(
                    bs[k + 1],
                    p[k],
                ) by {
                    if k < p.len() - 1 {
                        assert(bs[k] == bs.drop_last()[k]);
                    }
                }
            }
            let value = match pulled {
                None => {
                    self.completed = true;
                    let r = self.prev;
                    self.prev = None;
                    self.pulls = Ghost(p);
                    self.bases = Ghost(bs);
                    return r;
                },
                Some(v) => v,
            };
            match self.prev {
                None => {
                    self.pulls = Ghost(p);
                    self.bases = Ghost(bs);
                    if value.to.is_none() {
                        // every later interval would be merged into this one anyway
                        self.completed = true;
                        return Some(value);
                    }
                    self.prev = Some(value);
                },
                Some(acc) => {
                    let to = acc.to.unwrap();
                    if value.from.lt(&to) || to.nanos_until(&value.from) <= gap {
                        if value.to.is_none() {
                            // the span never ends: nothing can follow it
                            self.completed = true;
                            self.prev = None;
                            self.pulls = Ghost(p);
                            self.bases = Ghost(bs);
                            return Some(Interval { from: acc.from, to: None });
                        }
                        self.prev = Some(Interval { from: acc.from, to: value.to });
                        if self.merges == usize::MAX {
                            // the budget is spent whatever the bound on it
                            self.completed = true;
                            self.pulls = Ghost(p);
                            self.bases = Ghost(bs);
                            return None;
                        }
                        self.merges = self.merges + 1;
                    } else {
                        self.prev = Some(value);
                        self.pulls = Ghost(p);
                        self.bases = Ghost(bs);
                        return Some(acc);
                    }
                },
            }
        }
    }
}

} // verus!
