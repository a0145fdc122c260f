use vstd::prelude::*;

use crate::combine::Combine;
use crate::every::Every;
use crate::interval::Interval;

verus! {

/// `s` with `x` put after every element at least as coarse as `x`.
pub open spec fn insert_by_hint(s: Seq<Every>, x: Every) -> Seq<Every>
    decreases s.len(),
{
    if s.len() == 0 {
        seq![x]
    } else if s[0].hint() < x.hint() {
        seq![x] + s
    } else {
        seq![s[0]] + insert_by_hint(s.drop_first(), x)
    }
}

/// `s` ordered from the coarsest rule to the finest; rules of equal coarseness keep
/// their order.
pub open spec fn sort_by_hint(s: Seq<Every>) -> Seq<Every>
    decreases s.len(),
{
    if s.len() == 0 {
        s
    } else {
        insert_by_hint(sort_by_hint(s.drop_last()), s.last())
    }
}

proof fn lemma_insert_by_hint_at(s: Seq<Every>, x: Every, p: int)
    requires
        0 <= p <= s.len(),
        forall|q: int| 0 <= q < p ==> (#[trigger] s[q]).hint() >= x.hint(),
        p < s.len() ==> s[p].hint() < x.hint(),
    ensures
        insert_by_hint(s, x) == s.insert(p, x),
    decreases s.len(),
{
    if p == 0 {
        assert(insert_by_hint(s, x) =~= s.insert(p, x));
    } else {
        let t = s.drop_first();
        assert forall|q: int| 0 <= q < p - 1 implies (#[trigger] t[q]).hint() >= x.hint() by {
            assert(t[q] == s[q + 1]);
        }
        lemma_insert_by_hint_at(t, x, p - 1);
        assert(seq![s[0]] + t.insert(p - 1, x) =~= s.insert(p, x));
    }
}

/// Rules refined one inside the other, from the coarsest down: "every month, every
/// Monday, at 10:00".
#[derive(Debug)]
pub struct Schedule {
    pub items: Vec<Every>,
    pub bounds: Option<Interval>,
}

/// A session of a schedule: a stack with one session per level, each running
/// within the interval the level above it yielded last.
pub struct ScheduleIterator<'a> {
    /// The bound of the top level.
    pub interval: Interval,
    pub schedule: &'a Schedule,
    pub initialized: bool,
    pub state: Vec<Combine>,
    /// The bound each level of the stack runs within.
    pub bounds: Ghost<Seq<Interval>>,
    /// Each level of the stack as it was opened, from its rule, within its bound.
    pub openings: Ghost<Seq<Combine>>,
    /// Each level of the stack since it was opened: its sessions, one per call of
    /// `next` on it and the first as opened.
    pub runs: Ghost<Seq<Seq<Combine>>>,
    /// What each call of `next` on each level of the stack yielded.
    pub yielded: Ghost<Seq<Seq<Option<Interval>>>>,
    /// The occurrence handed out last.
    pub last: Ghost<Option<Interval>>,
    /// The pull that ended the session: the level's index, its session before and
    /// after the pull, and the bound it was opened within.
    pub ended: Ghost<Option<(int, Combine, Combine, Interval)>>,
    pub completed: bool,
}

impl Schedule {
    pub open spec fn wf(self) -> bool {
        forall|i: int| 0 <= i < self.items@.len() ==> (#[trigger] self.items@[i]).wf()
    }

    /// A schedule of `items`, put in order from the coarsest rule to the finest.
    pub fn new(items: Vec<Every>, bounds: Option<Interval>) -> (r: Schedule)
        requires
            forall|i: int| 0 <= i < items@.len() ==> (#[trigger] items@[i]).wf(),
        ensures
            r.wf(),
            r.items@ == sort_by_hint(items@),
            r.bounds == bounds,
    {
        let ghost orig = items@;
        let mut items = items;
        let mut sorted: Vec<Every> = Vec::new();
        let ghost mut i: int = 0;
        while items.len() > 0
            invariant
                0 <= i <= orig.len(),
                items@ == orig.subrange(i, orig.len() as int),
                sorted@ == sort_by_hint(orig.subrange(0, i)),
                forall|k: int| 0 <= k < orig.len() ==> (#[trigger] orig[k]).wf(),
                forall|k: int| 0 <= k < sorted@.len() ==> (#[trigger] sorted@[k]).wf(),
            decreases items@.len(),
        {
            let x = items.remove(0);
            assert(x == orig[i]);
            let h = x.duration_hint();
            let mut p: usize = 0;
            while p < sorted.len() && sorted[p].duration_hint() >= h
                invariant
                    p <= sorted@.len(),
                    h == x.hint(),
                    forall|k: int| 0 <= k < sorted@.len() ==> (#[trigger] sorted@[k]).wf(),
                    forall|q: int| 0 <= q < p ==> (#[trigger] sorted@[q]).hint() >= x.hint(),
                decreases sorted@.len() - p,
            {
                p = p + 1;
            }
            proof {
                lemma_insert_by_hint_at(sorted@, x, p as int);
                assert(orig.subrange(0, i + 1).drop_last() =~= orig.subrange(0, i));
            }
            sorted.insert(p, x);
            proof {
                i = i + 1;
                assert(items@ =~= orig.subrange(i, orig.len() as int));
            }
        }
        assert(orig.subrange(0, i) =~= orig);
        Schedule { items: sorted, bounds }
    }

    /// A session of the schedule within `interval`.
    pub fn iter_within(&self, interval: Interval) -> (r: ScheduleIterator)
        requires
            self.wf(),
            interval.wf(),
        ensures
            r.wf(),
            r.schedule == self,
            r.interval == interval,
            !r.initialized,
            !r.completed,
            r.state@.len() == 0,
            r.last@.is_none(),
    {
        ScheduleIterator {
            interval,
            schedule: self,
            initialized: false,
            state: Vec::new(),
            bounds: Ghost(Seq::empty()),
            openings: Ghost(Seq::empty()),
            runs: Ghost(Seq::empty()),
            yielded: Ghost(Seq::empty()),
            last: Ghost(None),
            ended: Ghost(None),
            completed: false,
        }
    }
}

/// A level of the stack runs within its bound `b`, which lies within `top`.
pub open spec fn level_ok(top: Interval, level: Combine, b: Interval) -> bool {
    &&& level.wf()
    &&& level.within(b)
    &&& b.wf()
    &&& b.from.ns() >= top.from.ns()
    &&& b.ends_by(top.to)
}

/// Below the top level, each bound is a closed interval that ends no later than the
/// bounds above it.
pub open spec fn nested(bounds: Seq<Interval>, n: int) -> bool {
    forall|i: int, j: int|
        1 <= i <= j < n ==> (#[trigger] bounds[j]).to.is_some() && bounds[j].to.unwrap().ns()
            <= (#[trigger] bounds[i]).to.unwrap().ns()
}

/// A level opened as `opening` reached `cur` by calls of `next`: `h` holds its
/// sessions, `o` what each call yielded.
pub open spec fn level_history(
    h: Seq<Combine>,
    o: Seq<Option<Interval>>,
    opening: Combine,
    cur: Combine,
) -> bool {
    &&& h.len() == o.len() + 1
    &&& h[0] == opening
    &&& h[h.len() - 1] == cur
    &&& forall|t: int| 0 <= t < o.len() ==> #[trigger] h[t].stepped(h[t + 1], o[t])
}

proof fn lemma_history_extend(
    h: Seq<Combine>,
    o: Seq<Option<Interval>>,
    opening: Combine,
    cur: Combine,
    next: Combine,
    r: Option<Interval>,
)
    requires
        level_history(h, o, opening, cur),
        cur.stepped(next, r),
    ensures
        level_history(h.push(next), o.push(r), opening, next),
{
    assert forall|t: int| 0 <= t < o.push(r).len() implies #[trigger] h.push(next)[t].stepped(
        h.push(next)[t + 1],
        o.push(r)[t],
    ) by {
        if t < o.len() {
            assert(h.push(next)[t] == h[t]);
            assert(h.push(next)[t + 1] == h[t + 1]);
            assert(o.push(r)[t] == o[t]);
        }
    }
}

impl<'a> ScheduleIterator<'a> {
    /// Every level of the stack is its rule opened within its bound and then pulled,
    /// and each level above the deepest yielded last the bound of the level below it.
    pub open spec fn histories_ok(self) -> bool {
        &&& self.runs@.len() == self.state@.len()
        &&& self.yielded@.len() == self.state@.len()
        &&& forall|k: int|
            0 <= k < self.state@.len() ==> #[trigger] level_history(
                self.runs@[k],
                self.yielded@[k],
                self.openings@[k],
                self.state@[k],
            )
        &&& forall|k: int|
            0 <= k < self.state@.len() - 1 ==> (#[trigger] self.yielded@[k]).len() >= 1
                && self.yielded@[k].last() == Some(self.bounds@[k + 1])
    }

    /// The levels on the stack run within their bounds, and each bound lies within
    /// the interval of the whole session.
    pub open spec fn levels_wf(self) -> bool {
        &&& self.histories_ok()
        &&& self.bounds@.len() == self.state@.len()
        &&& self.openings@.len() == self.state@.len()
        &&& forall|k: int|
            0 <= k < self.state@.len() ==> self.schedule.items@[k].opened(
                self.bounds@[k],
                #[trigger] self.openings@[k],
            )
        &&& self.state@.len() <= self.schedule.items@.len()
        &&& forall|k: int|
            0 <= k < self.state@.len() ==> #[trigger] level_ok(
                self.interval,
                self.state@[k],
                self.bounds@[k],
            )
    }

    /// Each level's bound is the interval the level above it yielded last, and the
    /// bounds nest.
    pub open spec fn chained(self, n: int) -> bool {
        &&& forall|k: int|
            0 <= k < n - 1 ==> (#[trigger] self.state@[k]).prev == Some(self.bounds@[k + 1])
        &&& nested(self.bounds@, n)
    }

    pub open spec fn wf(self) -> bool {
        &&& self.schedule.wf()
        &&& self.interval.wf()
        &&& self.levels_wf()
        &&& !self.initialized && !self.completed ==> self.state@.len() == 0 && self.last@.is_none()
        &&& self.initialized && !self.completed ==> {
            &&& self.state@.len() == self.schedule.items@.len()
            &&& self.state@.len() >= 1
            &&& self.chained(self.state@.len() as int)
            &&& self.last@.is_some()
            &&& self.state@[self.state@.len() - 1].prev == self.last@
        }
    }

    /// The session ended on a level that yielded nothing on its first pull: the level
    /// just below the stack, opened fresh within the session's interval where it is
    /// the top level, and within the last interval of the level above it otherwise.
    pub open spec fn failed_to_open(self) -> bool {
        let k = self.state@.len() as int;
        &&& self.ended@.is_some()
        &&& self.ended@.unwrap().0 == k
        &&& k < self.schedule.items@.len()
        &&& self.schedule.items@[k].opened(self.ended@.unwrap().3, self.ended@.unwrap().1)
        &&& self.ended@.unwrap().1.stepped(self.ended@.unwrap().2, None)
        &&& k == 0 ==> self.ended@.unwrap().3 == self.interval
        &&& k > 0 ==> self.state@[k - 1].prev == Some(self.ended@.unwrap().3)
    }

    /// The session ended because its top level ran out: the level's session as the
    /// call found it yielded nothing, and the stack is empty.
    pub open spec fn top_ran_out(self, before: ScheduleIterator<'a>) -> bool {
        &&& self.state@.len() == 0
        &&& before.initialized
        &&& before.state@.len() >= 1
        &&& self.ended@.is_some()
        &&& self.ended@.unwrap().0 == 0
        &&& self.ended@.unwrap().1 == before.state@[0]
        &&& self.ended@.unwrap().3 == before.interval
        &&& self.ended@.unwrap().1.stepped(self.ended@.unwrap().2, None)
    }

    /// Opens the levels from `i` down, each within the first interval of the level
    /// above it (`interval` for level `i`), and returns the first interval of the
    /// deepest level; `None` where some level yields nothing.
    fn init(&mut self, i: usize, interval: Interval) -> (r: Option<Interval>)
        requires
            old(self).schedule.wf(),
            old(self).interval.wf(),
            old(self).levels_wf(),
            old(self).state@.len() == i,
            i < old(self).schedule.items@.len(),
            i == 0 ==> interval == old(self).interval,
            old(self).chained(i as int),
            i > 0 ==> old(self).state@[i - 1].prev == Some(interval),
            i > 0 ==> old(self).yielded@[i - 1].len() >= 1 && old(self).yielded@[i - 1].last()
                == Some(interval),
            i > 0 ==> interval.to.is_some() && (i > 1 ==> interval.to.unwrap().ns()
                <= old(self).bounds@[i - 1].to.unwrap().ns()),
            interval.wf(),
            interval.from.ns() >= old(self).interval.from.ns(),
            interval.ends_by(old(self).interval.to),
        ensures
            final(self).levels_wf(),
            final(self).schedule == old(self).schedule,
            final(self).interval == old(self).interval,
            final(self).initialized == old(self).initialized,
            final(self).completed == old(self).completed,
            final(self).last == old(self).last,
            r.is_none() ==> final(self).state@.len() < final(self).schedule.items@.len()
                && final(self).failed_to_open(),
            r.is_some() ==> final(self).yielded@[final(self).state@.len() - 1].len() >= 1
                && final(self).yielded@[final(self).state@.len() - 1].last() == r,
            r.is_some() ==> final(self).state@.len() == final(self).schedule.items@.len()
                && final(self).chained(final(self).state@.len() as int) && final(self).state@.len()
                >= 1 && final(self).state@[final(self).state@.len() - 1].prev == r,
            r.is_some() ==> r.unwrap().wf() && r.unwrap().from.ns() >= interval.from.ns()
                && r.unwrap().ends_by(old(self).interval.to) && r.unwrap().to.is_some(),
    {
        let mut cur = interval;
        let mut j = i;
        let len = self.schedule.items.len();
        while j < len
            invariant
                self.schedule.wf(),
                self.interval.wf(),
                self.levels_wf(),
                self.schedule == old(self).schedule,
                self.interval == old(self).interval,
                self.initialized == old(self).initialized,
                self.completed == old(self).completed,
                self.last == old(self).last,
                len == self.schedule.items@.len(),
                self.state@.len() == j,
                j <= len,
                self.chained(j as int),
                j > 0 ==> self.state@[j - 1].prev == Some(cur),
                j > 0 ==> cur.to.is_some() && (j > 1 ==> cur.to.unwrap().ns()
                    <= self.bounds@[j - 1].to.unwrap().ns()),
                i <= j,
                j == i ==> cur == interval,
                i == 0 ==> interval == old(self).interval,
                j > 0 ==> self.yielded@[j - 1].len() >= 1 && self.yielded@[j - 1].last() == Some(cur),
                cur.wf(),
                cur.from.ns() >= interval.from.ns(),
                cur.from.ns() >= self.interval.from.ns(),
                cur.ends_by(self.interval.to),
            decreases len - j,
        {
            let mut level = self.schedule.items[j].iter_within(cur);
            let ghost fresh = level;
            match level.next() {
                Some(next) => {
                    let ghost bounds0 = self.bounds@;
                    let ghost state0 = self.state@;
                    self.state.push(level);
                    let ghost openings0 = self.openings@;
                    let ghost runs0 = self.runs@;
                    let ghost yielded0 = self.yielded@;
                    self.bounds = Ghost(self.bounds@.push(cur));
                    self.openings = Ghost(self.openings@.push(fresh));
                    self.runs = Ghost(self.runs@.push(seq![fresh, level]));
                    self.yielded = Ghost(self.yielded@.push(seq![Some(next)]));
                    assert forall|k: int| 0 <= k < self.state@.len() implies #[trigger] level_history(
                        self.runs@[k],
                        self.yielded@[k],
                        self.openings@[k],
                        self.state@[k],
                    ) by {
                        if k < j {
                            assert(self.runs@[k] == runs0[k]);
                            assert(self.yielded@[k] == yielded0[k]);
                            assert(self.openings@[k] == openings0[k]);
                            assert(self.state@[k] == state0[k]);
                        } else {
                            let h = seq![fresh, level];
                            let o = seq![Some(next)];
                            assert(h[0].stepped(h[1], o[0]));
                        }
                    }
                    assert forall|k: int| 0 <= k < self.state@.len() - 1 implies (#[trigger] self.yielded@[k]).len()
                        >= 1 && self.yielded@[k].last() == Some(self.bounds@[k + 1]) by {
                        assert(self.yielded@[k] == yielded0[k]);
                        if k + 1 < j {
                            assert(self.bounds@[k + 1] == bounds0[k + 1]);
                        }
                    }
                    assert forall|k: int| 0 <= k < self.state@.len() implies self.schedule.items@[k].opened(
                        self.bounds@[k],
                        #[trigger] self.openings@[k],
                    ) by {
                        if k < j {
                            assert(self.openings@[k] == openings0[k]);
                            assert(self.bounds@[k] == bounds0[k]);
                        }
                    }
                    assert forall|k: int| 0 <= k < self.state@.len() implies #[trigger] level_ok(
                        self.interval,
                        self.state@[k],
                        self.bounds@[k],
                    ) by {
                        if k < j {
                            assert(self.state@[k] == state0[k]);
                            assert(self.bounds@[k] == bounds0[k]);
                        }
                    }
                    assert forall|k: int| 0 <= k < j + 1 - 1 implies (#[trigger] self.state@[k]).prev
                        == Some(self.bounds@[k + 1]) by {
                        assert(self.state@[k] == state0[k]);
                        if k + 1 < j {
                            assert(self.bounds@[k + 1] == bounds0[k + 1]);
                        }
                    }
                    assert forall|a: int, b: int| 1 <= a <= b < j + 1 implies (#[trigger] self.bounds@[b]).to.is_some()
                        && self.bounds@[b].to.unwrap().ns() <= (#[trigger] self.bounds@[a]).to.unwrap().ns() by {
                        if b < j {
                            assert(self.bounds@[b] == bounds0[b]);
                            assert(self.bounds@[a] == bounds0[a]);
                        } else if a < j {
                            assert(self.bounds@[a] == bounds0[a]);
                            assert(bounds0[j - 1].to.unwrap().ns() <= bounds0[a].to.unwrap().ns());
                        }
                    }
                    cur = next;
                },
                None => {
                    self.ended = Ghost(Some((j as int, fresh, level, cur)));
                    return None;
                },
            }
            j = j + 1;
        }
        Some(cur)
    }

    /// What one call of `next` guarantees: an occurrence is a closed interval within
    /// the session's interval that starts no earlier than the occurrence before it
    /// ended, and becomes the last one. An empty schedule yields nothing; otherwise
    /// nothing is handed out only where the top level runs out, or a level opened within
    /// the interval the level above it yielded (the session's interval for the top
    /// level) yields nothing on its first pull; either ends the session.
    pub open spec fn stepped(self, next: ScheduleIterator<'a>, r: Option<Interval>) -> bool {
        &&& next.wf()
        &&& next.interval == self.interval
        &&& self.completed ==> r.is_none()
        &&& r.is_none() ==> next.completed
        &&& self.schedule.items@.len() == 0 ==> r.is_none()
        &&& r.is_none() && !self.completed && self.schedule.items@.len() > 0
            ==> next.failed_to_open() || next.top_ran_out(self)
        &&& r.is_some() ==> r.unwrap().wf() && r.unwrap().from.ns() >= self.interval.from.ns()
            && r.unwrap().ends_by(self.interval.to) && r.unwrap().to.is_some()
        &&& r.is_some() && self.last@.is_some() ==> self.last@.unwrap().to.unwrap().ns()
            <= r.unwrap().from.ns()
        &&& r.is_some() ==> next.last@ == r && next.initialized && !next.completed
        &&& r.is_some() ==> next.yielded@[next.state@.len() - 1].len() >= 1
            && next.yielded@[next.state@.len() - 1].last() == r
    }

    /// The next occurrence of the deepest level. Every occurrence lies within the
    /// interval the session was opened on, and starts no earlier than the one before
    /// it ended.
    pub fn next(&mut self) -> (r: Option<Interval>)
        requires
            old(self).wf(),
        ensures
            old(self).stepped(*final(self), r),
    {
        if self.completed {
            return None;
        }
        if !self.initialized {
            if self.schedule.items.len() == 0 {
                self.completed = true;
                return None;
            }
            let top = self.interval;
            match self.init(0, top) {
                Some(first) => {
                    self.initialized = true;
                    self.last = Ghost(Some(first));
                    return Some(first);
                },
                None => {
                    self.completed = true;
                    return None;
                },
            }
        }
        let last = self.state.len() - 1;
        let ghost b = self.bounds@[last as int];
        let ghost state0 = self.state@;
        let ghost n = self.state@.len();
        assert(level_ok(self.interval, self.state@[last as int], self.bounds@[last as int]));
        let pulled = self.state[last].next();
        let ghost runs0 = self.runs@;
        let ghost yielded0 = self.yielded@;
        self.runs = Ghost(self.runs@.update(last as int, self.runs@[last as int].push(self.state@[last as int])));
        self.yielded = Ghost(self.yielded@.update(last as int, self.yielded@[last as int].push(pulled)));
        proof {
            lemma_history_extend(runs0[last as int], yielded0[last as int], self.openings@[last as int], state0[last as int], self.state@[last as int], pulled);
            assert forall|k: int| 0 <= k < self.state@.len() implies #[trigger] level_history(
                self.runs@[k],
                self.yielded@[k],
                self.openings@[k],
                self.state@[k],
            ) by {
                if k != last as int {
                    assert(self.runs@[k] == runs0[k]);
                    assert(self.yielded@[k] == yielded0[k]);
                    assert(self.state@[k] == state0[k]);
                }
            }
            assert forall|k: int| 0 <= k < self.state@.len() - 1 implies (#[trigger] self.yielded@[k]).len()
                >= 1 && self.yielded@[k].last() == Some(self.bounds@[k + 1]) by {
                assert(self.yielded@[k] == yielded0[k]);
            }
        }
        let ghost mut lost: (Combine, Combine) = (state0[last as int], self.state@[last as int]);
        assert(state0[last as int].within(b));
        assert forall|k: int| 0 <= k < self.state@.len() implies #[trigger] level_ok(
            self.interval,
            self.state@[k],
            self.bounds@[k],
        ) by {
            if k < last {
                assert(self.state@[k] == state0[k]);
            }
        }
        assert forall|k: int| 0 <= k < n - 1 implies (#[trigger] self.state@[k]).prev == Some(
            self.bounds@[k + 1],
        ) by {
            assert(self.state@[k] == state0[k]);
        }
        match pulled {
            Some(next) => {
                self.last = Ghost(Some(next));
                return Some(next);
            },
            None => {},
        }
        loop
            invariant
                self.schedule.wf(),
                self.interval.wf(),
                self.levels_wf(),
                self.interval == old(self).interval,
                self.initialized,
                !self.completed,
                !old(self).completed,
                self.last == old(self).last,
                old(self).last@.is_some(),
                self.state@.len() >= 1,
                self.chained(self.state@.len() as int),
                self.state@[self.state@.len() - 1].prev.is_some(),
                old(self).last@.unwrap().to.unwrap().ns() <= self.state@[self.state@.len()
                    - 1].prev.unwrap().to.unwrap().ns(),
                old(self).initialized,
                old(self).state@.len() >= 1,
                self.schedule == old(self).schedule,
                lost.0.stepped(lost.1, None),
                self.state@[self.state@.len() - 1] == lost.1,
                self.state@.len() == 1 ==> lost.0 == old(self).state@[0],
                self.state@.len() >= 2 ==> self.state@[0] == old(self).state@[0],
            decreases self.state@.len(),
        {
            let ghost popped_state = self.state@;
            let ghost popped_bounds = self.bounds@;
            let ghost top_len = self.state@.len();
            assert(level_ok(self.interval, popped_state[top_len - 1], popped_bounds[top_len - 1]));
            self.state.pop();
            let ghost popped_openings = self.openings@;
            self.bounds = Ghost(self.bounds@.drop_last());
            self.openings = Ghost(self.openings@.drop_last());
            let ghost popped_runs = self.runs@;
            let ghost popped_yielded = self.yielded@;
            self.runs = Ghost(self.runs@.drop_last());
            self.yielded = Ghost(self.yielded@.drop_last());
            assert forall|k: int| 0 <= k < self.state@.len() implies #[trigger] level_history(
                self.runs@[k],
                self.yielded@[k],
                self.openings@[k],
                self.state@[k],
            ) by {
                assert(self.runs@[k] == popped_runs[k]);
                assert(self.yielded@[k] == popped_yielded[k]);
                assert(self.openings@[k] == popped_openings[k]);
                assert(self.state@[k] == popped_state[k]);
            }
            assert forall|k: int| 0 <= k < self.state@.len() - 1 implies (#[trigger] self.yielded@[k]).len()
                >= 1 && self.yielded@[k].last() == Some(self.bounds@[k + 1]) by {
                assert(self.yielded@[k] == popped_yielded[k]);
                assert(self.bounds@[k + 1] == popped_bounds[k + 1]);
            }
            assert forall|k: int| 0 <= k < self.state@.len() implies self.schedule.items@[k].opened(
                self.bounds@[k],
                #[trigger] self.openings@[k],
            ) by {
                assert(self.openings@[k] == popped_openings[k]);
                assert(self.bounds@[k] == popped_bounds[k]);
            }
            assert forall|k: int| 0 <= k < self.state@.len() implies #[trigger] level_ok(
                self.interval,
                self.state@[k],
                self.bounds@[k],
            ) by {
                assert(self.state@[k] == popped_state[k]);
                assert(self.bounds@[k] == popped_bounds[k]);
            }
            let len = self.state.len();
            if len == 0 {
                self.ended = Ghost(Some((0int, lost.0, lost.1, self.interval)));
                self.completed = true;
                return None;
            }
            assert forall|k: int| 0 <= k < len - 1 implies (#[trigger] self.state@[k]).prev == Some(
                self.bounds@[k + 1],
            ) by {
                assert(self.state@[k] == popped_state[k]);
                assert(self.bounds@[k + 1] == popped_bounds[k + 1]);
            }
            assert forall|a: int, c: int| 1 <= a <= c < len implies (#[trigger] self.bounds@[c]).to.is_some()
                && self.bounds@[c].to.unwrap().ns() <= (#[trigger] self.bounds@[a]).to.unwrap().ns() by {
                assert(self.bounds@[a] == popped_bounds[a]);
                assert(self.bounds@[c] == popped_bounds[c]);
            }
            assert(self.state@[len - 1] == popped_state[len - 1]);
            assert(popped_state[len - 1].prev == Some(popped_bounds[len as int]));
            let ghost b = self.bounds@[len - 1];
            let ghost state0 = self.state@;
            assert(level_ok(self.interval, self.state@[len - 1], self.bounds@[len - 1]));
            let pulled = self.state[len - 1].next();
            proof {
                lost = (state0[len - 1], self.state@[len - 1]);
            }
            let ghost runs0 = self.runs@;
            let ghost yielded0 = self.yielded@;
            self.runs = Ghost(self.runs@.update(len - 1, self.runs@[len - 1].push(self.state@[len - 1])));
            self.yielded = Ghost(self.yielded@.update(len - 1, self.yielded@[len - 1].push(pulled)));
            proof {
                lemma_history_extend(runs0[len - 1], yielded0[len - 1], self.openings@[len - 1], state0[len - 1], self.state@[len - 1], pulled);
                assert forall|k: int| 0 <= k < self.state@.len() implies #[trigger] level_history(
                    self.runs@[k],
                    self.yielded@[k],
                    self.openings@[k],
                    self.state@[k],
                ) by {
                    if k != len - 1 {
                        assert(self.runs@[k] == runs0[k]);
                        assert(self.yielded@[k] == yielded0[k]);
                        assert(self.state@[k] == state0[k]);
                    }
                }
                assert forall|k: int| 0 <= k < self.state@.len() - 1 implies (#[trigger] self.yielded@[k]).len()
                    >= 1 && self.yielded@[k].last() == Some(self.bounds@[k + 1]) by {
                    assert(self.yielded@[k] == yielded0[k]);
                }
            }
            assert(state0[len - 1].within(b));
            assert forall|k: int| 0 <= k < self.state@.len() implies #[trigger] level_ok(
                self.interval,
                self.state@[k],
                self.bounds@[k],
            ) by {
                if k < len - 1 {
                    assert(self.state@[k] == state0[k]);
                }
            }
            assert forall|k: int| 0 <= k < len - 1 implies (#[trigger] self.state@[k]).prev == Some(
                self.bounds@[k + 1],
            ) by {
                assert(self.state@[k] == state0[k]);
            }
            match pulled {
                Some(next) => {
                    if len > 1 {
                        assert(level_ok(self.interval, state0[len - 1], b));
                        assert(next.ends_by(b.to));
                    }
                    match self.init(len, next) {
                        Some(first) => {
                            self.last = Ghost(Some(first));
                            return Some(first);
                        },
                        None => {
                            self.completed = true;
                            return None;
                        },
                    }
                },
                None => {},
            }
        }
    }
}

} // verus!
