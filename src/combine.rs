use vstd::prelude::*;

use crate::interval::Interval;
use crate::period::PeriodIter;

verus! {

/// Where each source of a `Combine` stands.
#[derive(Clone, Copy, Debug)]
pub enum Variant {
    /// The source has run out.
    Finished,
    /// An interval pulled from the source and not yet handed out.
    Fresh(Interval),
    /// The source's last interval was handed out (or none was pulled yet): pull again.
    Taken,
}

pub open spec fn is_taken(v: Variant) -> bool {
    match v {
        Variant::Taken => true,
        _ => false,
    }
}

pub open spec fn is_fresh(v: Variant) -> bool {
    match v {
        Variant::Fresh(_) => true,
        _ => false,
    }
}

pub open spec fn is_finished(v: Variant) -> bool {
    match v {
        Variant::Finished => true,
        _ => false,
    }
}

/// The order in which pulled intervals are handed out: earlier start first, then
/// earlier end, an open end last.
pub open spec fn comes_before(a: Interval, b: Interval) -> bool {
    ||| a.from.ns() < b.from.ns()
    ||| a.from.ns() == b.from.ns() && match (a.to, b.to) {
        (Some(x), Some(y)) => x.ns() < y.ns(),
        (Some(_), None) => true,
        _ => false,
    }
}

/// `a` is handed out strictly before `b`.
pub fn before(a: &Interval, b: &Interval) -> (r: bool)
    requires
        a.wf(),
        b.wf(),
    ensures
        r == comes_before(*a, *b),
{
    if a.from.lt(&b.from) {
        true
    } else if b.from.lt(&a.from) {
        false
    } else {
        match (a.to, b.to) {
            (Some(x), Some(y)) => x.lt(&y),
            (Some(_), None) => true,
            _ => false,
        }
    }
}

/// What a source and its state weigh towards the end of a `Combine` session: each
/// pull lowers it by two at least, and handing an interval out raises it by one.
pub open spec fn weight(s: PeriodIter, v: Variant) -> int {
    2 * s.rank() + match v {
        Variant::Taken => 2int,
        Variant::Fresh(_) => 1int,
        Variant::Finished => 0int,
    }
}

/// The weight of the first `n` sources.
pub open spec fn measure(iters: Seq<PeriodIter>, state: Seq<Variant>, n: int) -> int
    decreases n,
{
    if n <= 0 {
        0
    } else {
        measure(iters, state, n - 1) + weight(iters[n - 1], state[n - 1])
    }
}

proof fn lemma_measure_update(
    iters: Seq<PeriodIter>,
    state: Seq<Variant>,
    n: int,
    i: int,
    s: PeriodIter,
    v: Variant,
)
    requires
        0 <= i < n <= iters.len(),
        n <= state.len(),
    ensures
        measure(iters.update(i, s), state.update(i, v), n) == measure(iters, state, n) - weight(
            iters[i],
            state[i],
        ) + weight(s, v),
    decreases n,
{
    if i < n - 1 {
        lemma_measure_update(iters, state, n - 1, i, s, v);
    } else {
        lemma_measure_same_prefix(iters, state, iters.update(i, s), state.update(i, v), n - 1);
    }
}

proof fn lemma_measure_same_prefix(
    a: Seq<PeriodIter>,
    sa: Seq<Variant>,
    b: Seq<PeriodIter>,
    sb: Seq<Variant>,
    n: int,
)
    requires
        0 <= n <= a.len(),
        n <= b.len(),
        n <= sa.len(),
        n <= sb.len(),
        forall|k: int| 0 <= k < n ==> a[k] == b[k] && sa[k] == sb[k],
    ensures
        measure(a, sa, n) == measure(b, sb, n),
    decreases n,
{
    if n > 0 {
        lemma_measure_same_prefix(a, sa, b, sb, n - 1);
    }
}

proof fn lemma_measure_nonneg(iters: Seq<PeriodIter>, state: Seq<Variant>, n: int)
    ensures
        measure(iters, state, n) >= 0,
    decreases n,
{
    if n > 0 {
        lemma_measure_nonneg(iters, state, n - 1);
    }
}

/// One step of session `a` yields `c` and leaves `b`.
#[verifier::opaque]
pub open spec fn yields(a: PeriodIter, b: PeriodIter, c: Interval) -> bool {
    a.step() == (b, Some(c))
}

/// `m` steps lead from session `a` to session `b`.
pub open spec fn reaches(a: PeriodIter, b: PeriodIter, m: nat) -> bool
    decreases m,
{
    if m == 0 {
        a == b
    } else {
        reaches(a.step().0, b, (m - 1) as nat)
    }
}

proof fn lemma_reaches_step(a: PeriodIter, b: PeriodIter, m: nat)
    requires
        reaches(a, b, m),
    ensures
        reaches(a, b.step().0, m + 1),
    decreases m,
{
    reveal_with_fuel(reaches, 2);
    if m > 0 {
        lemma_reaches_step(a.step().0, b, (m - 1) as nat);
        assert((m + 1 - 1) as nat == m);
    }
}

/// Merges several sessions into one stream, in order and without overlaps.
pub struct Combine {
    pub iterators: Vec<PeriodIter>,
    /// One entry per source, at the same index.
    pub state: Vec<Variant>,
    /// The interval handed out last.
    pub prev: Option<Interval>,
    pub completed: bool,
    /// Each source as it stood before its last pull.
    pub before: Ghost<Seq<PeriodIter>>,
    /// How many times each source was pulled in the last call of `next`.
    pub steps: Ghost<Seq<nat>>,
}

/// What the `k`-th step (counted from 0) of session `s` yields.
pub open spec fn yield_at(s: PeriodIter, k: nat) -> Option<Interval>
    decreases k,
{
    if k == 0 {
        s.step().1
    } else {
        yield_at(s.step().0, (k - 1) as nat)
    }
}

/// `x` is a bounded interval that ends before the bounded interval `prev` ends: handed
/// out after `prev`, nothing of it would be left.
pub open spec fn under(x: Option<Interval>, prev: Option<Interval>) -> bool {
    &&& x.is_some()
    &&& x.unwrap().to.is_some()
    &&& prev.is_some()
    &&& prev.unwrap().to.is_some()
    &&& x.unwrap().to.unwrap().ns() < prev.unwrap().to.unwrap().ns()
}

/// How source `i` of `start` came, by `m` pulls within one call, to session `it`
/// (`bf` before its last pull) with state `v`: every pull but the last yielded an
/// interval lying under `start.prev`, and so did the interval waiting at the start if
/// the source was pulled at all; the last pull yielded the waiting interval, or
/// nothing if the source is finished, or an interval under `start.prev` if it is due
/// to be pulled again. A source not pulled is as it was, or due to be pulled after
/// its waiting interval turned out to lie under `start.prev`.
#[verifier::opaque]
pub open spec fn slot_account(
    start: Combine,
    i: int,
    m: nat,
    it: PeriodIter,
    bf: PeriodIter,
    v: Variant,
) -> bool {
    let s0 = start.iterators@[i];
    let old_v = start.state@[i];
    &&& reaches(s0, it, m)
    &&& m > 0 ==> reaches(s0, bf, (m - 1) as nat)
    &&& forall|k: nat| k + 1 < m ==> under(#[trigger] yield_at(s0, k), start.prev)
    &&& m > 0 && is_fresh(old_v) ==> under(Some(old_v->Fresh_0), start.prev)
    &&& m > 0 ==> match v {
        Variant::Fresh(x) => yield_at(s0, (m - 1) as nat) == Some(x),
        Variant::Finished => yield_at(s0, (m - 1) as nat).is_none(),
        Variant::Taken => under(yield_at(s0, (m - 1) as nat), start.prev),
    }
    &&& m == 0 ==> it == s0 && bf == start.before@[i] && (v == old_v || (is_taken(v) && is_fresh(
        old_v,
    ) && under(Some(old_v->Fresh_0), start.prev)))
}

proof fn lemma_yield_at(s0: PeriodIter, it: PeriodIter, m: nat)
    requires
        reaches(s0, it, m),
    ensures
        yield_at(s0, m) == it.step().1,
    decreases m,
{
    if m > 0 {
        lemma_yield_at(s0.step().0, it, (m - 1) as nat);
    }
}

proof fn lemma_account_pull(
    start: Combine,
    i: int,
    m: nat,
    it: PeriodIter,
    bf: PeriodIter,
    it2: PeriodIter,
    r: Option<Interval>,
)
    requires
        slot_account(start, i, m, it, bf, Variant::Taken),
        it.step() == (it2, r),
    ensures
        slot_account(
            start,
            i,
            m + 1,
            it2,
            it,
            match r {
                Some(x) => Variant::Fresh(x),
                None => Variant::Finished,
            },
        ),
{
    reveal(slot_account);
    let s0 = start.iterators@[i];
    lemma_reaches_step(s0, it, m);
    lemma_yield_at(s0, it, m);
    assert((m + 1 - 1) as nat == m);
    assert forall|k: nat| k + 1 < m + 1 implies under(#[trigger] yield_at(s0, k), start.prev) by {
        if k + 1 < m {
        } else {
            assert(k == (m - 1) as nat);
        }
    }
}

proof fn lemma_account_drop(start: Combine, i: int, m: nat, it: PeriodIter, bf: PeriodIter, x: Interval)
    requires
        slot_account(start, i, m, it, bf, Variant::Fresh(x)),
        under(Some(x), start.prev),
    ensures
        slot_account(start, i, m, it, bf, Variant::Taken),
{
    reveal(slot_account);
}

impl Combine {
    /// An interval pulled from a source is closed and lies within the source's bound,
    /// and a source marked finished yields nothing more.
    pub open spec fn pulled_ok(s: PeriodIter, v: Variant) -> bool {
        match v {
            Variant::Fresh(iv) => iv.wf() && iv.to.is_some() && iv.ends_by(s.limit()),
            Variant::Finished => s.step().1.is_none(),
            Variant::Taken => true,
        }
    }

    pub open spec fn parts_wf(self) -> bool {
        &&& self.iterators@.len() == self.state@.len()
        &&& forall|i: int| 0 <= i < self.iterators@.len() ==> #[trigger] self.iterators@[i].wf()
        &&& forall|i: int|
            0 <= i < self.state@.len() ==> Self::pulled_ok(self.iterators@[i], #[trigger] self.state@[i])
        &&& self.prev.is_some() ==> self.prev.unwrap().wf() && self.prev.unwrap().to.is_some()
        &&& self.before@.len() == self.iterators@.len()
        &&& forall|i: int|
            0 <= i < self.state@.len() && is_fresh(#[trigger] self.state@[i])
                ==> yields(self.before@[i], self.iterators@[i], self.state@[i]->Fresh_0)
    }

    /// Every source of `self` is accounted for, from `start`, by `counts[i]` pulls.
    pub open spec fn accounted(self, start: Combine, counts: Seq<nat>) -> bool {
        &&& counts.len() == self.iterators@.len()
        &&& forall|i: int|
            0 <= i < counts.len() ==> #[trigger] slot_account(
                start,
                i,
                counts[i],
                self.iterators@[i],
                self.before@[i],
                self.state@[i],
            )
    }

    pub open spec fn wf(self) -> bool {
        &&& self.parts_wf()
        &&& !self.completed ==> (exists|i: int|
            0 <= i < self.state@.len() && #[trigger] is_taken(self.state@[i])) || (forall|i: int|
            0 <= i < self.state@.len() ==> !#[trigger] is_fresh(self.state@[i]))
    }

    /// Every source runs within `b`, and what was pulled or handed out lies within it.
    pub open spec fn within(self, b: Interval) -> bool {
        &&& forall|i: int|
            0 <= i < self.iterators@.len() ==> (#[trigger] self.iterators@[i]).limit() == b.to
                && self.iterators@[i].low() >= b.from.ns()
        &&& forall|i: int|
            0 <= i < self.state@.len() && is_fresh(#[trigger] self.state@[i])
                ==> self.state@[i]->Fresh_0.from.ns() >= b.from.ns()
        &&& self.prev.is_some() ==> self.prev.unwrap().from.ns() >= b.from.ns()
            && self.prev.unwrap().ends_by(b.to)
    }

    /// What one call of `next` guarantees: an interval handed out is well formed and
    /// starts no earlier than the previous one ended; a bounded one becomes the new
    /// previous interval, an open-ended one ends the session. Nothing is handed out
    /// only once every source is finished, that is, yields nothing more.
    pub open spec fn stepped(self, next: Combine, r: Option<Interval>) -> bool {
        &&& next.wf()
        &&& next.iterators@.len() == self.iterators@.len()
        &&& self.completed ==> r.is_none()
        &&& r.is_some() ==> r.unwrap().wf() && r.unwrap().to.is_some()
        &&& r.is_some() && self.prev.is_some() ==> self.prev.unwrap().to.unwrap().ns()
            <= r.unwrap().from.ns()
        &&& r.is_some() && r.unwrap().to.is_some() ==> next.prev == r
        &&& r.is_some() && r.unwrap().to.is_none() ==> next.completed
        &&& r.is_none() ==> next.completed && next.prev == self.prev
        &&& r.is_none() && !self.completed ==> forall|i: int|
            0 <= i < next.state@.len() ==> is_finished(#[trigger] next.state@[i])
        &&& r.is_none() && !self.completed ==> next.accounted(self, next.steps@)
        &&& r.is_some() ==> exists|j: int, c: Interval| #[trigger] Self::chose(self, next, r.unwrap(), j, c)
    }

    /// `iv` was handed out from candidate `c` of source `j`: every source is accounted
    /// for by the pulls of this call (`slot_account`), `c` standing as source `j`'s
    /// waiting interval, so that `c` is what the source yielded last (or was waiting
    /// at the start of the call), and every interval passed over lies under the
    /// previous one. No candidate
    /// left waiting comes before `c`, none of a lower source ties with it, every other
    /// source has been pulled, and `c` was cut to start where the previous interval
    /// ended, if it started earlier.
    pub open spec fn chose(self, next: Combine, iv: Interval, j: int, c: Interval) -> bool {
        &&& 0 <= j < next.state@.len()
        &&& is_taken(next.state@[j])
        &&& forall|i: int| 0 <= i < next.state@.len() && i != j ==> !is_taken(#[trigger] next.state@[i])
        &&& forall|i: int|
            0 <= i < next.state@.len() && is_fresh(#[trigger] next.state@[i]) ==> !comes_before(
                next.state@[i]->Fresh_0,
                c,
            ) && (i < j ==> comes_before(c, next.state@[i]->Fresh_0))
        &&& c.wf()
        &&& yields(next.before@[j], next.iterators@[j], c)
        &&& next.steps@.len() == next.iterators@.len()
        &&& forall|i: int|
            0 <= i < next.steps@.len() ==> #[trigger] slot_account(
                self,
                i,
                next.steps@[i],
                next.iterators@[i],
                next.before@[i],
                next.state@.update(j, Variant::Fresh(c))[i],
            )
        &&& iv.to == c.to
        &&& iv.from == if c.to.is_some() && self.prev.is_some() && c.from.ns()
            < self.prev.unwrap().to.unwrap().ns() {
            self.prev.unwrap().to.unwrap()
        } else {
            c.from
        }
    }

    pub fn new(iterators: Vec<PeriodIter>) -> (r: Combine)
        requires
            forall|i: int| 0 <= i < iterators@.len() ==> #[trigger] iterators@[i].wf(),
        ensures
            r.wf(),
            r.iterators@ == iterators@,
            forall|i: int| 0 <= i < r.state@.len() ==> is_taken(#[trigger] r.state@[i]),
            r.prev.is_none(),
            !r.completed,
            forall|b: Interval|
                (forall|i: int|
                    0 <= i < iterators@.len() ==> (#[trigger] iterators@[i]).limit() == b.to
                        && iterators@[i].low() >= b.from.ns()) ==> #[trigger] r.within(b),
    {
        let mut state: Vec<Variant> = Vec::new();
        let mut i: usize = 0;
        while i < iterators.len()
            invariant
                i <= iterators@.len(),
                state@.len() == i,
                forall|k: int| 0 <= k < i ==> is_taken(#[trigger] state@[k]),
            decreases iterators@.len() - i,
        {
            state.push(Variant::Taken);
            i = i + 1;
        }
        let ghost before = iterators@;
        Combine {
            iterators,
            state,
            prev: None,
            completed: false,
            before: Ghost(before),
            steps: Ghost(Seq::empty()),
        }
    }

    #[verifier::spinoff_prover]
    #[verifier::rlimit(100)]
    pub fn next(&mut self) -> (r: Option<Interval>)
        requires
            old(self).wf(),
        ensures
            old(self).stepped(*final(self), r),
            forall|b: Interval| #[trigger]
                old(self).within(b) ==> final(self).within(b) && (r.is_some()
                    ==> r.unwrap().from.ns() >= b.from.ns() && r.unwrap().ends_by(b.to)),
    {
        if self.completed {
            return None;
        }
        let n = self.state.len();
        let ghost mut counts: Seq<nat> = Seq::new(n as nat, |k: int| 0nat);
        assert forall|k: int| 0 <= k < n implies #[trigger] slot_account(
            *old(self),
            k,
            counts[k],
            self.iterators@[k],
            self.before@[k],
            self.state@[k],
        ) by {
            reveal(slot_account);
        }
        loop
            invariant
                self.wf(),
                self.accounted(*old(self), counts),
                !self.completed,
                self.prev == old(self).prev,
                !old(self).completed,
                self.state@.len() == n,
                self.iterators@.len() == n,
                n == old(self).iterators@.len(),
                forall|b: Interval| #[trigger] old(self).within(b) ==> self.within(b),
            decreases measure(self.iterators@, self.state@, n as int),
        {
            let ghost m0 = measure(self.iterators@, self.state@, n as int);
            let ghost head = self.state@;
            let ghost mut pulls: int = 0;
            let mut i: usize = 0;
            while i < n
                invariant
                    self.parts_wf(),
                    self.accounted(*old(self), counts),
                    !self.completed,
                    self.prev == old(self).prev,
                    self.state@.len() == n,
                    self.iterators@.len() == n,
                    i <= n,
                    forall|k: int| 0 <= k < i ==> !is_taken(#[trigger] self.state@[k]),
                    head.len() == n,
                    forall|k: int| i <= k < n ==> #[trigger] self.state@[k] == head[k],
                    forall|k: int| 0 <= k < i && !is_taken(head[k]) ==> #[trigger] self.state@[k] == head[k],
                    measure(self.iterators@, self.state@, n as int) + 2 * pulls <= m0,
                    pulls >= 0,
                    (exists|k: int| 0 <= k < i && #[trigger] is_taken(head[k])) ==> pulls >= 1,
                    forall|b: Interval| #[trigger] old(self).within(b) ==> self.within(b),
                decreases n - i,
            {
                match self.state[i] {
                    Variant::Taken => {
                        let ghost it0 = self.iterators@[i as int];
                        let ghost iters0 = self.iterators@;
                        let ghost st0 = self.state@;
                        let pulled = self.iterators[i].next();
                        proof {
                            if pulled.is_none() {
                                crate::period::lemma_exhausted_stays(it0);
                            }
                        }
                        let v = match pulled {
                            Some(iv) => Variant::Fresh(iv),
                            None => Variant::Finished,
                        };
                        self.state.set(i, v);
                        let ghost c0 = counts;
                        let ghost b0 = self.before@;
                        self.before = Ghost(self.before@.update(i as int, it0));
                        proof {
                            lemma_account_pull(*old(self), i as int, c0[i as int], it0, b0[i as int], self.iterators@[i as int], pulled);
                            counts = counts.update(i as int, c0[i as int] + 1);
                            assert forall|k: int| 0 <= k < n && is_fresh(#[trigger] self.state@[k])
                                implies yields(self.before@[k], self.iterators@[k], self.state@[k]->Fresh_0) by {
                                if k == i {
                                    reveal(yields);
                                } else {
                                    assert(self.state@[k] == st0[k]);
                                    assert(self.iterators@[k] == iters0[k]);
                                }
                            }
                            assert forall|k: int| 0 <= k < n implies #[trigger] slot_account(
                                *old(self),
                                k,
                                counts[k],
                                self.iterators@[k],
                                self.before@[k],
                                self.state@[k],
                            ) by {
                                if k != i {
                                    assert(counts[k] == c0[k]);
                                    assert(self.state@[k] == st0[k]);
                                    assert(self.iterators@[k] == iters0[k]);
                                    assert(self.before@[k] == b0[k]);
                                }
                            }
                        }
                        proof {
                            lemma_measure_update(
                                iters0,
                                st0,
                                n as int,
                                i as int,
                                self.iterators@[i as int],
                                v,
                            );
                            assert(self.iterators@ == iters0.update(i as int, self.iterators@[i as int]));
                            pulls = pulls + 1;
                            assert forall|k: int| 0 <= k < n implies #[trigger] self.iterators@[k].wf() by {
                                if k != i {
                                    assert(self.iterators@[k] == iters0[k]);
                                }
                            }
                            assert forall|k: int| 0 <= k < n implies Self::pulled_ok(self.iterators@[k], #[trigger] self.state@[k]) by {
                                if k != i {
                                    assert(self.iterators@[k] == iters0[k]);
                                    assert(self.state@[k] == st0[k]);
                                }
                            }
                            assert forall|b: Interval| #[trigger] old(self).within(b) implies self.within(b) by {
                                if old(self).within(b) {
                                    assert forall|k: int| 0 <= k < n && is_fresh(#[trigger] self.state@[k])
                                        implies self.state@[k]->Fresh_0.from.ns() >= b.from.ns() by {
                                        if k != i {
                                            assert(self.state@[k] == st0[k]);
                                        }
                                    }
                                    assert forall|k: int| 0 <= k < n implies (#[trigger] self.iterators@[k]).limit() == b.to
                                        && self.iterators@[k].low() >= b.from.ns() by {
                                        if k != i {
                                            assert(self.iterators@[k] == iters0[k]);
                                        }
                                    }
                                }
                            }
                        }
                    },
                    _ => {},
                }
                i = i + 1;
            }
            let ghost st_pulled = self.state@;
            let ghost it_pulled = self.iterators@;
            let mut best: Option<(usize, Interval)> = None;
            let mut j: usize = 0;
            while j < n
                invariant
                    self.parts_wf(),
                    self.accounted(*old(self), counts),
                    self.state@ == st_pulled,
                    self.iterators@ == it_pulled,
                    self.state@.len() == n,
                    j <= n,
                    best.is_none() ==> forall|k: int| 0 <= k < j ==> !is_fresh(#[trigger] self.state@[k]),
                    best.is_some() ==> best.unwrap().0 < j && self.state@[best.unwrap().0 as int]
                        == Variant::Fresh(best.unwrap().1) && best.unwrap().1.wf()
                        && best.unwrap().1.to.is_some(),
                    best.is_some() ==> forall|k: int|
                        0 <= k < j && is_fresh(#[trigger] self.state@[k]) ==> !comes_before(
                            self.state@[k]->Fresh_0,
                            best.unwrap().1,
                        ) && (k < best.unwrap().0 ==> comes_before(
                            best.unwrap().1,
                            self.state@[k]->Fresh_0,
                        )),
                    forall|k: int| 0 <= k < n ==> !is_taken(#[trigger] self.state@[k]),
                decreases n - j,
            {
                match self.state[j] {
                    Variant::Fresh(iv) => {
                        let better = match best {
                            None => true,
                            Some((_, b)) => before(&iv, &b),
                        };
                        if better {
                            best = Some((j, iv));
                        }
                    },
                    _ => {},
                }
                j = j + 1;
            }
            match best {
                None => {
                    self.completed = true;
                    self.steps = Ghost(counts);
                    assert forall|i: int| 0 <= i < n implies is_finished(#[trigger] self.state@[i]) by {
                        assert(!is_taken(self.state@[i]) && !is_fresh(self.state@[i]));
                    }
                    return None;
                },
                Some((b, cand)) => {
                    let ghost st1 = self.state@;
                    let ghost iters1 = self.iterators@;
                    self.state.set(b, Variant::Taken);
                    proof {
                        lemma_measure_update(iters1, st1, n as int, b as int, iters1[b as int], Variant::Taken);
                        assert(self.iterators@ == iters1.update(b as int, iters1[b as int]));
                        assert(is_taken(self.state@[b as int]));
                        assert(self.state@ == st1.update(b as int, Variant::Taken));
                        assert(pulls >= 1) by {
                            if !(exists|k: int| 0 <= k < n && #[trigger] is_taken(head[k])) {
                                assert(is_fresh(head[b as int]));
                            }
                        }
                        assert forall|bd: Interval| #[trigger] old(self).within(bd) implies self.within(bd) by {
                            if old(self).within(bd) {
                                assert forall|k: int| 0 <= k < n && is_fresh(#[trigger] self.state@[k])
                                    implies self.state@[k]->Fresh_0.from.ns() >= bd.from.ns() by {
                                    assert(self.state@[k] == st1[k]);
                                }
                            }
                        }
                    }
                    proof {
                        assert(yields(self.before@[b as int], self.iterators@[b as int], cand));
                        assert forall|k: int| 0 <= k < n implies #[trigger] slot_account(
                            *old(self),
                            k,
                            counts[k],
                            self.iterators@[k],
                            self.before@[k],
                            self.state@.update(b as int, Variant::Fresh(cand))[k],
                        ) by {
                            assert(slot_account(*old(self), k, counts[k], self.iterators@[k], self.before@[k], st1[k]));
                            if k != b {
                                assert(self.state@[k] == st1[k]);
                            }
                        }
                    }
                    assert forall|i: int| 0 <= i < n && i != b implies !is_taken(#[trigger] self.state@[i]) by {
                        assert(self.state@[i] == st1[i]);
                    }
                    assert forall|i: int| 0 <= i < n && is_fresh(#[trigger] self.state@[i]) implies !comes_before(
                        self.state@[i]->Fresh_0,
                        cand,
                    ) && (i < b ==> comes_before(cand, self.state@[i]->Fresh_0)) by {
                        assert(self.state@[i] == st1[i]);
                    }
                    match cand.to {
                        None => {
                            // nothing after an open-ended interval could avoid overlapping it
                            self.completed = true;
                            self.steps = Ghost(counts);
                            assert(Self::chose(*old(self), *self, cand, b as int, cand));
                            return Some(cand);
                        },
                        Some(to) => {
                            let mut iv = cand;
                            match self.prev {
                                Some(p) => {
                                    let pto = p.to.unwrap();
                                    if iv.from.lt(&pto) {
                                        iv.from = pto;
                                        if to.lt(&pto) {
                                            // the whole interval lies under the previous one
                                            proof {
                                                lemma_measure_nonneg(self.iterators@, self.state@, n as int);
                                                lemma_account_drop(*old(self), b as int, counts[b as int], self.iterators@[b as int], self.before@[b as int], cand);
                                                assert forall|k: int| 0 <= k < n implies #[trigger] slot_account(
                                                    *old(self),
                                                    k,
                                                    counts[k],
                                                    self.iterators@[k],
                                                    self.before@[k],
                                                    self.state@[k],
                                                ) by {
                                                    if k != b {
                                                        assert(self.state@[k] == st1[k]);
                                                    }
                                                }
                                            }
                                            continue;
                                        }
                                    }
                                },
                                None => {},
                            }
                            self.prev = Some(iv);
                            self.steps = Ghost(counts);
                            assert(Self::chose(*old(self), *self, iv, b as int, cand));
                            return Some(iv);
                        },
                    }
                },
            }
        }
    }
}

} // verus!
