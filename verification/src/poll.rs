//! The readiness registry: pollable handles over in-flight readiness
//! conditions and a single-pass poll over a set of them.
//!
//! The model is single-context: a poll pass that finds nothing ready
//! reports a would-suspend outcome, and the surrounding event loop is the
//! suspension point at which the platform makes progress.

use vstd::prelude::*;

verus! {

/// A handle referencing exactly one registered readiness condition.
#[derive(Clone, Copy, Debug, PartialEq, Eq, Structural)]
pub struct Pollable {
    pub id: usize,
}

/// The state of one registered condition.
#[derive(Clone, Copy, Debug, PartialEq, Eq, Structural)]
pub enum CondState {
    /// The watched operation has not made progress yet.
    Pending,
    /// The watched operation can make progress.
    Ready,
    /// The backing resource was destroyed: the condition resolves as ready,
    /// so the owning operation's next call fails fast instead of hanging.
    Gone,
}

/// Tracks every live readiness condition.
pub struct Registry {
    pub conds: Vec<CondState>,
}

impl Registry {
    pub open spec fn count(self) -> nat {
        self.conds@.len()
    }

    pub open spec fn valid(self, p: Pollable) -> bool {
        p.id < self.conds@.len()
    }

    /// Ready and destroyed conditions both resolve a poll.
    pub open spec fn is_ready(self, p: Pollable) -> bool {
        self.valid(p) && (self.conds@[p.id as int] is Ready || self.conds@[p.id as int] is Gone)
    }

    pub fn new() -> (r: Registry)
        ensures
            r.count() == 0,
    {
        Registry { conds: Vec::new() }
    }

    /// Registers a fresh condition, tied to the owning object's current
    /// state: ready already, or still pending.
    pub fn subscribe(&mut self, ready: bool) -> (p: Pollable)
        ensures
            final(self).conds@ == old(self).conds@.push(
                if ready {
                    CondState::Ready
                } else {
                    CondState::Pending
                },
            ),
            p.id == old(self).count(),
            final(self).valid(p),
            final(self).is_ready(p) == ready,
    {
        let p = Pollable { id: self.conds.len() };
        self.conds.push(
            if ready {
                CondState::Ready
            } else {
                CondState::Pending
            },
        );
        p
    }

    /// The platform marks a pending condition as able to make progress.
    /// A condition whose resource is gone stays gone.
    pub fn set_ready(&mut self, p: Pollable)
        requires
            old(self).valid(p),
        ensures
            final(self).conds@ == if old(self).conds@[p.id as int] is Gone {
                old(self).conds@
            } else {
                old(self).conds@.update(p.id as int, CondState::Ready)
            },
            final(self).is_ready(p),
    {
        let cur = self.conds[p.id];
        match cur {
            CondState::Gone => {
                assert(final(self).conds@ =~= old(self).conds@);
            },
            _ => {
                self.conds.set(p.id, CondState::Ready);
            },
        }
    }

    /// The backing resource was destroyed while the condition was still
    /// registered: it resolves as ready rather than blocking forever.
    pub fn retire(&mut self, p: Pollable)
        requires
            old(self).valid(p),
        ensures
            final(self).conds@ == old(self).conds@.update(p.id as int, CondState::Gone),
            final(self).is_ready(p),
    {
        self.conds.set(p.id, CondState::Gone);
    }

    /// Is this condition resolved right now?
    pub fn check(&self, p: Pollable) -> (r: bool)
        requires
            self.valid(p),
        ensures
            r == self.is_ready(p),
    {
        match self.conds[p.id] {
            CondState::Pending => false,
            CondState::Ready => true,
            CondState::Gone => true,
        }
    }

    /// One poll pass over `set`: the positions of every ready pollable, in
    /// input order, or the would-suspend outcome if none is ready — the
    /// pass never invents an empty ready set.
    pub fn poll(&self, set: &Vec<Pollable>) -> (r: Option<Vec<usize>>)
        requires
            forall|i: int| 0 <= i < set@.len() ==> self.valid(#[trigger] set@[i]),
        ensures
            match r {
                Some(ix) => ix@.len() > 0 && ix@ == ready_upto(*self, set@, set@.len() as int),
                None => ready_upto(*self, set@, set@.len() as int).len() == 0,
            },
    {
        let mut out: Vec<usize> = Vec::new();
        let mut i: usize = 0;
        while i < set.len()
            invariant
                i <= set.len(),
                forall|k: int| 0 <= k < set@.len() ==> self.valid(#[trigger] set@[k]),
                out@ == ready_upto(*self, set@, i as int),
            decreases set.len() - i,
        {
            if self.check(set[i]) {
                out.push(i);
            }
            i = i + 1;
            proof {
                assert(out@ =~= ready_upto(*self, set@, i as int));
            }
        }
        if out.len() == 0 {
            None
        } else {
            Some(out)
        }
    }

    /// Waiting on a single pollable is one poll pass over the singleton
    /// set, discarding the position.
    pub fn block(&self, p: Pollable) -> (r: bool)
        requires
            self.valid(p),
        ensures
            r == self.is_ready(p),
    {
        let mut set: Vec<Pollable> = Vec::new();
        set.push(p);
        let got = self.poll(&set);
        proof {
            assert(set@[0] == p);
            lemma_ready_upto(*self, set@, 1);
            let ru = ready_upto(*self, set@, 1);
            if self.is_ready(p) {
                assert(ru.contains(0usize));
            }
            if ru.len() > 0 {
                assert((ru[0] as int) < 1);
                assert(self.is_ready(set@[ru[0] as int]));
            }
        }
        match got {
            Some(_) => true,
            None => false,
        }
    }
}

/// The ready positions among the first `k` entries of `set`, in input
/// order.
pub open spec fn ready_upto(reg: Registry, set: Seq<Pollable>, k: int) -> Seq<usize>
    decreases k,
{
    if k <= 0 {
        Seq::empty()
    } else {
        ready_upto(reg, set, k - 1) + if reg.is_ready(set[k - 1]) {
            seq![(k - 1) as usize]
        } else {
            Seq::empty()
        }
    }
}

/// What a poll pass returns: a sound, complete and strictly ascending list
/// of the ready positions — input order, not readiness-arrival order.
pub proof fn lemma_ready_upto(reg: Registry, set: Seq<Pollable>, k: int)
    requires
        0 <= k <= set.len(),
        set.len() <= usize::MAX,
    ensures
        forall|j: int|
            0 <= j < ready_upto(reg, set, k).len() ==> ((#[trigger] ready_upto(reg, set, k)[j])
                as int) < k && reg.is_ready(set[ready_upto(reg, set, k)[j] as int]),
        forall|j1: int, j2: int|
            0 <= j1 < j2 < ready_upto(reg, set, k).len() ==> #[trigger] ready_upto(reg, set, k)[j1]
                < #[trigger] ready_upto(reg, set, k)[j2],
        forall|i: int|
            0 <= i < k && reg.is_ready(set[i]) ==> ready_upto(reg, set, k).contains(i as usize),
    decreases k,
{
    if k > 0 {
        lemma_ready_upto(reg, set, k - 1);
        let prev = ready_upto(reg, set, k - 1);
        let cur = ready_upto(reg, set, k);
        if reg.is_ready(set[k - 1]) {
            assert(cur =~= prev.push((k - 1) as usize));
        } else {
            assert(cur =~= prev);
        }
        assert forall|j: int|
            0 <= j < cur.len() implies (cur[j] as int) < k && reg.is_ready(
                set[cur[j] as int],
            ) by {
            if j < prev.len() {
                assert(cur[j] == prev[j]);
                assert((prev[j] as int) < k - 1 && reg.is_ready(set[prev[j] as int]));
            } else {
                assert(cur[j] == (k - 1) as usize);
            }
        }
        assert forall|j1: int, j2: int|
            0 <= j1 < j2 < cur.len() implies cur[j1] < cur[j2] by {
            if j2 < prev.len() {
                assert(cur[j1] == prev[j1] && cur[j2] == prev[j2]);
            } else {
                assert(cur[j2] == (k - 1) as usize);
                assert(cur[j1] == prev[j1]);
                assert((prev[j1] as int) < k - 1);
            }
        }
        assert forall|i: int|
            0 <= i < k && reg.is_ready(set[i]) implies cur.contains(i as usize) by {
            if i < k - 1 {
                let j = choose|j: int| 0 <= j < prev.len() && prev[j] == i as usize;
                assert(cur[j] == i as usize);
            } else {
                assert(cur[cur.len() - 1] == i as usize);
            }
        }
    }
}

} // verus!
