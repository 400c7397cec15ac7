//! The handle translation table: an injective bidirectional mapping between
//! stable 128-bit engine identifiers and volatile solver handles.
//!
//! One table exists per entity kind (bodies, colliders, joints) and is never
//! shared across kinds.  Entries are kept in insertion order so that the
//! serialized form of a world is deterministic; lookups scan the entries,
//! trading speed for a directly checkable injectivity invariant.

use vstd::prelude::*;

use crate::handles::SolverHandle;

verus! {

/// One entry of a translation table.
#[derive(Clone, Copy, PartialEq, Eq, Structural, Debug)]
pub struct TablePair {
    /// The stable engine identifier.
    pub engine: u128,
    /// The solver handle it currently denotes.
    pub solver: SolverHandle,
}

/// An injective bidirectional engine-to-solver handle mapping.
#[derive(Clone, PartialEq, Debug)]
pub struct HandleTable {
    pairs: Vec<TablePair>,
}

impl HandleTable {
    /// The entries of the table, in insertion order.
    pub closed spec fn view(self) -> Seq<TablePair> {
        self.pairs@
    }

    /// The table holds some pair with this engine identifier.
    pub open spec fn has_engine(self, e: u128) -> bool {
        exists|i: int| 0 <= i < self@.len() && (#[trigger] self@[i]).engine == e
    }

    /// The table holds some pair with this solver handle.
    pub open spec fn has_solver(self, s: SolverHandle) -> bool {
        exists|i: int| 0 <= i < self@.len() && (#[trigger] self@[i]).solver == s
    }

    /// The table maps this engine identifier to this solver handle.
    pub open spec fn maps_to(self, e: u128, s: SolverHandle) -> bool {
        seq_maps_to(self@, e, s)
    }

    /// Injectivity: no engine identifier and no solver handle occurs twice.
    pub open spec fn wf(self) -> bool {
        forall|i: int, j: int|
            0 <= i < j < self@.len() ==> (#[trigger] self@[i]).engine != (#[trigger] self@[j]).engine
                && self@[i].solver != self@[j].solver
    }

    /// Creates an empty table.
    pub fn new() -> (r: HandleTable)
        ensures
            r@ =~= Seq::<TablePair>::empty(),
            r.wf(),
    {
        HandleTable { pairs: Vec::new() }
    }

    /// Number of pairs currently in the table.
    pub fn len(&self) -> (r: usize)
        ensures
            r == self@.len(),
    {
        self.pairs.len()
    }

    /// The pair at the given position, in insertion order.
    pub fn pair_at(&self, i: usize) -> (r: TablePair)
        requires
            i < self@.len(),
        ensures
            r == self@[i as int],
    {
        self.pairs[i]
    }

    /// Builds a table directly from a pair list, as the deserializer does;
    /// nothing is claimed about injectivity, which the read path checks
    /// separately.
    pub fn from_pairs(pairs: Vec<TablePair>) -> (r: HandleTable)
        ensures
            r@ == pairs@,
    {
        HandleTable { pairs }
    }

    /// Registers a pair of a fresh engine identifier and a fresh solver
    /// handle.  Keeping both sides fresh is what keeps the mapping injective.
    pub fn insert(&mut self, e: u128, s: SolverHandle)
        requires
            old(self).wf(),
            !old(self).has_engine(e),
            !old(self).has_solver(s),
        ensures
            final(self)@ == old(self)@.push(TablePair { engine: e, solver: s }),
            final(self).wf(),
    {
        self.pairs.push(TablePair { engine: e, solver: s });
        proof {
            let new = self@;
            let n = new.len() - 1;
            assert forall|i: int, j: int| 0 <= i < j < new.len() implies (#[trigger] new[i]).engine
                != (#[trigger] new[j]).engine && new[i].solver != new[j].solver by {
                if j < n {
                    assert(old(self)@[i] == new[i] && old(self)@[j] == new[j]);
                } else {
                    assert(old(self)@[i] == new[i]);
                }
            }
        }
    }

    /// Looks the solver handle up for an engine identifier.
    pub fn value_of(&self, e: u128) -> (r: Option<SolverHandle>)
        ensures
            match r {
                Some(s) => self.maps_to(e, s),
                None => !self.has_engine(e),
            },
    {
        let n = self.pairs.len();
        let mut i: usize = 0;
        while i < n
            invariant
                n == self@.len(),
                i <= n,
                forall|j: int| 0 <= j < i ==> (#[trigger] self@[j]).engine != e,
            decreases n - i,
        {
            if self.pairs[i].engine == e {
                return Some(self.pairs[i].solver);
            }
            i += 1;
        }
        None
    }

    /// Looks the engine identifier up for a solver handle.
    pub fn key_of(&self, s: SolverHandle) -> (r: Option<u128>)
        ensures
            match r {
                Some(e) => self.maps_to(e, s),
                None => !self.has_solver(s),
            },
    {
        let n = self.pairs.len();
        let mut i: usize = 0;
        while i < n
            invariant
                n == self@.len(),
                i <= n,
                forall|j: int| 0 <= j < i ==> (#[trigger] self@[j]).solver != s,
            decreases n - i,
        {
            if self.pairs[i].solver == s {
                return Some(self.pairs[i].engine);
            }
            i += 1;
        }
        None
    }

    /// Whether the table holds a pair for this engine identifier.
    pub fn contains_engine(&self, e: u128) -> (r: bool)
        ensures
            r == self.has_engine(e),
    {
        self.value_of(e).is_some()
    }

    /// Removes the pair at a known position and states how the rest moves up.
    fn remove_at(&mut self, i: usize)
        requires
            old(self).wf(),
            i < old(self)@.len(),
        ensures
            final(self)@ == old(self)@.remove(i as int),
            final(self).wf(),
            !final(self).has_engine(old(self)@[i as int].engine),
            !final(self).has_solver(old(self)@[i as int].solver),
            forall|e: u128, s: SolverHandle|
                final(self).maps_to(e, s) <==> old(self).maps_to(e, s) && e != old(
                    self,
                )@[i as int].engine,
            forall|e: u128|
                #[trigger] final(self).has_engine(e) <==> old(self).has_engine(e) && e != old(
                    self,
                )@[i as int].engine,
            forall|s: SolverHandle|
                #[trigger] final(self).has_solver(s) <==> old(self).has_solver(s) && s != old(
                    self,
                )@[i as int].solver,
    {
        self.pairs.remove(i);
        proof {
            let pre = old(self)@;
            let post = self@;
            let ii = i as int;
            assert(post =~= pre.remove(ii));
            assert forall|j: int, k: int| 0 <= j < k < post.len() implies (#[trigger] post[j]).engine
                != (#[trigger] post[k]).engine && post[j].solver != post[k].solver by {
                let j0 = if j < ii { j } else { j + 1 };
                let k0 = if k < ii { k } else { k + 1 };
                assert(pre[j0] == post[j] && pre[k0] == post[k]);
            }
            assert forall|e: u128, s: SolverHandle| final(self).maps_to(e, s) implies old(
                self,
            ).maps_to(e, s) && e != pre[ii].engine by {
                let j = choose|j: int|
                    0 <= j < post.len() && (#[trigger] post[j]).engine == e && post[j].solver == s;
                let j0 = if j < ii { j } else { j + 1 };
                assert(pre[j0] == post[j]);
                if e == pre[ii].engine {
                    assert(pre[j0].engine == pre[ii].engine && j0 != ii);
                }
            }
            assert forall|e: u128, s: SolverHandle| old(self).maps_to(e, s) && e != pre[ii].engine
                implies final(self).maps_to(e, s) by {
                let j = choose|j: int|
                    0 <= j < pre.len() && (#[trigger] pre[j]).engine == e && pre[j].solver == s;
                let j1 = if j < ii { j } else { j - 1 };
                assert(post[j1] == pre[j]);
            }
            assert forall|e: u128| old(self).has_engine(e) && e != pre[ii].engine implies #[trigger]
            final(self).has_engine(e) by {
                let j = choose|j: int| 0 <= j < pre.len() && (#[trigger] pre[j]).engine == e;
                let j1 = if j < ii { j } else { j - 1 };
                assert(post[j1] == pre[j]);
            }
            assert forall|e: u128| #[trigger] final(self).has_engine(e) implies old(
                self,
            ).has_engine(e) && e != pre[ii].engine by {
                let j = choose|j: int| 0 <= j < post.len() && (#[trigger] post[j]).engine == e;
                let j0 = if j < ii { j } else { j + 1 };
                assert(pre[j0] == post[j]);
                if e == pre[ii].engine {
                    assert(pre[j0].engine == pre[ii].engine && j0 != ii);
                }
            }
            assert forall|s: SolverHandle| old(self).has_solver(s) && s != pre[ii].solver
                implies #[trigger] final(self).has_solver(s) by {
                let j = choose|j: int| 0 <= j < pre.len() && (#[trigger] pre[j]).solver == s;
                let j1 = if j < ii { j } else { j - 1 };
                assert(post[j1] == pre[j]);
            }
            assert forall|s: SolverHandle| #[trigger] final(self).has_solver(s) implies old(
                self,
            ).has_solver(s) && s != pre[ii].solver by {
                let j = choose|j: int| 0 <= j < post.len() && (#[trigger] post[j]).solver == s;
                let j0 = if j < ii { j } else { j + 1 };
                assert(pre[j0] == post[j]);
                if s == pre[ii].solver {
                    assert(pre[j0].solver == pre[ii].solver && j0 != ii);
                }
            }
        }
    }

    /// Removes the pair keyed by an engine identifier; removing one side
    /// removes the whole pair.  Absent identifiers are reported, not fatal.
    pub fn remove_by_key(&mut self, e: u128) -> (r: Option<SolverHandle>)
        requires
            old(self).wf(),
        ensures
            final(self).wf(),
            match r {
                Some(s) => {
                    &&& old(self).maps_to(e, s)
                    &&& !final(self).has_engine(e)
                    &&& !final(self).has_solver(s)
                    &&& final(self)@.len() == old(self)@.len() - 1
                    &&& forall|e2: u128, s2: SolverHandle|
                        final(self).maps_to(e2, s2) <==> old(self).maps_to(e2, s2) && e2 != e
                    &&& forall|e2: u128|
                        #[trigger] final(self).has_engine(e2) <==> old(self).has_engine(e2) && e2
                            != e
                    &&& forall|s2: SolverHandle|
                        #[trigger] final(self).has_solver(s2) <==> old(self).has_solver(s2) && s2
                            != s
                },
                None => !old(self).has_engine(e) && *final(self) == *old(self),
            },
    {
        let n = self.pairs.len();
        let mut i: usize = 0;
        while i < n
            invariant
                n == self@.len(),
                i <= n,
                self.wf(),
                *self == *old(self),
                forall|j: int| 0 <= j < i ==> (#[trigger] self@[j]).engine != e,
            decreases n - i,
        {
            if self.pairs[i].engine == e {
                let s = self.pairs[i].solver;
                self.remove_at(i);
                return Some(s);
            }
            i += 1;
        }
        None
    }

    /// Removes the pair keyed by a solver handle; removing one side removes
    /// the whole pair.  Absent handles are reported, not fatal.
    pub fn remove_by_value(&mut self, s: SolverHandle) -> (r: Option<u128>)
        requires
            old(self).wf(),
        ensures
            final(self).wf(),
            match r {
                Some(e) => {
                    &&& old(self).maps_to(e, s)
                    &&& !final(self).has_engine(e)
                    &&& !final(self).has_solver(s)
                    &&& final(self)@.len() == old(self)@.len() - 1
                    &&& forall|e2: u128, s2: SolverHandle|
                        final(self).maps_to(e2, s2) <==> old(self).maps_to(e2, s2) && e2 != e
                    &&& forall|e2: u128|
                        #[trigger] final(self).has_engine(e2) <==> old(self).has_engine(e2) && e2
                            != e
                    &&& forall|s2: SolverHandle|
                        #[trigger] final(self).has_solver(s2) <==> old(self).has_solver(s2) && s2
                            != s
                },
                None => !old(self).has_solver(s) && *final(self) == *old(self),
            },
    {
        let n = self.pairs.len();
        let mut i: usize = 0;
        while i < n
            invariant
                n == self@.len(),
                i <= n,
                self.wf(),
                *self == *old(self),
                forall|j: int| 0 <= j < i ==> (#[trigger] self@[j]).solver != s,
            decreases n - i,
        {
            if self.pairs[i].solver == s {
                let e = self.pairs[i].engine;
                self.remove_at(i);
                return Some(e);
            }
            i += 1;
        }
        None
    }
}

/// Some entry of a pair sequence maps this engine identifier to this solver
/// handle.
pub open spec fn seq_maps_to(s: Seq<TablePair>, e: u128, sv: SolverHandle) -> bool {
    exists|i: int| 0 <= i < s.len() && (#[trigger] s[i]).engine == e && s[i].solver == sv
}

/// Under injectivity, an engine identifier translates to at most one solver
/// handle.
pub proof fn lemma_maps_to_unique(t: HandleTable, e: u128, s1: SolverHandle, s2: SolverHandle)
    requires
        t.wf(),
        t.maps_to(e, s1),
        t.maps_to(e, s2),
    ensures
        s1 == s2,
{
    let i = choose|i: int| 0 <= i < t@.len() && (#[trigger] t@[i]).engine == e && t@[i].solver == s1;
    let j = choose|j: int| 0 <= j < t@.len() && (#[trigger] t@[j]).engine == e && t@[j].solver == s2;
    if i < j {
        assert(t@[i].engine != t@[j].engine);
    } else if j < i {
        assert(t@[j].engine != t@[i].engine);
    }
}

/// Under injectivity, a solver handle is translated to by at most one
/// engine identifier.
pub proof fn lemma_solver_unique(t: HandleTable, e1: u128, e2: u128, s: SolverHandle)
    requires
        t.wf(),
        t.maps_to(e1, s),
        t.maps_to(e2, s),
    ensures
        e1 == e2,
{
    let i = choose|i: int| 0 <= i < t@.len() && (#[trigger] t@[i]).engine == e1 && t@[i].solver == s;
    let j = choose|j: int| 0 <= j < t@.len() && (#[trigger] t@[j]).engine == e2 && t@[j].solver == s;
    if i < j {
        assert(t@[i].solver != t@[j].solver);
    } else if j < i {
        assert(t@[j].solver != t@[i].solver);
    }
}

impl Default for HandleTable {
    /// The default table is empty.
    fn default() -> (r: HandleTable)
        ensures
            r@ =~= Seq::<TablePair>::empty(),
            r.wf(),
    {
        HandleTable::new()
    }
}

} // verus!
