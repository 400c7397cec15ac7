//! Generation-tagged dense storage for live solver entities.
//!
//! A freed slot keeps a bumped generation counter and may be reused by a
//! later insertion, so a handle into the pool is only valid while its
//! generation matches the slot's.  This is the volatile handle space that
//! the translation table shields the rest of the engine from.

use vstd::prelude::*;
use vstd::pervasive::VecAdditionalExecFns;

use crate::handles::SolverHandle;

verus! {

#[derive(Clone, Debug)]
enum PoolSlot<T> {
    Vacant { generation: u32 },
    Occupied { generation: u32, value: T },
}

/// A live slot index is within the slot count.
pub broadcast proof fn lemma_live_at_bounds<T>(p: Pool<T>, i: int)
    requires
        #[trigger] p.live_at(i),
    ensures
        0 <= i < p.slot_count_spec(),
{
}

/// A well-formed pool's slot indices fit the handle's index width.
pub broadcast proof fn lemma_wf_slot_count<T>(p: Pool<T>)
    requires
        #[trigger] p.wf(),
    ensures
        p.slot_count_spec() <= u32::MAX,
{
}

/// Dense storage addressed by generation-tagged handles.
#[derive(Clone, Debug)]
pub struct Pool<T> {
    slots: Vec<PoolSlot<T>>,
    free: Vec<u32>,
}

impl<T> Pool<T> {
    /// Number of slots, vacant ones included.
    pub closed spec fn slot_count_spec(self) -> nat {
        self.slots@.len()
    }

    /// Whether the slot at this index currently holds a value.
    pub closed spec fn live_at(self, i: int) -> bool {
        0 <= i < self.slots@.len() && self.slots@[i] is Occupied
    }

    /// The generation tag of the slot at this index.
    pub closed spec fn gen_at(self, i: int) -> u32 {
        match self.slots@[i] {
            PoolSlot::Vacant { generation } => generation,
            PoolSlot::Occupied { generation, .. } => generation,
        }
    }

    /// The value held by the (occupied) slot at this index.
    pub closed spec fn val_at(self, i: int) -> T {
        match self.slots@[i] {
            PoolSlot::Occupied { value, .. } => value,
            PoolSlot::Vacant { .. } => arbitrary(),
        }
    }

    /// Whether this handle denotes a live entity.
    pub open spec fn contains(self, h: SolverHandle) -> bool {
        self.live_at(h.index as int) && self.gen_at(h.index as int) == h.generation
    }

    /// The value a live handle denotes.
    pub open spec fn value_of(self, h: SolverHandle) -> T {
        self.val_at(h.index as int)
    }

    /// The handle of the (occupied) slot at this index.
    pub open spec fn handle_of(self, i: int) -> SolverHandle {
        SolverHandle { index: i as u32, generation: self.gen_at(i) }
    }

    /// Whether no freed slot is waiting for reuse; a freshly created pool
    /// stays in this state while it only grows, and then hands out the
    /// dense handles 0, 1, 2, ... in insertion order.
    pub closed spec fn no_free_slots(self) -> bool {
        self.free@.len() == 0
    }

    /// Internal consistency: the free list points at distinct vacant slots,
    /// and slot indices fit the handle's index width.
    pub closed spec fn wf(self) -> bool {
        &&& self.slots@.len() <= u32::MAX
        &&& forall|j: int|
            0 <= j < self.free@.len() ==> (#[trigger] self.free@[j]) < self.slots@.len()
                && self.slots@[self.free@[j] as int] is Vacant
        &&& forall|j: int, k: int|
            0 <= j < k < self.free@.len() ==> (#[trigger] self.free@[j]) != (
            #[trigger] self.free@[k])
    }

    /// Creates an empty pool.
    pub fn new() -> (r: Pool<T>)
        ensures
            r.wf(),
            r.slot_count_spec() == 0,
            r.no_free_slots(),
    {
        Pool { slots: Vec::new(), free: Vec::new() }
    }

    /// Number of slots, vacant ones included.
    pub fn slot_count(&self) -> (r: usize)
        ensures
            r == self.slot_count_spec(),
    {
        self.slots.len()
    }

    /// The handle of the slot at an index, if that slot is occupied.
    pub fn handle_at(&self, i: usize) -> (r: Option<SolverHandle>)
        requires
            i < self.slot_count_spec(),
        ensures
            match r {
                Some(h) => self.live_at(i as int) && h == self.handle_of(i as int),
                None => !self.live_at(i as int),
            },
    {
        match &self.slots[i] {
            PoolSlot::Occupied { generation, .. } => Some(
                SolverHandle { index: i as u32, generation: *generation },
            ),
            PoolSlot::Vacant { .. } => None,
        }
    }

    /// Number of live slots among the first `n` slots.
    pub closed spec fn live_count_upto(self, n: int) -> nat
        decreases n,
    {
        if n <= 0 {
            0
        } else {
            self.live_count_upto(n - 1) + if self.live_at(n - 1) {
                1nat
            } else {
                0nat
            }
        }
    }

    /// Counting over an empty prefix gives zero.
    pub broadcast proof fn lemma_live_count_base(self, n: int)
        requires
            n <= 0,
        ensures
            #[trigger] self.live_count_upto(n) == 0,
    {
    }

    /// Counting over one more slot adds that slot's liveness.
    pub broadcast proof fn lemma_live_count_step(self, n: int)
        requires
            n > 0,
        ensures
            #[trigger] self.live_count_upto(n) == self.live_count_upto(n - 1) + if self.live_at(
                n - 1,
            ) {
                1nat
            } else {
                0nat
            },
    {
    }

    /// Number of live slots.
    pub open spec fn live_count(self) -> nat {
        self.live_count_upto(self.slot_count_spec() as int)
    }

    /// Position of a slot in the dense save-stable ordering: how many live
    /// slots precede it.
    pub open spec fn live_rank(self, i: int) -> nat {
        self.live_count_upto(i)
    }

    /// Counts the live slots before an index, which is that slot's dense
    /// rank.
    pub fn live_rank_exec(&self, idx: u32) -> (r: usize)
        requires
            idx as int <= self.slot_count_spec(),
        ensures
            r == self.live_rank(idx as int),
    {
        let mut count: usize = 0;
        let mut j: usize = 0;
        let end = idx as usize;
        while j < end
            invariant
                j <= end,
                end == idx as int,
                end <= self.slot_count_spec(),
                count == self.live_count_upto(j as int),
                count <= j,
            decreases end - j,
        {
            match self.handle_at(j) {
                Some(_) => {
                    count += 1;
                },
                None => {},
            }
            proof {
                assert(self.live_count_upto(j + 1) == self.live_count_upto(j as int) + if self.live_at(
                    j as int,
                ) {
                    1nat
                } else {
                    0nat
                });
            }
            j += 1;
        }
        count
    }

    /// The rank never exceeds the index.
    pub proof fn lemma_rank_le(self, i: int)
        ensures
            self.live_count_upto(i) <= if i <= 0 {
                0
            } else {
                i
            },
        decreases i,
    {
        if i > 0 {
            self.lemma_rank_le(i - 1);
        }
    }

    /// Counting is monotone, and strictly increases across a live slot.
    pub proof fn lemma_rank_mono(self, i: int, j: int)
        requires
            i <= j,
        ensures
            self.live_count_upto(i) <= self.live_count_upto(j),
            i < j && self.live_at(i) ==> self.live_count_upto(i) < self.live_count_upto(j),
        decreases j - i,
    {
        if i < j {
            self.lemma_rank_mono(i, j - 1);
            assert(self.live_count_upto(j) == self.live_count_upto(j - 1) + if self.live_at(j - 1) {
                1nat
            } else {
                0nat
            });
        }
    }

    /// Distinct live slots have distinct ranks.
    pub proof fn lemma_rank_injective(self, i: int, j: int)
        requires
            self.live_at(i),
            self.live_at(j),
            i != j,
        ensures
            self.live_rank(i) != self.live_rank(j),
    {
        if i < j {
            self.lemma_rank_mono(i, j);
        } else {
            self.lemma_rank_mono(j, i);
        }
    }

    /// The rank of a live slot is below the live count.
    pub proof fn lemma_rank_below_count(self, i: int)
        requires
            0 <= i < self.slot_count_spec(),
            self.live_at(i),
        ensures
            self.live_rank(i) < self.live_count(),
    {
        self.lemma_rank_mono(i, self.slot_count_spec() as int);
    }

    /// Every dense position below the live count is the rank of some live
    /// slot.
    pub proof fn lemma_rank_surjective(self, k: int, n: int)
        requires
            0 <= k < self.live_count_upto(n),
            n <= self.slot_count_spec(),
        ensures
            exists|i: int|
                0 <= i < n && #[trigger] self.live_at(i) && self.live_rank(i) == k,
        decreases n,
    {
        if n > 0 {
            if self.live_at(n - 1) && self.live_count_upto(n - 1) == k {
                assert(self.live_rank(n - 1) == k);
            } else {
                self.lemma_rank_surjective(k, n - 1);
            }
        }
    }

    /// Inserts a value, reusing a freed slot when one exists, and returns the
    /// handle of the slot it went into.
    pub fn spawn(&mut self, value: T) -> (h: SolverHandle)
        requires
            old(self).wf(),
            old(self).slot_count_spec() < u32::MAX,
        ensures
            final(self).wf(),
            !old(self).contains(h),
            final(self).contains(h),
            final(self).value_of(h) == value,
            old(self).slot_count_spec() <= final(self).slot_count_spec() <= old(
                self,
            ).slot_count_spec() + 1,
            forall|h2: SolverHandle|
                h2 != h ==> (#[trigger] final(self).contains(h2) <==> old(self).contains(h2)),
            forall|h2: SolverHandle|
                h2 != h && old(self).contains(h2) ==> #[trigger] final(self).value_of(h2) == old(
                    self,
                ).value_of(h2),
            old(self).no_free_slots() ==> {
                &&& h == (SolverHandle {
                    index: old(self).slot_count_spec() as u32,
                    generation: 0,
                })
                &&& final(self).slot_count_spec() == old(self).slot_count_spec() + 1
                &&& final(self).no_free_slots()
            },
            h.index < final(self).slot_count_spec(),
            final(self).live_at(h.index as int),
            final(self).gen_at(h.index as int) == h.generation,
            forall|i: int|
                0 <= i < final(self).slot_count_spec() && i != h.index as int ==> i < old(
                    self,
                ).slot_count_spec() && ((#[trigger] final(self).live_at(i)) <==> old(
                    self,
                ).live_at(i)),
            forall|i: int|
                0 <= i < final(self).slot_count_spec() && i != h.index as int ==> (
                #[trigger] final(self).gen_at(i)) == old(self).gen_at(i),
            forall|i: int|
                0 <= i < final(self).slot_count_spec() && i != h.index as int && old(self).live_at(
                    i,
                ) ==> (#[trigger] final(self).val_at(i)) == old(self).val_at(i),
    {
        match self.free.pop() {
            Some(i) => {
                let iu = i as usize;
                let generation = match &self.slots[iu] {
                    PoolSlot::Vacant { generation } => *generation,
                    PoolSlot::Occupied { generation, .. } => *generation,
                };
                self.slots.set(iu, PoolSlot::Occupied { generation, value });
                proof {
                    assert forall|j: int|
                        0 <= j < self.free@.len() implies (#[trigger] self.free@[j])
                        < self.slots@.len() && self.slots@[self.free@[j] as int] is Vacant by {
                        assert(old(self).free@[j] == self.free@[j]);
                        assert(self.free@[j] != i);
                    }
                }
                SolverHandle { index: i, generation }
            },
            None => {
                let i = self.slots.len() as u32;
                self.slots.push(PoolSlot::Occupied { generation: 0, value });
                SolverHandle { index: i, generation: 0 }
            },
        }
    }

    /// Frees a handle's slot, bumping its generation so the handle goes
    /// stale; an unknown or stale handle is reported, not fatal.
    pub fn free(&mut self, h: SolverHandle) -> (r: Option<T>)
        requires
            old(self).wf(),
        ensures
            final(self).wf(),
            final(self).slot_count_spec() == old(self).slot_count_spec(),
            match r {
                Some(v) => {
                    &&& old(self).contains(h)
                    &&& v == old(self).value_of(h)
                    &&& !final(self).contains(h)
                },
                None => !old(self).contains(h) && *final(self) == *old(self),
            },
            forall|h2: SolverHandle|
                h2 != h ==> (#[trigger] final(self).contains(h2) <==> old(self).contains(h2)),
            forall|h2: SolverHandle|
                h2 != h && old(self).contains(h2) ==> #[trigger] final(self).value_of(h2) == old(
                    self,
                ).value_of(h2),
            r is Some ==> !final(self).live_at(h.index as int),
            forall|i: int|
                0 <= i < final(self).slot_count_spec() && i != h.index as int ==> ((
                #[trigger] final(self).live_at(i)) <==> old(self).live_at(i)),
            forall|i: int|
                0 <= i < final(self).slot_count_spec() && i != h.index as int ==> (
                #[trigger] final(self).gen_at(i)) == old(self).gen_at(i),
            forall|i: int|
                0 <= i < final(self).slot_count_spec() && i != h.index as int && old(self).live_at(
                    i,
                ) ==> (#[trigger] final(self).val_at(i)) == old(self).val_at(i),
    {
        let iu = h.index as usize;
        if iu >= self.slots.len() {
            return None;
        }
        let matches_live = match &self.slots[iu] {
            PoolSlot::Occupied { generation, .. } => *generation == h.generation,
            PoolSlot::Vacant { .. } => false,
        };
        if !matches_live {
            return None;
        }
        let next_gen = if h.generation == u32::MAX {
            u32::MAX
        } else {
            h.generation + 1
        };
        let mut taken = PoolSlot::Vacant { generation: next_gen };
        self.slots.set_and_swap(iu, &mut taken);
        self.free.push(h.index);
        proof {
            assert forall|j: int, k: int| 0 <= j < k < self.free@.len() implies (
            #[trigger] self.free@[j]) != (#[trigger] self.free@[k]) by {
                if k == self.free@.len() - 1 {
                    assert(old(self).slots@[old(self).free@[j] as int] is Vacant);
                }
            }
        }
        match taken {
            PoolSlot::Occupied { value, .. } => Some(value),
            PoolSlot::Vacant { .. } => None,
        }
    }

    /// Read access to the value a handle denotes; a stale handle is
    /// reported as absent.
    pub fn get(&self, h: SolverHandle) -> (r: Option<&T>)
        ensures
            match r {
                Some(v) => self.contains(h) && *v == self.value_of(h),
                None => !self.contains(h),
            },
    {
        let iu = h.index as usize;
        if iu >= self.slots.len() {
            return None;
        }
        match &self.slots[iu] {
            PoolSlot::Occupied { generation, value } => {
                if *generation == h.generation {
                    Some(value)
                } else {
                    None
                }
            },
            PoolSlot::Vacant { .. } => None,
        }
    }

    /// Whether a handle denotes a live entity.
    pub fn contains_handle(&self, h: SolverHandle) -> (r: bool)
        ensures
            r == self.contains(h),
    {
        self.get(h).is_some()
    }

    /// Mutable access to the value a live handle denotes.
    pub fn borrow_mut(&mut self, h: SolverHandle) -> (r: &mut T)
        requires
            old(self).wf(),
            old(self).contains(h),
        ensures
            *r == old(self).value_of(h),
            final(self).wf(),
            final(self).slot_count_spec() == old(self).slot_count_spec(),
            final(self).contains(h),
            final(self).value_of(h) == *final(r),
            forall|h2: SolverHandle|
                h2 != h ==> (#[trigger] final(self).contains(h2) <==> old(self).contains(h2)),
            forall|h2: SolverHandle|
                h2 != h && old(self).contains(h2) ==> #[trigger] final(self).value_of(h2) == old(
                    self,
                ).value_of(h2),
            final(self).no_free_slots() == old(self).no_free_slots(),
            final(self).live_at(h.index as int),
            final(self).gen_at(h.index as int) == old(self).gen_at(h.index as int),
            forall|i: int|
                0 <= i < final(self).slot_count_spec() && i != h.index as int ==> ((
                #[trigger] final(self).live_at(i)) <==> old(self).live_at(i)),
            forall|i: int|
                0 <= i < final(self).slot_count_spec() && i != h.index as int ==> (
                #[trigger] final(self).gen_at(i)) == old(self).gen_at(i),
            forall|i: int|
                0 <= i < final(self).slot_count_spec() && i != h.index as int && old(self).live_at(
                    i,
                ) ==> (#[trigger] final(self).val_at(i)) == old(self).val_at(i),
    {
        let iu = h.index as usize;
        match &mut self.slots[iu] {
            PoolSlot::Occupied { value, .. } => value,
            PoolSlot::Vacant { .. } => unreached(),
        }
    }

    /// Replaces the value a live handle denotes.
    pub fn replace(&mut self, h: SolverHandle, value: T)
        requires
            old(self).wf(),
            old(self).contains(h),
        ensures
            final(self).wf(),
            final(self).slot_count_spec() == old(self).slot_count_spec(),
            final(self).contains(h),
            final(self).value_of(h) == value,
            forall|h2: SolverHandle|
                h2 != h ==> (#[trigger] final(self).contains(h2) <==> old(self).contains(h2)),
            forall|h2: SolverHandle|
                h2 != h && old(self).contains(h2) ==> #[trigger] final(self).value_of(h2) == old(
                    self,
                ).value_of(h2),
            forall|i: int|
                0 <= i < final(self).slot_count_spec() && i != h.index as int ==> ((
                #[trigger] final(self).live_at(i)) <==> old(self).live_at(i)),
            forall|i: int|
                0 <= i < final(self).slot_count_spec() && i != h.index as int ==> (
                #[trigger] final(self).gen_at(i)) == old(self).gen_at(i),
            forall|i: int|
                0 <= i < final(self).slot_count_spec() && i != h.index as int && old(self).live_at(
                    i,
                ) ==> (#[trigger] final(self).val_at(i)) == old(self).val_at(i),
    {
        let iu = h.index as usize;
        self.slots.set(iu, PoolSlot::Occupied { generation: h.generation, value });
        proof {
            assert forall|j: int|
                0 <= j < self.free@.len() implies (#[trigger] self.free@[j]) < self.slots@.len()
                && self.slots@[self.free@[j] as int] is Vacant by {
                assert(old(self).free@[j] == self.free@[j]);
                assert(old(self).slots@[self.free@[j] as int] is Vacant);
            }
        }
    }
}

} // verus!
