//! Resource links: the record of which engine handles in a host world came
//! from a given external resource during instantiation, kept so that later
//! edits to the source resource can be re-applied to its instances.

use vstd::prelude::*;

verus! {

/// One entry of an identifier remapping.
#[derive(Clone, Copy, PartialEq, Eq, Structural, Debug)]
pub struct IdPair {
    /// The engine identifier inside the source resource.
    pub from: u128,
    /// The engine identifier it became in the host world.
    pub to: u128,
}

/// A remapping of engine identifiers, in insertion order.
#[derive(Clone, PartialEq, Debug)]
pub struct IdMap {
    pairs: Vec<IdPair>,
}

impl IdMap {
    /// The entries of the map, in insertion order.
    pub closed spec fn view(self) -> Seq<IdPair> {
        self.pairs@
    }

    /// The map relates these two identifiers.
    pub open spec fn maps_to(self, from: u128, to: u128) -> bool {
        exists|i: int|
            0 <= i < self@.len() && (#[trigger] self@[i]).from == from && self@[i].to == to
    }

    /// The map has an entry for this source identifier.
    pub open spec fn has_from(self, from: u128) -> bool {
        exists|i: int| 0 <= i < self@.len() && (#[trigger] self@[i]).from == from
    }

    /// No source identifier occurs twice.
    pub open spec fn wf(self) -> bool {
        forall|i: int, j: int|
            0 <= i < j < self@.len() ==> (#[trigger] self@[i]).from != (#[trigger] self@[j]).from
    }

    /// Creates an empty map.
    pub fn new() -> (r: IdMap)
        ensures
            r@ =~= Seq::<IdPair>::empty(),
            r.wf(),
    {
        IdMap { pairs: Vec::new() }
    }

    /// Number of entries.
    pub fn len(&self) -> (r: usize)
        ensures
            r == self@.len(),
    {
        self.pairs.len()
    }

    /// The entry at the given position, in insertion order.
    pub fn pair_at(&self, i: usize) -> (r: IdPair)
        requires
            i < self@.len(),
        ensures
            r == self@[i as int],
    {
        self.pairs[i]
    }

    /// Records a remapping for a source identifier not yet present.
    pub fn insert(&mut self, from: u128, to: u128)
        requires
            old(self).wf(),
            !old(self).has_from(from),
        ensures
            final(self)@ == old(self)@.push(IdPair { from, to }),
            final(self).wf(),
    {
        self.pairs.push(IdPair { from, to });
        proof {
            let new = self@;
            let n = new.len() - 1;
            assert forall|i: int, j: int| 0 <= i < j < new.len() implies (#[trigger] new[i]).from
                != (#[trigger] new[j]).from by {
                if j < n {
                    assert(old(self)@[i] == new[i] && old(self)@[j] == new[j]);
                } else {
                    assert(old(self)@[i] == new[i]);
                }
            }
        }
    }

    /// Looks up what a source identifier became in the host.
    pub fn get(&self, from: u128) -> (r: Option<u128>)
        ensures
            match r {
                Some(to) => self.maps_to(from, to),
                None => !self.has_from(from),
            },
    {
        let n = self.pairs.len();
        let mut i: usize = 0;
        while i < n
            invariant
                n == self@.len(),
                i <= n,
                forall|j: int| 0 <= j < i ==> (#[trigger] self@[j]).from != from,
            decreases n - i,
        {
            if self.pairs[i].from == from {
                return Some(self.pairs[i].to);
            }
            i += 1;
        }
        None
    }
}

impl Default for IdMap {
    /// The default map is empty.
    fn default() -> (r: IdMap)
        ensures
            r@ =~= Seq::<IdPair>::empty(),
            r.wf(),
    {
        IdMap::new()
    }
}

/// All associations a host world gained from one embedded resource: which
/// resource it was, and how its body, collider and joint handles were
/// remapped into the host's namespace.
#[derive(Clone, PartialEq, Debug)]
pub struct ResourceLink {
    /// Identifier of the source resource, as the host names it.
    pub model: u64,
    /// Source body handles to host body handles.
    pub bodies: IdMap,
    /// Source collider handles to host collider handles.
    pub colliders: IdMap,
    /// Source joint handles to host joint handles.
    pub joints: IdMap,
}

impl ResourceLink {
    /// An empty link for a resource.
    pub fn new(model: u64) -> (r: ResourceLink)
        ensures
            r.model == model,
            r.bodies@ =~= Seq::<IdPair>::empty(),
            r.colliders@ =~= Seq::<IdPair>::empty(),
            r.joints@ =~= Seq::<IdPair>::empty(),
            r.bodies.wf(),
            r.colliders.wf(),
            r.joints.wf(),
    {
        ResourceLink { model, bodies: IdMap::new(), colliders: IdMap::new(), joints: IdMap::new() }
    }
}

impl Default for ResourceLink {
    /// An empty link with a zero resource identifier.
    fn default() -> (r: ResourceLink)
        ensures
            r.model == 0,
            r.bodies@.len() == 0,
            r.colliders@.len() == 0,
            r.joints@.len() == 0,
    {
        ResourceLink::new(0)
    }
}

} // verus!
