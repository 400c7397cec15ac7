//! Ray-cast results: translation of the solver's raw intersections into
//! engine-handle-keyed results, distance filtering and ordering.
//!
//! The geometric intersection test itself is the external solver's work; it
//! hands back raw hits against solver handles.  This module keeps the hits
//! within the requested length, rekeys them to stable engine handles, and
//! optionally sorts them by distance.  A distance along a ray is a
//! non-negative number, and for non-negative numbers the unsigned order of
//! the carried bit patterns is the numeric order.

use vstd::prelude::*;
use vstd::seq_lib::{to_multiset_build, to_multiset_insert};

use crate::handles::{ColliderHandle, SolverHandle};
use crate::math::{Scalar, Vector3};
use crate::table::HandleTable;

verus! {

/// A ray as the host supplies it: an origin and a direction.
#[derive(Clone, Copy, PartialEq, Eq, Structural, Debug)]
pub struct Ray {
    pub origin: Vector3,
    pub dir: Vector3,
}

/// Options of one ray cast.
#[derive(Clone, Copy, PartialEq, Eq, Structural, Debug)]
pub struct RayCastOptions {
    /// The ray to cast.
    pub ray: Ray,
    /// Maximum distance of the cast; hits beyond it are dropped.
    pub max_len: Scalar,
    /// Interaction-group mask the solver filters colliders with.
    pub groups: u32,
    /// Whether to sort the results from closest to farthest.
    pub sort_results: bool,
}

/// Which feature of the shape the ray hit.
#[derive(Clone, Copy, PartialEq, Eq, Structural, Debug)]
pub enum FeatureId {
    Vertex(u32),
    Edge(u32),
    Face(u32),
    Unknown,
}

/// One intersection as the external solver reports it, keyed by the
/// volatile solver handle.
#[derive(Clone, Copy, PartialEq, Eq, Structural, Debug)]
pub struct RawIntersection {
    /// Solver handle of the collider that was hit.
    pub collider: SolverHandle,
    /// Surface normal at the hit.
    pub normal: Vector3,
    /// World-space position of the hit.
    pub position: Vector3,
    /// The shape feature that was hit.
    pub feature: FeatureId,
    /// Distance from the ray origin, non-negative.
    pub toi: Scalar,
}

/// One intersection as this layer reports it, keyed by the stable engine
/// handle.
#[derive(Clone, Copy, PartialEq, Eq, Structural, Debug)]
pub struct Intersection {
    /// Engine handle of the collider that was hit.
    pub collider: ColliderHandle,
    /// Surface normal at the hit.
    pub normal: Vector3,
    /// World-space position of the hit.
    pub position: Vector3,
    /// The shape feature that was hit.
    pub feature: FeatureId,
    /// Distance from the ray origin, non-negative.
    pub toi: Scalar,
}

/// A sink for ray-cast results: growable, or fixed-capacity for hot paths
/// that must not allocate.  Pushing past a fixed sink's capacity is
/// reported, not fatal.
pub trait QueryResultsStorage {
    /// The results currently held.
    spec fn items(&self) -> Seq<Intersection>;

    /// Appends an intersection; reports whether there was room for it.
    fn push(&mut self, intersection: Intersection) -> (r: bool)
        ensures
            r ==> final(self).items() == old(self).items().push(intersection),
            !r ==> final(self).items() == old(self).items(),
    ;

    /// Discards all held results.
    fn clear(&mut self)
        ensures
            final(self).items() == Seq::<Intersection>::empty(),
    ;
}

impl QueryResultsStorage for Vec<Intersection> {
    /// A growable sink holds exactly its elements.
    open spec fn items(&self) -> Seq<Intersection> {
        self@
    }

    fn push(&mut self, intersection: Intersection) -> (r: bool) {
        self.push(intersection);
        true
    }

    fn clear(&mut self) {
        self.clear();
        proof {
            assert(self@ =~= Seq::<Intersection>::empty());
        }
    }
}

/// A fixed-capacity sink: results past the capacity are refused, never
/// allocated for.
#[derive(Clone, PartialEq, Debug)]
pub struct FixedQueryBuffer {
    results: Vec<Intersection>,
    capacity: usize,
}

impl FixedQueryBuffer {
    /// The capacity the buffer was created with.
    pub closed spec fn spec_capacity(self) -> nat {
        self.capacity as nat
    }

    /// Creates a sink that accepts at most `capacity` results.
    pub fn new(capacity: usize) -> (r: FixedQueryBuffer)
        ensures
            r.items() == Seq::<Intersection>::empty(),
            r.spec_capacity() == capacity,
    {
        let r = FixedQueryBuffer { results: Vec::new(), capacity };
        proof {
            assert(r.results@ =~= Seq::<Intersection>::empty());
        }
        r
    }

    /// Read access to the held results.
    pub fn results(&self) -> (r: &Vec<Intersection>)
        ensures
            r@ == self.items(),
    {
        &self.results
    }
}

impl QueryResultsStorage for FixedQueryBuffer {
    /// A fixed sink holds exactly what it accepted.
    closed spec fn items(&self) -> Seq<Intersection> {
        self.results@
    }

    fn push(&mut self, intersection: Intersection) -> (r: bool)
        ensures
            r == (old(self).items().len() < old(self).spec_capacity()),
            final(self).spec_capacity() == old(self).spec_capacity(),
    {
        if self.results.len() < self.capacity {
            self.results.push(intersection);
            true
        } else {
            false
        }
    }

    fn clear(&mut self) {
        self.results.clear();
        proof {
            assert(self.results@ =~= Seq::<Intersection>::empty());
        }
    }
}

/// The raw hits within the cast's length, in arrival order.
pub open spec fn spec_kept_hits(raw: Seq<RawIntersection>, max_bits: u32) -> Seq<RawIntersection>
    decreases raw.len(),
{
    if raw.len() == 0 {
        Seq::empty()
    } else {
        spec_kept_hits(raw.drop_last(), max_bits) + if raw.last().toi.bits <= max_bits {
            seq![raw.last()]
        } else {
            Seq::empty()
        }
    }
}

/// A raw hit rekeyed to the engine handle its collider translates from.
pub open spec fn spec_translated(t: HandleTable, h: RawIntersection) -> Intersection {
    Intersection {
        collider: ColliderHandle { id: choose|e: u128| t.maps_to(e, h.collider) },
        normal: h.normal,
        position: h.position,
        feature: h.feature,
        toi: h.toi,
    }
}

/// Keeps, rekeys and optionally sorts the raw hits of one cast.
pub fn collect_intersections(
    table: &HandleTable,
    raw_hits: &Vec<RawIntersection>,
    max_len: Scalar,
    sort_results: bool,
) -> (r: Vec<Intersection>)
    requires
        table.wf(),
        forall|i: int|
            0 <= i < raw_hits@.len() ==> table.has_solver((#[trigger] raw_hits@[i]).collider),
    ensures
        ({
            let kept = spec_kept_hits(raw_hits@, max_len.bits);
            &&& r@.len() == kept.len()
            &&& r@.to_multiset() == kept.map_values(
                |h: RawIntersection| spec_translated(*table, h),
            ).to_multiset()
            &&& !sort_results ==> r@ == kept.map_values(
                |h: RawIntersection| spec_translated(*table, h),
            )
            &&& forall|i: int| 0 <= i < r@.len() ==> (#[trigger] r@[i]).toi.bits <= max_len.bits
            &&& sort_results ==> forall|i: int, j: int|
                0 <= i < j < r@.len() ==> (#[trigger] r@[i]).toi.bits <= (
                #[trigger] r@[j]).toi.bits
        }),
{
    let n = raw_hits.len();
    let mut picked: Vec<Intersection> = Vec::new();
    let mut i: usize = 0;
    while i < n
        invariant
            i <= n,
            n == raw_hits@.len(),
            table.wf(),
            forall|j: int|
                0 <= j < raw_hits@.len() ==> table.has_solver((#[trigger] raw_hits@[j]).collider),
            picked@ == spec_kept_hits(raw_hits@.take(i as int), max_len.bits).map_values(
                |h: RawIntersection| spec_translated(*table, h),
            ),
            forall|j: int|
                0 <= j < picked@.len() ==> (#[trigger] picked@[j]).toi.bits <= max_len.bits,
        decreases n - i,
    {
        let h = raw_hits[i];
        let ghost pre = spec_kept_hits(raw_hits@.take(i as int), max_len.bits);
        if h.toi.bits <= max_len.bits {
            let e = match table.key_of(h.collider) {
                Some(e) => e,
                None => {
                    proof {
                        assert(table.has_solver(raw_hits@[i as int].collider));
                    }
                    unreached()
                },
            };
            let hit = Intersection {
                collider: ColliderHandle { id: e },
                normal: h.normal,
                position: h.position,
                feature: h.feature,
                toi: h.toi,
            };
            proof {
                let picked_e = choose|e2: u128| table.maps_to(e2, h.collider);
                assert(table.maps_to(e, h.collider));
                crate::table::lemma_solver_unique(*table, e, picked_e, h.collider);
                assert(hit == spec_translated(*table, h));
            }
            picked.push(hit);
        }
        proof {
            let cur = raw_hits@.take(i + 1);
            assert(cur.drop_last() =~= raw_hits@.take(i as int));
            assert(cur.last() == raw_hits@[i as int]);
            assert(spec_kept_hits(cur, max_len.bits) == pre + if h.toi.bits <= max_len.bits {
                seq![h]
            } else {
                Seq::<RawIntersection>::empty()
            });
            if h.toi.bits <= max_len.bits {
                assert(picked@ =~= (pre + seq![h]).map_values(
                    |h2: RawIntersection| spec_translated(*table, h2),
                ));
            } else {
                assert(picked@ =~= (pre + Seq::<RawIntersection>::empty()).map_values(
                    |h2: RawIntersection| spec_translated(*table, h2),
                ));
            }
        }
        i += 1;
    }
    proof {
        assert(raw_hits@.take(n as int) =~= raw_hits@);
    }
    if sort_results {
        let sorted = sort_by_distance(&picked);
        proof {
            broadcast use vstd::seq_lib::group_to_multiset_ensures;

            assert forall|ii: int| 0 <= ii < sorted@.len() implies (
            #[trigger] sorted@[ii]).toi.bits <= max_len.bits by {
                assert(picked@.to_multiset().contains(sorted@[ii]));
                assert(picked@.contains(sorted@[ii]));
                let jj = choose|jj: int| 0 <= jj < picked@.len() && picked@[jj] == sorted@[ii];
            }
        }
        sorted
    } else {
        picked
    }
}

/// Sorts intersections by distance, non-decreasing, preserving exactly the
/// collection of results.
fn sort_by_distance(v: &Vec<Intersection>) -> (r: Vec<Intersection>)
    ensures
        r@.len() == v@.len(),
        r@.to_multiset() == v@.to_multiset(),
        forall|i: int, j: int|
            0 <= i < j < r@.len() ==> (#[trigger] r@[i]).toi.bits <= (#[trigger] r@[j]).toi.bits,
        forall|i: int| 0 <= i < r@.len() ==> v@.to_multiset().contains(#[trigger] r@[i]),
{
    let n = v.len();
    let mut out: Vec<Intersection> = Vec::new();
    proof {
        assert(v@.take(0) =~= Seq::<Intersection>::empty());
        assert(out@ =~= Seq::<Intersection>::empty());
        assert(out@.to_multiset() =~= v@.take(0).to_multiset());
    }
    let mut i: usize = 0;
    while i < n
        invariant
            i <= n,
            n == v@.len(),
            out@.len() == i,
            out@.to_multiset() == v@.take(i as int).to_multiset(),
            forall|a: int, b: int|
                0 <= a < b < out@.len() ==> (#[trigger] out@[a]).toi.bits <= (
                #[trigger] out@[b]).toi.bits,
        decreases n - i,
    {
        let x = v[i];
        // Find the first position whose distance exceeds the new one.
        let m = out.len();
        let mut p: usize = 0;
        while p < m
            invariant
                p <= m,
                m == out@.len(),
                forall|a: int| 0 <= a < p ==> (#[trigger] out@[a]).toi.bits <= x.toi.bits,
            ensures
                p <= m,
                m == out@.len(),
                forall|a: int| 0 <= a < p ==> (#[trigger] out@[a]).toi.bits <= x.toi.bits,
                p < m ==> out@[p as int].toi.bits > x.toi.bits,
            decreases m - p,
        {
            if out[p].toi.bits > x.toi.bits {
                break ;
            }
            p += 1;
        }
        let ghost pre_out = out@;
        out.insert(p, x);
        proof {
            to_multiset_insert(pre_out, p as int, x);
            let cur = v@.take(i + 1);
            assert(cur.drop_last() =~= v@.take(i as int));
            assert(cur.last() == v@[i as int]);
            to_multiset_build(v@.take(i as int), v@[i as int]);
            assert(v@.take(i as int).push(v@[i as int]) =~= cur);
            assert(out@.to_multiset() =~= cur.to_multiset());
            assert forall|a: int, b: int| 0 <= a < b < out@.len() implies (
            #[trigger] out@[a]).toi.bits <= (#[trigger] out@[b]).toi.bits by {
                let pa = if a < p {
                    pre_out[a]
                } else if a == p {
                    x
                } else {
                    pre_out[a - 1]
                };
                assert(out@[a] == pa);
                let pb = if b < p {
                    pre_out[b]
                } else if b == p {
                    x
                } else {
                    pre_out[b - 1]
                };
                assert(out@[b] == pb);
                if p < pre_out.len() && a == p as int {
                    assert(pre_out[p as int].toi.bits > x.toi.bits);
                }
            }
        }
        i += 1;
    }
    proof {
        assert(v@.take(n as int) =~= v@);
        broadcast use vstd::seq_lib::group_to_multiset_ensures;

        assert forall|a: int| 0 <= a < out@.len() implies v@.to_multiset().contains(
            #[trigger] out@[a],
        ) by {
            assert(out@.contains(out@[a]));
            assert(out@.to_multiset().count(out@[a]) > 0);
        }
    }
    out
}

} // verus!
