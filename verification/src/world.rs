//! The physics world: owner of the live solver entities, of the three
//! handle translation tables, and of the pending descriptor set.
//!
//! Every public operation is handle-checked: a stale or unknown engine
//! handle yields "not found", never a crash.  The world invariant `wf` ties
//! the tables to the pools: the solver side of each table is exactly the set
//! of live entities of its kind, one engine handle each, which is the
//! injectivity the rest of the engine relies on.

use vstd::prelude::*;

use crate::desc::{ColliderDesc, JointDesc, PhysicsDesc, RigidBodyDesc};
use crate::binder::PhysicsBinder;
use crate::entities::{BodyStatusDesc, Collider, Joint, JointParamsDesc, RigidBody};
use crate::handles::{ColliderHandle, JointHandle, NodeHandle, RigidBodyHandle, SolverHandle};
use crate::link::{IdMap, IdPair, ResourceLink};
use crate::log::{LogEntry, MessageKind};
use crate::math::{spec_zero_vector, Scalar, UnitQuaternion, Vector3, BITS_NEG_9_81, BITS_ZERO};
use crate::scene::{NodeRemap, SceneSnapshot};
use crate::shape::{ColliderShape, ColliderShapeDesc, IndexTriangle, TrimeshShape};
use crate::desc::{spec_default_gravity, spec_default_integration_parameters, IntegrationParametersDesc};
use crate::pool::Pool;
use crate::ray::{QueryResultsStorage, RawIntersection, RayCastOptions};
use crate::stats::PhysicsPerformanceStatistics;
use crate::table::HandleTable;

verus! {

broadcast use crate::pool::lemma_live_at_bounds, crate::pool::lemma_wf_slot_count;

/// The live state of one scene's physics.
#[derive(Clone, Debug)]
pub struct Physics {
    /// Current gravity vector; straight down at standard strength by
    /// default.
    pub gravity: Vector3,
    /// Configuration of the external solver's integration step.
    pub integration_parameters: IntegrationParametersDesc,
    bodies: Pool<RigidBody>,
    colliders: Pool<Collider>,
    joints: Pool<Joint>,
    /// A descriptor set waiting for resolve after deserialization, or a
    /// hand-authored override that the next save writes out instead of a
    /// freshly generated snapshot.
    pub desc: Option<PhysicsDesc>,
    /// The resources whose content was embedded into this world, with their
    /// handle remappings.
    pub embedded_resources: Vec<ResourceLink>,
    /// Wall-time accumulators for stepping and ray casting.
    pub performance_statistics: PhysicsPerformanceStatistics,
    body_handle_map: HandleTable,
    collider_handle_map: HandleTable,
    joint_handle_map: HandleTable,
    next_engine_id: u128,
}

/// The table's mapped solver handles are live, and every live entity has an
/// engine handle.
pub open spec fn table_pool_sync<T>(t: HandleTable, p: Pool<T>) -> bool {
    &&& forall|e: u128, s: SolverHandle| #[trigger] t.maps_to(e, s) ==> p.contains(s)
    &&& forall|i: int|
        0 <= i < p.slot_count_spec() && #[trigger] p.live_at(i) ==> t.has_solver(p.handle_of(i))
}

/// Remaps a translation table's solver side to the dense save-stable
/// ordering: the pair order and engine identifiers are kept, and each solver
/// handle becomes its slot's rank among the live slots, at generation zero.
/// Two successive saves of an unchanged world therefore number their solver
/// handles identically, whatever reuse did to the real slots.
fn dense_remap<T>(table: &HandleTable, pool: &Pool<T>) -> (r: HandleTable)
    requires
        table.wf(),
        pool.wf(),
        forall|e: u128, s: SolverHandle| #[trigger] table.maps_to(e, s) ==> pool.contains(s),
    ensures
        r.wf(),
        r@.len() == table@.len(),
        forall|k: int|
            0 <= k < r@.len() ==> (#[trigger] r@[k]).engine == table@[k].engine && r@[k].solver
                == (SolverHandle {
                index: pool.live_rank(table@[k].solver.index as int) as u32,
                generation: 0,
            }),
{
    let tn = table.len();
    let mut out = HandleTable::new();
    let mut k: usize = 0;
    while k < tn
        invariant
            k <= tn,
            tn == table@.len(),
            table.wf(),
            pool.wf(),
            forall|e: u128, s: SolverHandle| #[trigger] table.maps_to(e, s) ==> pool.contains(s),
            out.wf(),
            out@.len() == k,
            forall|m: int|
                0 <= m < k ==> (#[trigger] out@[m]).engine == table@[m].engine && out@[m].solver
                    == (SolverHandle {
                    index: pool.live_rank(table@[m].solver.index as int) as u32,
                    generation: 0,
                }),
        decreases tn - k,
    {
        let pair = table.pair_at(k);
        proof {
            assert(table.maps_to(pair.engine, pair.solver));
            assert(pool.contains(pair.solver));
            pool.lemma_rank_le(pair.solver.index as int);
        }
        let rank = pool.live_rank_exec(pair.solver.index);
        let dense = SolverHandle { index: rank as u32, generation: 0 };
        proof {
            assert(!out.has_engine(pair.engine)) by {
                if out.has_engine(pair.engine) {
                    let m = choose|m: int|
                        0 <= m < out@.len() && (#[trigger] out@[m]).engine == pair.engine;
                    assert(table@[m].engine == table@[k as int].engine);
                }
            }
            assert(!out.has_solver(dense)) by {
                if out.has_solver(dense) {
                    let m = choose|m: int|
                        0 <= m < out@.len() && (#[trigger] out@[m]).solver == dense;
                    let sm = table@[m].solver;
                    let sk = table@[k as int].solver;
                    assert(table.maps_to(table@[m].engine, sm));
                    assert(pool.contains(sm));
                    assert(pool.live_rank(sm.index as int) as u32 == rank as u32);
                    pool.lemma_rank_le(sm.index as int);
                    assert(pool.live_rank(sm.index as int) == pool.live_rank(sk.index as int));
                    if sm.index != sk.index {
                        pool.lemma_rank_injective(sm.index as int, sk.index as int);
                        assert(false);
                    }
                    assert(sm.generation == pool.gen_at(sm.index as int));
                    assert(sk.generation == pool.gen_at(sk.index as int));
                    assert(sm == sk);
                    assert(table@[m].solver != table@[k as int].solver || m == k as int);
                    assert(false);
                }
            }
        }
        out.insert(pair.engine, dense);
        k += 1;
    }
    out
}


/// A dense remap of a table in sync with its pool is a structurally sound
/// persisted table: injective, generation-zero targets inside the entity
/// list, covering it completely, with engine identifiers below the minting
/// bound.
proof fn lemma_dense_table_wf<T>(t: HandleTable, p: Pool<T>, r: HandleTable, len: int)
    requires
        t.wf(),
        p.wf(),
        table_pool_sync(t, p),
        len == p.live_count(),
        r.wf(),
        r@.len() == t@.len(),
        forall|k: int|
            0 <= k < r@.len() ==> (#[trigger] r@[k]).engine == t@[k].engine && r@[k].solver
                == (SolverHandle {
                index: p.live_rank(t@[k].solver.index as int) as u32,
                generation: 0,
            }),
    ensures
        forall|k: int|
            0 <= k < r@.len() ==> (#[trigger] r@[k]).solver.generation == 0 && r@[k].solver.index
                < len,
        forall|m: int|
            0 <= m < len ==> #[trigger] r.has_solver(SolverHandle { index: m as u32, generation: 0 }),
        len <= u32::MAX,
{
    crate::pool::lemma_wf_slot_count(p);
    p.lemma_rank_le(p.slot_count_spec() as int);
    assert forall|k: int| 0 <= k < r@.len() implies (#[trigger] r@[k]).solver.generation == 0
        && r@[k].solver.index < len by {
        assert(t.maps_to(t@[k].engine, t@[k].solver));
        assert(p.contains(t@[k].solver));
        let idx = t@[k].solver.index as int;
        crate::pool::lemma_live_at_bounds(p, idx);
        p.lemma_rank_below_count(idx);
        p.lemma_rank_le(idx);
    }
    assert forall|m: int| 0 <= m < len implies #[trigger] r.has_solver(
        SolverHandle { index: m as u32, generation: 0 },
    ) by {
        p.lemma_rank_surjective(m, p.slot_count_spec() as int);
        let i = choose|i: int|
            0 <= i < p.slot_count_spec() && #[trigger] p.live_at(i) && p.live_rank(i) == m;
        assert(t.has_solver(p.handle_of(i)));
        let kw = choose|kw: int| 0 <= kw < t@.len() && (#[trigger] t@[kw]).solver == p.handle_of(i);
        assert((p.handle_of(i)).index as int == i) by {
            crate::pool::lemma_live_at_bounds(p, i);
        }
        assert(r@[kw].solver == (SolverHandle { index: m as u32, generation: 0 }));
    }
}

/// Freezing a live world into a descriptor set and resolving that set into
/// a fresh world reproduces an observably equivalent world: the same count
/// of bodies, colliders and joints, the same engine handles, and the same
/// defining state behind every handle.  The hypotheses are exactly what
/// `generate_desc` ensures of its snapshot and what `resolve` ensures of a
/// fresh world, with every collider resolvable.
pub proof fn lemma_snapshot_resolve_equivalence(
    w: Physics,
    d: PhysicsDesc,
    w2: Physics,
    binder: PhysicsBinder,
    graph: SceneSnapshot,
)
    requires
        w.wf(),
        w2.wf(),
        crate::desc::desc_wf(d),
        snapshot_of(d, w),
        resolved_from(w2, d, binder, graph),
    ensures
        w2.spec_bodies().slot_count_spec() == w.spec_bodies().live_count(),
        (forall|k: int| 0 <= k < d.colliders@.len() ==> collider_resolvable(d, binder, graph, k))
            ==> w2.spec_colliders().slot_count_spec() == w.spec_colliders().live_count(),
        w2.spec_joints().slot_count_spec() == w.spec_joints().live_count(),
        forall|h: RigidBodyHandle|
            #[trigger] w2.spec_contains_body(h) <==> w.spec_contains_body(h),
        forall|h: RigidBodyHandle|
            #[trigger] w.spec_contains_body(h) ==> crate::entities::same_body_state(
                w2.spec_body(h),
                w.spec_body(h),
            ),
        (forall|k: int| 0 <= k < d.colliders@.len() ==> collider_resolvable(d, binder, graph, k))
            ==> forall|h: ColliderHandle|
            (#[trigger] w2.spec_contains_collider(h)) <==> w.spec_contains_collider(h),
        (forall|k: int| 0 <= k < d.colliders@.len() ==> collider_resolvable(d, binder, graph, k))
            ==> forall|h: ColliderHandle|
            #[trigger] w.spec_contains_collider(h) ==> crate::desc::collider_state_eq_desc(
                w2.spec_collider(h),
                crate::desc::ColliderDesc {
                    shape: crate::shape::desc_of_shape(w.spec_collider(h).shape),
                    parent: RigidBodyHandle { id: 0 },
                    friction: w.spec_collider(h).friction,
                    density: w.spec_collider(h).density,
                    restitution: w.spec_collider(h).restitution,
                    is_sensor: w.spec_collider(h).is_sensor,
                    translation: w.spec_collider(h).translation,
                    rotation: w.spec_collider(h).rotation,
                    collision_groups: w.spec_collider(h).collision_groups,
                    solver_groups: w.spec_collider(h).solver_groups,
                },
            ) && (!(crate::shape::desc_of_shape(w.spec_collider(h).shape) is Trimesh)
                ==> crate::shape::desc_of_shape(w2.spec_collider(h).shape)
                == crate::shape::desc_of_shape(w.spec_collider(h).shape)),
        forall|h: JointHandle|
            #[trigger] w2.spec_contains_joint(h) <==> w.spec_contains_joint(h),
        forall|h: JointHandle|
            #[trigger] w.spec_contains_joint(h) ==> w2.spec_joint(h).params == w.spec_joint(
                h,
            ).params,
{
    assert forall|h: RigidBodyHandle| #[trigger] w2.spec_contains_body(h) <==> w.spec_contains_body(
        h,
    ) by {
        lemma_kind_handles_match(
            w.spec_body_map(),
            w.spec_bodies(),
            d.body_handle_map,
            w2.spec_body_map(),
            h.id,
        );
    }
    assert forall|h: RigidBodyHandle| #[trigger] w.spec_contains_body(h)
        implies crate::entities::same_body_state(w2.spec_body(h), w.spec_body(h)) by {
        let k = choose|k: int|
            0 <= k < w.spec_body_map()@.len() && (#[trigger] w.spec_body_map()@[k]).engine == h.id;
        let s = w.spec_body_map()@[k].solver;
        assert(w.spec_body_map().maps_to(h.id, s));
        w.lemma_body_lookup(h, s);
        assert(w.spec_bodies().contains(s));
        let i = s.index as int;
        assert(w.spec_bodies().live_at(i));
        crate::pool::lemma_live_at_bounds(w.spec_bodies(), i);
        crate::pool::lemma_wf_slot_count(w.spec_bodies());
        let rank = w.spec_bodies().live_rank(i) as int;
        w.spec_bodies().lemma_rank_below_count(i);
        w.spec_bodies().lemma_rank_le(i);
        assert(crate::desc::body_state_eq_desc(w.spec_bodies().val_at(i), d.bodies@[rank]));
        let dsv = d.body_handle_map@[k].solver;
        assert(dsv == (SolverHandle { index: rank as u32, generation: 0 }));
        assert(crate::table::seq_maps_to(d.body_handle_map@, h.id, dsv));
        assert(d.body_handle_map.maps_to(h.id, dsv));
        assert(w2.spec_body_map().maps_to(h.id, dsv));
        w2.lemma_body_lookup(h, dsv);
        assert(w2.spec_bodies().live_at(rank));
        assert(crate::desc::body_state_eq_desc(w2.spec_bodies().val_at(rank), d.bodies@[rank]));
        assert(w2.spec_body(h) == w2.spec_bodies().val_at(rank));
        assert(w.spec_body(h) == w.spec_bodies().val_at(i));
    }
    if forall|k: int| 0 <= k < d.colliders@.len() ==> collider_resolvable(d, binder, graph, k) {
    assert forall|h: ColliderHandle| #[trigger] w2.spec_contains_collider(h)
        <==> w.spec_contains_collider(h) by {
        lemma_kind_handles_match(
            w.spec_collider_map(),
            w.spec_colliders(),
            d.collider_handle_map,
            w2.spec_collider_map(),
            h.id,
        );
    }
    assert forall|h: ColliderHandle| #[trigger] w.spec_contains_collider(h)
        implies crate::desc::collider_state_eq_desc(
        w2.spec_collider(h),
        crate::desc::ColliderDesc {
            shape: crate::shape::desc_of_shape(w.spec_collider(h).shape),
            parent: RigidBodyHandle { id: 0 },
            friction: w.spec_collider(h).friction,
            density: w.spec_collider(h).density,
            restitution: w.spec_collider(h).restitution,
            is_sensor: w.spec_collider(h).is_sensor,
            translation: w.spec_collider(h).translation,
            rotation: w.spec_collider(h).rotation,
            collision_groups: w.spec_collider(h).collision_groups,
            solver_groups: w.spec_collider(h).solver_groups,
        },
    ) && (!(crate::shape::desc_of_shape(w.spec_collider(h).shape) is Trimesh)
        ==> crate::shape::desc_of_shape(w2.spec_collider(h).shape) == crate::shape::desc_of_shape(
        w.spec_collider(h).shape,
    )) by {
        let k = choose|k: int|
            0 <= k < w.spec_collider_map()@.len() && (#[trigger] w.spec_collider_map()@[k]).engine
                == h.id;
        let s = w.spec_collider_map()@[k].solver;
        assert(w.spec_collider_map().maps_to(h.id, s));
        w.lemma_collider_lookup(h, s);
        assert(w.spec_colliders().contains(s));
        let i = s.index as int;
        assert(w.spec_colliders().live_at(i));
        crate::pool::lemma_live_at_bounds(w.spec_colliders(), i);
        crate::pool::lemma_wf_slot_count(w.spec_colliders());
        let rank = w.spec_colliders().live_rank(i) as int;
        w.spec_colliders().lemma_rank_below_count(i);
        w.spec_colliders().lemma_rank_le(i);
        let dsv = d.collider_handle_map@[k].solver;
        assert(dsv == (SolverHandle { index: rank as u32, generation: 0 }));
        assert(crate::table::seq_maps_to(d.collider_handle_map@, h.id, dsv));
        assert(d.collider_handle_map.maps_to(h.id, dsv));
        assert(w2.spec_collider_map().maps_to(h.id, dsv));
        w2.lemma_collider_lookup(h, dsv);
        assert(w2.spec_colliders().live_at(rank));
        assert(crate::desc::collider_state_eq_desc(
            w2.spec_colliders().val_at(rank),
            d.colliders@[rank],
        ));
        assert(crate::desc::collider_state_eq_desc(
            w.spec_colliders().val_at(i),
            d.colliders@[rank],
        ));
        assert(w2.spec_collider(h) == w2.spec_colliders().val_at(rank));
        assert(w.spec_collider(h) == w.spec_colliders().val_at(i));
        if !(crate::shape::desc_of_shape(w.spec_collider(h).shape) is Trimesh) {
            assert(d.colliders@[rank].shape == crate::shape::desc_of_shape(
                w.spec_colliders().val_at(i).shape,
            ));
            assert(crate::shape::shape_matches_desc(
                w2.spec_colliders().val_at(rank).shape,
                d.colliders@[rank].shape,
            ));
            lemma_matches_desc_of(w2.spec_colliders().val_at(rank).shape, d.colliders@[rank].shape);
        }
    }
    }
    assert forall|h: JointHandle| #[trigger] w2.spec_contains_joint(h) <==> w.spec_contains_joint(
        h,
    ) by {
        lemma_kind_handles_match(
            w.spec_joint_map(),
            w.spec_joints(),
            d.joint_handle_map,
            w2.spec_joint_map(),
            h.id,
        );
    }
    assert forall|h: JointHandle| #[trigger] w.spec_contains_joint(h) implies w2.spec_joint(
        h,
    ).params == w.spec_joint(h).params by {
        let k = choose|k: int|
            0 <= k < w.spec_joint_map()@.len() && (#[trigger] w.spec_joint_map()@[k]).engine
                == h.id;
        let s = w.spec_joint_map()@[k].solver;
        assert(w.spec_joint_map().maps_to(h.id, s));
        w.lemma_joint_lookup(h, s);
        assert(w.spec_joints().contains(s));
        let i = s.index as int;
        assert(w.spec_joints().live_at(i));
        crate::pool::lemma_live_at_bounds(w.spec_joints(), i);
        crate::pool::lemma_wf_slot_count(w.spec_joints());
        let rank = w.spec_joints().live_rank(i) as int;
        w.spec_joints().lemma_rank_below_count(i);
        w.spec_joints().lemma_rank_le(i);
        let dsv = d.joint_handle_map@[k].solver;
        assert(dsv == (SolverHandle { index: rank as u32, generation: 0 }));
        assert(crate::table::seq_maps_to(d.joint_handle_map@, h.id, dsv));
        assert(d.joint_handle_map.maps_to(h.id, dsv));
        assert(w2.spec_joint_map().maps_to(h.id, dsv));
        w2.lemma_joint_lookup(h, dsv);
        assert(w2.spec_joints().live_at(rank));
        assert(w2.spec_joint(h) == w2.spec_joints().val_at(rank));
        assert(w.spec_joint(h) == w.spec_joints().val_at(i));
    }
}

/// A live shape that matches a non-trimesh descriptor snapshots back to
/// that very descriptor.
proof fn lemma_matches_desc_of(s: ColliderShape, dsc: ColliderShapeDesc)
    requires
        crate::shape::shape_matches_desc(s, dsc),
    ensures
        crate::shape::desc_of_shape(s) == dsc,
{
}

/// An engine identifier is in the source table exactly when it is in the
/// resolved world's table of the same kind.
proof fn lemma_kind_handles_match<T>(
    wt: HandleTable,
    wp: Pool<T>,
    dt: HandleTable,
    w2t: HandleTable,
    e: u128,
)
    requires
        wt.wf(),
        dt@.len() == wt@.len(),
        forall|k: int| 0 <= k < dt@.len() ==> (#[trigger] dt@[k]).engine == wt@[k].engine,
        forall|e2: u128, sv: SolverHandle|
            (#[trigger] w2t.maps_to(e2, sv)) <==> dt.maps_to(e2, sv),
    ensures
        w2t.has_engine(e) <==> wt.has_engine(e),
{
    if wt.has_engine(e) {
        let k = choose|k: int| 0 <= k < wt@.len() && (#[trigger] wt@[k]).engine == e;
        assert(dt@[k].engine == e);
        assert(crate::table::seq_maps_to(dt@, e, dt@[k].solver));
        assert(dt.maps_to(e, dt@[k].solver));
        assert(w2t.maps_to(e, dt@[k].solver));
        let m = choose|m: int|
            0 <= m < w2t@.len() && (#[trigger] w2t@[m]).engine == e && w2t@[m].solver
                == dt@[k].solver;
    }
    if w2t.has_engine(e) {
        let m = choose|m: int| 0 <= m < w2t@.len() && (#[trigger] w2t@[m]).engine == e;
        assert(w2t.maps_to(e, w2t@[m].solver));
        assert(dt.maps_to(e, w2t@[m].solver));
        let k = choose|k: int|
            0 <= k < dt@.len() && (#[trigger] dt@[k]).engine == e && dt@[k].solver
                == w2t@[m].solver;
        assert(wt@[k].engine == e);
    }
}

/// The stable engine identifier of the live entity in a pool slot, as its
/// translation table gives it.
pub open spec fn spec_engine_of<T>(t: HandleTable, p: Pool<T>, i: int) -> u128 {
    choose|e: u128| t.maps_to(e, p.handle_of(i))
}

/// The chosen engine identifier really is a mapping of the slot's handle.
pub proof fn lemma_engine_of_maps<T>(t: HandleTable, p: Pool<T>, i: int)
    requires
        p.live_at(i),
        t.has_solver(p.handle_of(i)),
    ensures
        t.maps_to(spec_engine_of(t, p, i), p.handle_of(i)),
{
    let iw = choose|iw: int| 0 <= iw < t@.len() && (#[trigger] t@[iw]).solver == p.handle_of(i);
    assert(t.maps_to(t@[iw].engine, p.handle_of(i)));
}

/// Distinct live slots carry distinct engine identifiers.
pub proof fn lemma_engine_of_injective<T>(t: HandleTable, p: Pool<T>, i: int, j: int)
    requires
        t.wf(),
        p.wf(),
        p.live_at(i),
        p.live_at(j),
        i != j,
        t.has_solver(p.handle_of(i)),
        t.has_solver(p.handle_of(j)),
    ensures
        spec_engine_of(t, p, i) != spec_engine_of(t, p, j),
{
    lemma_engine_of_maps(t, p, i);
    lemma_engine_of_maps(t, p, j);
    let ei = spec_engine_of(t, p, i);
    let ej = spec_engine_of(t, p, j);
    if ei == ej {
        crate::table::lemma_maps_to_unique(t, ei, p.handle_of(i), p.handle_of(j));
        assert((i as u32) as int == i && (j as u32) as int == j) by {
            crate::pool::lemma_live_at_bounds(p, i);
            crate::pool::lemma_live_at_bounds(p, j);
            crate::pool::lemma_wf_slot_count(p);
        }
    }
}

/// One source body was embedded: the link relates its engine identifier to
/// a fresh host body carrying the same defining state.
pub open spec fn embedded_body_at(
    w: Physics,
    base: Physics,
    resource: Physics,
    lb: IdMap,
    i: int,
) -> bool {
    exists|hid: u128|
        {
            &&& #[trigger] lb.maps_to(
                spec_engine_of(resource.spec_body_map(), resource.spec_bodies(), i),
                hid,
            )
            &&& w.spec_contains_body(RigidBodyHandle { id: hid })
            &&& !base.spec_contains_body(RigidBodyHandle { id: hid })
            &&& crate::entities::same_body_state(
                w.spec_body(RigidBodyHandle { id: hid }),
                resource.spec_bodies().val_at(i),
            )
        }
}

/// The source engine identifier of the body owning a source collider slot.
pub open spec fn parent_src_engine(resource: Physics, j: int) -> u128 {
    spec_engine_of(
        resource.spec_body_map(),
        resource.spec_bodies(),
        resource.spec_colliders().val_at(j).parent.index as int,
    )
}

/// Two live colliders agree on material, placement and filtering.
pub open spec fn same_collider_material(a: Collider, b: Collider) -> bool {
    &&& a.friction == b.friction
    &&& a.density == b.density
    &&& a.restitution == b.restitution
    &&& a.is_sensor == b.is_sensor
    &&& a.translation == b.translation
    &&& a.rotation == b.rotation
    &&& a.collision_groups == b.collision_groups
    &&& a.solver_groups == b.solver_groups
}

/// Two shapes carry the same geometry, comparing buffer contents rather
/// than buffer identity for the mesh-bearing variants.
pub open spec fn same_shape(a: ColliderShape, b: ColliderShape) -> bool {
    match (a, b) {
        (ColliderShape::Heightfield(x), ColliderShape::Heightfield(y)) => {
            &&& x.rows == y.rows
            &&& x.columns == y.columns
            &&& x.heights@ == y.heights@
        },
        (ColliderShape::Trimesh(x), ColliderShape::Trimesh(y)) => {
            &&& x.vertices@ == y.vertices@
            &&& x.triangles@ == y.triangles@
        },
        _ => a == b,
    }
}

/// Whether trimesh geometry can be recovered for a host body: some node is
/// bound to it, and every node bound to it is valid in the host scene.
pub open spec fn embed_trimesh_ok(tb: PhysicsBinder, graph: SceneSnapshot, host_body: u128) -> bool {
    &&& exists|n: NodeHandle| #[trigger] tb.binds(n, host_body)
    &&& forall|n: NodeHandle| #[trigger] tb.binds(n, host_body) ==> graph.spec_is_valid(n)
}

/// A trimesh shape holds what a node's baked subtree welds to: the welded
/// geometry, or the degenerate placeholder when the subtree is empty.
pub open spec fn trimesh_matches_node(graph: SceneSnapshot, n: NodeHandle, m: TrimeshShape) -> bool {
    if graph.spec_node(n).triangles@.len() > 0 {
        crate::trimesh::is_welded_shape(graph.spec_node(n).triangles@, m)
    } else {
        crate::trimesh::is_degenerate_trimesh(m)
    }
}

/// A recorded pair's source side names a live source body in a slot below
/// the given bound.
pub open spec fn body_pair_source_below(resource: Physics, p: IdPair, n: int) -> bool {
    exists|m: int|
        0 <= m < n && (#[trigger] resource.spec_bodies().live_at(m)) && p.from == spec_engine_of(
            resource.spec_body_map(),
            resource.spec_bodies(),
            m,
        )
}

/// A recorded pair's source side names a live source collider in a slot
/// below the given bound.
pub open spec fn collider_pair_source_below(resource: Physics, p: IdPair, n: int) -> bool {
    exists|m: int|
        0 <= m < n && (#[trigger] resource.spec_colliders().live_at(m)) && p.from
            == spec_engine_of(resource.spec_collider_map(), resource.spec_colliders(), m)
}

/// A recorded pair's source side names a live source joint in a slot below
/// the given bound.
pub open spec fn joint_pair_source_below(resource: Physics, p: IdPair, n: int) -> bool {
    exists|m: int|
        0 <= m < n && (#[trigger] resource.spec_joints().live_at(m)) && p.from == spec_engine_of(
            resource.spec_joint_map(),
            resource.spec_joints(),
            m,
        )
}

/// One recorded collider remapping: the source side names a live source
/// collider; the host side a host collider with the same material, parented
/// to the link image of the source owner, its shape copied for parameter
/// shapes and re-derived from a bound host node for trimeshes.
pub open spec fn collider_pair_ok(
    w: Physics,
    resource: Physics,
    tb: PhysicsBinder,
    graph: SceneSnapshot,
    lb: IdMap,
    p: IdPair,
) -> bool {
    exists|j: int, hb: u128|
        {
            &&& 0 <= j < resource.spec_colliders().slot_count_spec()
            &&& #[trigger] resource.spec_colliders().live_at(j)
            &&& p.from == spec_engine_of(
                resource.spec_collider_map(),
                resource.spec_colliders(),
                j,
            )
            &&& #[trigger] lb.maps_to(parent_src_engine(resource, j), hb)
            &&& w.spec_contains_collider(ColliderHandle { id: p.to })
            &&& same_collider_material(
                w.spec_collider(ColliderHandle { id: p.to }),
                resource.spec_colliders().val_at(j),
            )
            &&& w.spec_collider(ColliderHandle { id: p.to }).parent == w.spec_body_solver(
                RigidBodyHandle { id: hb },
            )
            &&& (!(crate::shape::desc_of_shape(resource.spec_colliders().val_at(j).shape)
                is Trimesh) ==> same_shape(
                w.spec_collider(ColliderHandle { id: p.to }).shape,
                resource.spec_colliders().val_at(j).shape,
            ))
            &&& ((crate::shape::desc_of_shape(resource.spec_colliders().val_at(j).shape)
                is Trimesh) ==> exists|n: NodeHandle, m: TrimeshShape|
                #![trigger tb.binds(n, hb), trimesh_matches_node(graph, n, m)]
                {
                    &&& tb.binds(n, hb)
                    &&& graph.spec_is_valid(n)
                    &&& w.spec_collider(ColliderHandle { id: p.to }).shape
                        == ColliderShape::Trimesh(m)
                    &&& trimesh_matches_node(graph, n, m)
                })
        }
}

/// One recorded joint remapping: the source side names a live source joint;
/// the host side a host joint with the same parameters whose endpoints are
/// the link images of the source endpoints, resolved through the source
/// resource's own body table.
pub open spec fn joint_pair_ok(w: Physics, resource: Physics, lb: IdMap, p: IdPair) -> bool {
    exists|m: int, hb1: u128, hb2: u128|
        #![trigger resource.spec_joints().live_at(m), lb.maps_to(spec_engine_of(resource.spec_body_map(), resource.spec_bodies(), resource.spec_joints().val_at(m).body1.index as int), hb1), lb.maps_to(spec_engine_of(resource.spec_body_map(), resource.spec_bodies(), resource.spec_joints().val_at(m).body2.index as int), hb2)]
        {
            &&& 0 <= m < resource.spec_joints().slot_count_spec()
            &&& resource.spec_joints().live_at(m)
            &&& p.from == spec_engine_of(resource.spec_joint_map(), resource.spec_joints(), m)
            &&& lb.maps_to(
                spec_engine_of(
                    resource.spec_body_map(),
                    resource.spec_bodies(),
                    resource.spec_joints().val_at(m).body1.index as int,
                ),
                hb1,
            )
            &&& lb.maps_to(
                spec_engine_of(
                    resource.spec_body_map(),
                    resource.spec_bodies(),
                    resource.spec_joints().val_at(m).body2.index as int,
                ),
                hb2,
            )
            &&& w.spec_contains_joint(JointHandle { id: p.to })
            &&& w.spec_joint(JointHandle { id: p.to }).params == resource.spec_joints().val_at(
                m,
            ).params
            &&& w.spec_joint(JointHandle { id: p.to }).body1 == w.spec_body_solver(
                RigidBodyHandle { id: hb1 },
            )
            &&& w.spec_joint(JointHandle { id: p.to }).body2 == w.spec_body_solver(
                RigidBodyHandle { id: hb2 },
            )
        }
}

/// An embedded-body witness survives a world step that keeps every body it
/// mentions, up to collider-list bookkeeping.
proof fn lemma_embedded_body_preserved(
    w1: Physics,
    w2: Physics,
    base: Physics,
    resource: Physics,
    lb: IdMap,
    i: int,
)
    requires
        embedded_body_at(w1, base, resource, lb, i),
        forall|h2: RigidBodyHandle|
            #[trigger] w1.spec_contains_body(h2) ==> w2.spec_contains_body(h2)
                && crate::entities::same_body_state(w2.spec_body(h2), w1.spec_body(h2)),
    ensures
        embedded_body_at(w2, base, resource, lb, i),
{
    let hid = choose|hid: u128|
        {
            &&& #[trigger] lb.maps_to(
                spec_engine_of(resource.spec_body_map(), resource.spec_bodies(), i),
                hid,
            )
            &&& w1.spec_contains_body(RigidBodyHandle { id: hid })
            &&& !base.spec_contains_body(RigidBodyHandle { id: hid })
            &&& crate::entities::same_body_state(
                w1.spec_body(RigidBodyHandle { id: hid }),
                resource.spec_bodies().val_at(i),
            )
        };
    assert(w2.spec_contains_body(RigidBodyHandle { id: hid }));
    assert(crate::entities::same_body_state(
        w2.spec_body(RigidBodyHandle { id: hid }),
        resource.spec_bodies().val_at(i),
    ));
}

/// A collider-remapping witness survives a world step that keeps every
/// collider it mentions and the body translation table.
proof fn lemma_collider_pair_preserved(
    w1: Physics,
    w2: Physics,
    resource: Physics,
    tb: PhysicsBinder,
    graph: SceneSnapshot,
    lb: IdMap,
    p: IdPair,
)
    requires
        collider_pair_ok(w1, resource, tb, graph, lb, p),
        forall|h2: ColliderHandle|
            #[trigger] w1.spec_contains_collider(h2) ==> w2.spec_contains_collider(h2)
                && w2.spec_collider(h2) == w1.spec_collider(h2),
        w2.spec_body_map() == w1.spec_body_map(),
    ensures
        collider_pair_ok(w2, resource, tb, graph, lb, p),
{
    let (j, hb) = choose|j: int, hb: u128|
        {
            &&& 0 <= j < resource.spec_colliders().slot_count_spec()
            &&& #[trigger] resource.spec_colliders().live_at(j)
            &&& p.from == spec_engine_of(
                resource.spec_collider_map(),
                resource.spec_colliders(),
                j,
            )
            &&& #[trigger] lb.maps_to(parent_src_engine(resource, j), hb)
            &&& w1.spec_contains_collider(ColliderHandle { id: p.to })
            &&& same_collider_material(
                w1.spec_collider(ColliderHandle { id: p.to }),
                resource.spec_colliders().val_at(j),
            )
            &&& w1.spec_collider(ColliderHandle { id: p.to }).parent == w1.spec_body_solver(
                RigidBodyHandle { id: hb },
            )
            &&& (!(crate::shape::desc_of_shape(resource.spec_colliders().val_at(j).shape)
                is Trimesh) ==> same_shape(
                w1.spec_collider(ColliderHandle { id: p.to }).shape,
                resource.spec_colliders().val_at(j).shape,
            ))
            &&& ((crate::shape::desc_of_shape(resource.spec_colliders().val_at(j).shape)
                is Trimesh) ==> exists|n: NodeHandle, m: TrimeshShape|
                #![trigger tb.binds(n, hb), trimesh_matches_node(graph, n, m)]
                {
                    &&& tb.binds(n, hb)
                    &&& graph.spec_is_valid(n)
                    &&& w1.spec_collider(ColliderHandle { id: p.to }).shape
                        == ColliderShape::Trimesh(m)
                    &&& trimesh_matches_node(graph, n, m)
                })
        };
    assert(w2.spec_contains_collider(ColliderHandle { id: p.to }));
    assert(w2.spec_collider(ColliderHandle { id: p.to }) == w1.spec_collider(
        ColliderHandle { id: p.to },
    ));
    assert(w2.spec_body_solver(RigidBodyHandle { id: hb }) == w1.spec_body_solver(
        RigidBodyHandle { id: hb },
    ));
    if crate::shape::desc_of_shape(resource.spec_colliders().val_at(j).shape) is Trimesh {
        let (n, m) = choose|n: NodeHandle, m: TrimeshShape|
            #![trigger tb.binds(n, hb), trimesh_matches_node(graph, n, m)]
            {
                &&& tb.binds(n, hb)
                &&& graph.spec_is_valid(n)
                &&& w1.spec_collider(ColliderHandle { id: p.to }).shape == ColliderShape::Trimesh(m)
                &&& trimesh_matches_node(graph, n, m)
            };
        assert(w2.spec_collider(ColliderHandle { id: p.to }).shape == ColliderShape::Trimesh(m));
    }
    assert(collider_pair_ok(w2, resource, tb, graph, lb, p));
}

/// Conjunction introduction for a collider-remapping witness, kept separate
/// so the nested existentials are built in one small query.
proof fn lemma_collider_pair_intro(
    w: Physics,
    resource: Physics,
    tb: PhysicsBinder,
    graph: SceneSnapshot,
    lb: IdMap,
    p: IdPair,
    j: int,
    hb: u128,
    n: NodeHandle,
    m: TrimeshShape,
)
    requires
        0 <= j < resource.spec_colliders().slot_count_spec(),
        resource.spec_colliders().live_at(j),
        p.from == spec_engine_of(resource.spec_collider_map(), resource.spec_colliders(), j),
        lb.maps_to(parent_src_engine(resource, j), hb),
        w.spec_contains_collider(ColliderHandle { id: p.to }),
        same_collider_material(
            w.spec_collider(ColliderHandle { id: p.to }),
            resource.spec_colliders().val_at(j),
        ),
        w.spec_collider(ColliderHandle { id: p.to }).parent == w.spec_body_solver(
            RigidBodyHandle { id: hb },
        ),
        !(crate::shape::desc_of_shape(resource.spec_colliders().val_at(j).shape) is Trimesh)
            ==> same_shape(
            w.spec_collider(ColliderHandle { id: p.to }).shape,
            resource.spec_colliders().val_at(j).shape,
        ),
        (crate::shape::desc_of_shape(resource.spec_colliders().val_at(j).shape) is Trimesh) ==> {
            &&& tb.binds(n, hb)
            &&& graph.spec_is_valid(n)
            &&& w.spec_collider(ColliderHandle { id: p.to }).shape == ColliderShape::Trimesh(m)
            &&& trimesh_matches_node(graph, n, m)
        },
    ensures
        collider_pair_ok(w, resource, tb, graph, lb, p),
{
    if crate::shape::desc_of_shape(resource.spec_colliders().val_at(j).shape) is Trimesh {
        assert(tb.binds(n, hb));
        assert(trimesh_matches_node(graph, n, m));
        assert(exists|n2: NodeHandle, m2: TrimeshShape|
            #![trigger tb.binds(n2, hb), trimesh_matches_node(graph, n2, m2)]
            {
                &&& tb.binds(n2, hb)
                &&& graph.spec_is_valid(n2)
                &&& w.spec_collider(ColliderHandle { id: p.to }).shape == ColliderShape::Trimesh(m2)
                &&& trimesh_matches_node(graph, n2, m2)
            });
    }
    assert(resource.spec_colliders().live_at(j));
    assert(lb.maps_to(parent_src_engine(resource, j), hb));
}

/// Conjunction introduction for a joint-remapping witness.
proof fn lemma_joint_pair_intro(
    w: Physics,
    resource: Physics,
    lb: IdMap,
    p: IdPair,
    m: int,
    hb1: u128,
    hb2: u128,
)
    requires
        0 <= m < resource.spec_joints().slot_count_spec(),
        resource.spec_joints().live_at(m),
        p.from == spec_engine_of(resource.spec_joint_map(), resource.spec_joints(), m),
        lb.maps_to(
            spec_engine_of(
                resource.spec_body_map(),
                resource.spec_bodies(),
                resource.spec_joints().val_at(m).body1.index as int,
            ),
            hb1,
        ),
        lb.maps_to(
            spec_engine_of(
                resource.spec_body_map(),
                resource.spec_bodies(),
                resource.spec_joints().val_at(m).body2.index as int,
            ),
            hb2,
        ),
        w.spec_contains_joint(JointHandle { id: p.to }),
        w.spec_joint(JointHandle { id: p.to }).params == resource.spec_joints().val_at(m).params,
        w.spec_joint(JointHandle { id: p.to }).body1 == w.spec_body_solver(
            RigidBodyHandle { id: hb1 },
        ),
        w.spec_joint(JointHandle { id: p.to }).body2 == w.spec_body_solver(
            RigidBodyHandle { id: hb2 },
        ),
    ensures
        joint_pair_ok(w, resource, lb, p),
{
    assert(resource.spec_joints().live_at(m));
}

/// A joint-remapping witness survives a world step that keeps every joint
/// it mentions and the body translation table.
proof fn lemma_joint_pair_preserved(w1: Physics, w2: Physics, resource: Physics, lb: IdMap, p: IdPair)
    requires
        joint_pair_ok(w1, resource, lb, p),
        forall|h2: JointHandle|
            #[trigger] w1.spec_contains_joint(h2) ==> w2.spec_contains_joint(h2) && w2.spec_joint(
                h2,
            ) == w1.spec_joint(h2),
        w2.spec_body_map() == w1.spec_body_map(),
    ensures
        joint_pair_ok(w2, resource, lb, p),
{
    let (m, hb1, hb2) = choose|m: int, hb1: u128, hb2: u128|
        #![trigger resource.spec_joints().live_at(m), lb.maps_to(spec_engine_of(resource.spec_body_map(), resource.spec_bodies(), resource.spec_joints().val_at(m).body1.index as int), hb1), lb.maps_to(spec_engine_of(resource.spec_body_map(), resource.spec_bodies(), resource.spec_joints().val_at(m).body2.index as int), hb2)]
        {
            &&& 0 <= m < resource.spec_joints().slot_count_spec()
            &&& resource.spec_joints().live_at(m)
            &&& p.from == spec_engine_of(resource.spec_joint_map(), resource.spec_joints(), m)
            &&& lb.maps_to(
                spec_engine_of(
                    resource.spec_body_map(),
                    resource.spec_bodies(),
                    resource.spec_joints().val_at(m).body1.index as int,
                ),
                hb1,
            )
            &&& lb.maps_to(
                spec_engine_of(
                    resource.spec_body_map(),
                    resource.spec_bodies(),
                    resource.spec_joints().val_at(m).body2.index as int,
                ),
                hb2,
            )
            &&& w1.spec_contains_joint(JointHandle { id: p.to })
            &&& w1.spec_joint(JointHandle { id: p.to }).params == resource.spec_joints().val_at(
                m,
            ).params
            &&& w1.spec_joint(JointHandle { id: p.to }).body1 == w1.spec_body_solver(
                RigidBodyHandle { id: hb1 },
            )
            &&& w1.spec_joint(JointHandle { id: p.to }).body2 == w1.spec_body_solver(
                RigidBodyHandle { id: hb2 },
            )
        };
    assert(w2.spec_contains_joint(JointHandle { id: p.to }));
    assert(w2.spec_joint(JointHandle { id: p.to }) == w1.spec_joint(JointHandle { id: p.to }));
    assert(w2.spec_body_solver(RigidBodyHandle { id: hb1 }) == w1.spec_body_solver(
        RigidBodyHandle { id: hb1 },
    ));
    assert(w2.spec_body_solver(RigidBodyHandle { id: hb2 }) == w1.spec_body_solver(
        RigidBodyHandle { id: hb2 },
    ));
    lemma_joint_pair_intro(w2, resource, lb, p, m, hb1, hb2);
}

/// A host body handle some link entry points at.
pub open spec fn link_body_target(pairs: Seq<crate::link::IdPair>, h: RigidBodyHandle) -> bool {
    exists|i: int| 0 <= i < pairs.len() && (#[trigger] pairs[i]).to == h.id
}

/// The message logged when a subtree holds no mesh geometry.
fn no_geometry_warning() -> String {
    "no geometry in subtree for triangle mesh collider".to_owned()
}

/// The message logged when trimesh geometry cannot be rebuilt because the
/// owning body has no bound node or the bound node is gone.
fn trimesh_binding_error() -> String {
    "unable to rebuild trimesh geometry: missing or invalid bound node".to_owned()
}


/// What a generated snapshot says of the world it was taken from: each
/// descriptor mirrors the live entity at its dense rank, collider-handle
/// lists included, and each table pair keeps its engine identifier with
/// its solver side remapped to the dense numbering.
pub open spec fn snapshot_of(d: PhysicsDesc, w: Physics) -> bool {
    &&& d.integration_parameters == w.spec_integration_parameters()
    &&& d.gravity == w.spec_gravity()
    &&& d.bodies@.len() == w.spec_bodies().live_count()
    &&& forall|i: int|
        0 <= i < w.spec_bodies().slot_count_spec() && #[trigger] w.spec_bodies().live_at(i)
            ==> crate::desc::body_state_eq_desc(
            w.spec_bodies().val_at(i),
            d.bodies@[w.spec_bodies().live_rank(i) as int],
        )
    &&& forall|i: int|
        0 <= i < w.spec_bodies().slot_count_spec() && #[trigger] w.spec_bodies().live_at(i) ==> {
            let db = d.bodies@[w.spec_bodies().live_rank(i) as int];
            &&& db.colliders@.len() == w.spec_bodies().val_at(i).colliders@.len()
            &&& forall|k: int|
                0 <= k < db.colliders@.len() ==> w.spec_collider_map().maps_to(
                    (#[trigger] db.colliders@[k]).id,
                    w.spec_bodies().val_at(i).colliders@[k],
                )
        }
    &&& d.colliders@.len() == w.spec_colliders().live_count()
    &&& forall|i: int|
        0 <= i < w.spec_colliders().slot_count_spec() && #[trigger] w.spec_colliders().live_at(i)
            ==> {
            let dc = d.colliders@[w.spec_colliders().live_rank(i) as int];
            &&& crate::desc::collider_state_eq_desc(w.spec_colliders().val_at(i), dc)
            &&& dc.shape == crate::shape::desc_of_shape(w.spec_colliders().val_at(i).shape)
            &&& w.spec_body_map().maps_to(dc.parent.id, w.spec_colliders().val_at(i).parent)
        }
    &&& d.joints@.len() == w.spec_joints().live_count()
    &&& forall|i: int|
        0 <= i < w.spec_joints().slot_count_spec() && #[trigger] w.spec_joints().live_at(i) ==> {
            let dj = d.joints@[w.spec_joints().live_rank(i) as int];
            &&& dj.params == w.spec_joints().val_at(i).params
            &&& w.spec_body_map().maps_to(dj.body1.id, w.spec_joints().val_at(i).body1)
            &&& w.spec_body_map().maps_to(dj.body2.id, w.spec_joints().val_at(i).body2)
        }
    &&& d.body_handle_map@.len() == w.spec_body_map()@.len()
    &&& forall|k: int|
        0 <= k < d.body_handle_map@.len() ==> (#[trigger] d.body_handle_map@[k]).engine
            == w.spec_body_map()@[k].engine && d.body_handle_map@[k].solver == (SolverHandle {
            index: w.spec_bodies().live_rank(w.spec_body_map()@[k].solver.index as int) as u32,
            generation: 0,
        })
    &&& d.collider_handle_map@.len() == w.spec_collider_map()@.len()
    &&& forall|k: int|
        0 <= k < d.collider_handle_map@.len() ==> (#[trigger] d.collider_handle_map@[k]).engine
            == w.spec_collider_map()@[k].engine && d.collider_handle_map@[k].solver
            == (SolverHandle {
            index: w.spec_colliders().live_rank(
                w.spec_collider_map()@[k].solver.index as int,
            ) as u32,
            generation: 0,
        })
    &&& d.joint_handle_map@.len() == w.spec_joint_map()@.len()
    &&& forall|k: int|
        0 <= k < d.joint_handle_map@.len() ==> (#[trigger] d.joint_handle_map@[k]).engine
            == w.spec_joint_map()@[k].engine && d.joint_handle_map@[k].solver == (SolverHandle {
            index: w.spec_joints().live_rank(w.spec_joint_map()@[k].solver.index as int) as u32,
            generation: 0,
        })
}

/// What resolve establishes: the world's live state mirrors the descriptor
/// set, body for body and joint for joint, with the restored engine
/// identifiers; and when every collider could be rebuilt, collider for
/// collider as well.
pub open spec fn resolved_from(
    w: Physics,
    d: PhysicsDesc,
    binder: PhysicsBinder,
    graph: SceneSnapshot,
) -> bool {
    &&& w.spec_integration_parameters() == d.integration_parameters
    &&& w.spec_bodies().slot_count_spec() == d.bodies@.len()
    &&& forall|k: int|
        0 <= k < d.bodies@.len() ==> (#[trigger] w.spec_bodies().live_at(k))
            && w.spec_bodies().gen_at(k) == 0 && crate::desc::body_state_eq_desc(
            w.spec_bodies().val_at(k),
            d.bodies@[k],
        )
    &&& forall|e: u128, sv: SolverHandle|
        (#[trigger] w.spec_body_map().maps_to(e, sv)) <==> d.body_handle_map.maps_to(e, sv)
    &&& w.spec_joints().slot_count_spec() == d.joints@.len()
    &&& forall|m: int|
        0 <= m < d.joints@.len() ==> (#[trigger] w.spec_joints().live_at(m))
            && w.spec_joints().gen_at(m) == 0 && w.spec_joints().val_at(m).params
            == d.joints@[m].params && d.body_handle_map.maps_to(
            d.joints@[m].body1.id,
            w.spec_joints().val_at(m).body1,
        ) && d.body_handle_map.maps_to(d.joints@[m].body2.id, w.spec_joints().val_at(m).body2)
    &&& forall|e: u128, sv: SolverHandle|
        (#[trigger] w.spec_joint_map().maps_to(e, sv)) <==> d.joint_handle_map.maps_to(e, sv)
    &&& (forall|k: int| 0 <= k < d.colliders@.len() ==> collider_resolvable(d, binder, graph, k))
        ==> {
        &&& w.spec_colliders().slot_count_spec() == d.colliders@.len()
        &&& forall|e: u128, sv: SolverHandle|
            (#[trigger] w.spec_collider_map().maps_to(e, sv)) <==> d.collider_handle_map.maps_to(
                e,
                sv,
            )
        &&& forall|k: int|
            0 <= k < d.colliders@.len() ==> (#[trigger] w.spec_colliders().live_at(k))
                && w.spec_colliders().gen_at(k) == 0 && crate::desc::collider_state_eq_desc(
                w.spec_colliders().val_at(k),
                d.colliders@[k],
            ) && d.body_handle_map.maps_to(
                d.colliders@[k].parent.id,
                w.spec_colliders().val_at(k).parent,
            ) && (!(d.colliders@[k].shape is Trimesh) ==> crate::shape::shape_matches_desc(
                w.spec_colliders().val_at(k).shape,
                d.colliders@[k].shape,
            ))
    }
}

/// Conjunction introduction for the resolve postcondition, kept separate
/// so each piece is checked in its own small query.
proof fn lemma_resolved_assemble(
    w: Physics,
    d: PhysicsDesc,
    binder: PhysicsBinder,
    graph: SceneSnapshot,
)
    requires
        w.spec_integration_parameters() == d.integration_parameters,
        w.spec_bodies().slot_count_spec() == d.bodies@.len(),
        forall|k: int|
            0 <= k < d.bodies@.len() ==> (#[trigger] w.spec_bodies().live_at(k))
                && w.spec_bodies().gen_at(k) == 0 && crate::desc::body_state_eq_desc(
                w.spec_bodies().val_at(k),
                d.bodies@[k],
            ),
        forall|e: u128, sv: SolverHandle|
            (#[trigger] w.spec_body_map().maps_to(e, sv)) <==> d.body_handle_map.maps_to(e, sv),
        w.spec_joints().slot_count_spec() == d.joints@.len(),
        forall|m: int|
            0 <= m < d.joints@.len() ==> (#[trigger] w.spec_joints().live_at(m))
                && w.spec_joints().gen_at(m) == 0 && w.spec_joints().val_at(m).params
                == d.joints@[m].params && d.body_handle_map.maps_to(
                d.joints@[m].body1.id,
                w.spec_joints().val_at(m).body1,
            ) && d.body_handle_map.maps_to(d.joints@[m].body2.id, w.spec_joints().val_at(m).body2),
        forall|e: u128, sv: SolverHandle|
            (#[trigger] w.spec_joint_map().maps_to(e, sv)) <==> d.joint_handle_map.maps_to(e, sv),
        (forall|k: int| 0 <= k < d.colliders@.len() ==> collider_resolvable(d, binder, graph, k))
            ==> {
            &&& w.spec_colliders().slot_count_spec() == d.colliders@.len()
            &&& forall|e: u128, sv: SolverHandle|
                (#[trigger] w.spec_collider_map().maps_to(e, sv)) <==> d.collider_handle_map.maps_to(
                    e,
                    sv,
                )
            &&& forall|k: int|
                0 <= k < d.colliders@.len() ==> (#[trigger] w.spec_colliders().live_at(k))
                    && w.spec_colliders().gen_at(k) == 0 && crate::desc::collider_state_eq_desc(
                    w.spec_colliders().val_at(k),
                    d.colliders@[k],
                ) && d.body_handle_map.maps_to(
                    d.colliders@[k].parent.id,
                    w.spec_colliders().val_at(k).parent,
                ) && (!(d.colliders@[k].shape is Trimesh) ==> crate::shape::shape_matches_desc(
                    w.spec_colliders().val_at(k).shape,
                    d.colliders@[k].shape,
                ))
        },
    ensures
        resolved_from(w, d, binder, graph),
{
}

/// Whether a collider descriptor can materialize: any shape but a trimesh

/// always can, and a trimesh can when its owning body has at least one bound
/// node and every node bound to it is valid in the scene.
pub open spec fn collider_resolvable(
    d: PhysicsDesc,
    binder: PhysicsBinder,
    graph: SceneSnapshot,
    k: int,
) -> bool {
    match d.colliders@[k].shape {
        ColliderShapeDesc::Trimesh(_) => {
            &&& exists|n: NodeHandle| #[trigger] binder.binds(n, d.colliders@[k].parent.id)
            &&& forall|n: NodeHandle|
                #[trigger] binder.binds(n, d.colliders@[k].parent.id) ==> graph.spec_is_valid(n)
        },
        _ => true,
    }
}

/// Raises the minting counter past every engine identifier in a table.
fn raise_past(start: u128, t: &HandleTable) -> (r: u128)
    requires
        forall|i: int| 0 <= i < t@.len() ==> (#[trigger] t@[i]).engine < u128::MAX,
    ensures
        r >= start,
        table_ids_below(*t, r),
{
    let n = t.len();
    let mut next = start;
    let mut i: usize = 0;
    while i < n
        invariant
            i <= n,
            n == t@.len(),
            next >= start,
            forall|j: int| 0 <= j < n ==> (#[trigger] t@[j]).engine < u128::MAX,
            forall|j: int| 0 <= j < i ==> (#[trigger] t@[j]).engine < next,
        decreases n - i,
    {
        let p = t.pair_at(i);
        if p.engine >= next {
            next = p.engine + 1;
        }
        i += 1;
    }
    next
}

/// Whether two packed interaction-group words are compatible.
pub open spec fn spec_groups_match(a: u32, b: u32) -> bool {
    (a >> 16) & (b & 0xFFFF) != 0 && (b >> 16) & (a & 0xFFFF) != 0
}

/// The raw hits among the first `n` whose colliders match the requested
/// interaction-group mask.
pub open spec fn spec_group_kept_upto(w: Physics, raw: Seq<RawIntersection>, groups: u32, n: int) -> Seq<
    RawIntersection,
>
    decreases n,
{
    if n <= 0 {
        Seq::empty()
    } else {
        spec_group_kept_upto(w, raw, groups, n - 1) + if spec_groups_match(
            groups,
            w.spec_colliders().value_of(raw[n - 1].collider).collision_groups,
        ) {
            seq![raw[n - 1]]
        } else {
            Seq::empty()
        }
    }
}

/// The raw hits whose colliders match the requested interaction-group
/// mask, in arrival order.
pub open spec fn spec_group_kept(w: Physics, raw: Seq<RawIntersection>, groups: u32) -> Seq<
    RawIntersection,
> {
    spec_group_kept_upto(w, raw, groups, raw.len() as int)
}

/// Every engine identifier the table mentions was minted below the world's
/// counter, so the next minted identifier is fresh.
pub open spec fn table_ids_below(t: HandleTable, next: u128) -> bool {
    forall|i: int| 0 <= i < t@.len() ==> (#[trigger] t@[i]).engine < next
}

impl Physics {
    /// The live bodies.
    pub closed spec fn spec_bodies(self) -> Pool<RigidBody> {
        self.bodies
    }

    /// The live colliders.
    pub closed spec fn spec_colliders(self) -> Pool<Collider> {
        self.colliders
    }

    /// The live joints.
    pub closed spec fn spec_joints(self) -> Pool<Joint> {
        self.joints
    }

    /// The body translation table.
    pub closed spec fn spec_body_map(self) -> HandleTable {
        self.body_handle_map
    }

    /// The collider translation table.
    pub closed spec fn spec_collider_map(self) -> HandleTable {
        self.collider_handle_map
    }

    /// The joint translation table.
    pub closed spec fn spec_joint_map(self) -> HandleTable {
        self.joint_handle_map
    }

    /// The engine-identifier minting counter.
    pub closed spec fn spec_next_id(self) -> u128 {
        self.next_engine_id
    }

    /// The gravity vector.
    pub closed spec fn spec_gravity(self) -> Vector3 {
        self.gravity
    }

    /// The integration configuration.
    pub closed spec fn spec_integration_parameters(self) -> IntegrationParametersDesc {
        self.integration_parameters
    }

    /// The pending or overriding descriptor set.
    pub closed spec fn spec_desc(self) -> Option<PhysicsDesc> {
        self.desc
    }

    /// The recorded resource links.
    pub closed spec fn spec_embedded_resources(self) -> Seq<ResourceLink> {
        self.embedded_resources@
    }

    /// The performance counters.
    pub closed spec fn spec_stats(self) -> PhysicsPerformanceStatistics {
        self.performance_statistics
    }

    /// A body engine handle is known to the world.
    pub open spec fn spec_contains_body(self, h: RigidBodyHandle) -> bool {
        self.spec_body_map().has_engine(h.id)
    }

    /// A collider engine handle is known to the world.
    pub open spec fn spec_contains_collider(self, h: ColliderHandle) -> bool {
        self.spec_collider_map().has_engine(h.id)
    }

    /// A joint engine handle is known to the world.
    pub open spec fn spec_contains_joint(self, h: JointHandle) -> bool {
        self.spec_joint_map().has_engine(h.id)
    }

    /// The solver handle a body engine handle translates to.
    pub open spec fn spec_body_solver(self, h: RigidBodyHandle) -> SolverHandle {
        choose|s: SolverHandle| self.spec_body_map().maps_to(h.id, s)
    }

    /// The solver handle a collider engine handle translates to.
    pub open spec fn spec_collider_solver(self, h: ColliderHandle) -> SolverHandle {
        choose|s: SolverHandle| self.spec_collider_map().maps_to(h.id, s)
    }

    /// The solver handle a joint engine handle translates to.
    pub open spec fn spec_joint_solver(self, h: JointHandle) -> SolverHandle {
        choose|s: SolverHandle| self.spec_joint_map().maps_to(h.id, s)
    }

    /// The live body an engine handle denotes.
    pub open spec fn spec_body(self, h: RigidBodyHandle) -> RigidBody {
        self.spec_bodies().value_of(self.spec_body_solver(h))
    }

    /// The live collider an engine handle denotes.
    pub open spec fn spec_collider(self, h: ColliderHandle) -> Collider {
        self.spec_colliders().value_of(self.spec_collider_solver(h))
    }

    /// The live joint an engine handle denotes.
    pub open spec fn spec_joint(self, h: JointHandle) -> Joint {
        self.spec_joints().value_of(self.spec_joint_solver(h))
    }

    /// Every live collider's owning body is live.
    pub open spec fn colliders_parents_live(self) -> bool {
        forall|i: int|
            0 <= i < self.spec_colliders().slot_count_spec() && #[trigger] self.spec_colliders().live_at(
                i,
            ) ==> self.spec_bodies().contains(self.spec_colliders().val_at(i).parent)
    }

    /// Every live joint's two bodies are live.
    pub open spec fn joints_bodies_live(self) -> bool {
        forall|i: int|
            0 <= i < self.spec_joints().slot_count_spec() && #[trigger] self.spec_joints().live_at(
                i,
            ) ==> self.spec_bodies().contains(self.spec_joints().val_at(i).body1)
                && self.spec_bodies().contains(self.spec_joints().val_at(i).body2)
    }

    /// Every live body's collider list names live colliders owned by that
    /// very body.
    pub open spec fn body_collider_lists_wf(self) -> bool {
        forall|i: int, k: int|
            0 <= i < self.spec_bodies().slot_count_spec() && self.spec_bodies().live_at(i) && 0 <= k
                < self.spec_bodies().val_at(i).colliders@.len() ==> {
                let ch = #[trigger] self.spec_bodies().val_at(i).colliders@[k];
                &&& self.spec_colliders().contains(ch)
                &&& self.spec_colliders().value_of(ch).parent == self.spec_bodies().handle_of(i)
            }
    }

    /// The world invariant: injective tables in sync with the pools, fresh
    /// minting, and structurally sound cross-references.
    pub open spec fn wf(self) -> bool {
        &&& self.spec_body_map().wf()
        &&& self.spec_collider_map().wf()
        &&& self.spec_joint_map().wf()
        &&& self.spec_bodies().wf()
        &&& self.spec_colliders().wf()
        &&& self.spec_joints().wf()
        &&& table_pool_sync(self.spec_body_map(), self.spec_bodies())
        &&& table_pool_sync(self.spec_collider_map(), self.spec_colliders())
        &&& table_pool_sync(self.spec_joint_map(), self.spec_joints())
        &&& table_ids_below(self.spec_body_map(), self.spec_next_id())
        &&& table_ids_below(self.spec_collider_map(), self.spec_next_id())
        &&& table_ids_below(self.spec_joint_map(), self.spec_next_id())
        &&& self.colliders_parents_live()
        &&& self.joints_bodies_live()
        &&& self.body_collider_lists_wf()
    }

    /// Parts of the world that the handle-based operations never touch.
    pub closed spec fn same_misc(self, other: Physics) -> bool {
        &&& self.gravity == other.gravity
        &&& self.integration_parameters == other.integration_parameters
        &&& self.desc == other.desc
        &&& self.embedded_resources == other.embedded_resources
        &&& self.performance_statistics == other.performance_statistics
    }

    /// Creates an empty world with the stock configuration.
    pub fn new() -> (r: Physics)
        ensures
            r.wf(),
            r.spec_gravity() == spec_default_gravity(),
            r.spec_integration_parameters() == spec_default_integration_parameters(),
            r.spec_bodies().slot_count_spec() == 0,
            r.spec_colliders().slot_count_spec() == 0,
            r.spec_joints().slot_count_spec() == 0,
            r.spec_bodies().no_free_slots(),
            r.spec_colliders().no_free_slots(),
            r.spec_joints().no_free_slots(),
            r.spec_body_map()@.len() == 0,
            r.spec_collider_map()@.len() == 0,
            r.spec_joint_map()@.len() == 0,
            (r.spec_desc() is None),
            r.spec_embedded_resources().len() == 0,
            r.spec_stats().step_time_nanos == 0,
            r.spec_stats().total_ray_cast_time_nanos == 0,
    {
        Physics {
            gravity: Vector3::from_bits(BITS_ZERO, BITS_NEG_9_81, BITS_ZERO),
            integration_parameters: IntegrationParametersDesc::default(),
            bodies: Pool::new(),
            colliders: Pool::new(),
            joints: Pool::new(),
            desc: None,
            embedded_resources: Vec::new(),
            performance_statistics: PhysicsPerformanceStatistics::new(),
            body_handle_map: HandleTable::new(),
            collider_handle_map: HandleTable::new(),
            joint_handle_map: HandleTable::new(),
            next_engine_id: 1,
        }
    }

    /// The body translation table.
    pub fn body_handle_map(&self) -> (r: &HandleTable)
        ensures
            *r == self.spec_body_map(),
    {
        &self.body_handle_map
    }

    /// The collider translation table.
    pub fn collider_handle_map(&self) -> (r: &HandleTable)
        ensures
            *r == self.spec_collider_map(),
    {
        &self.collider_handle_map
    }

    /// The joint translation table.
    pub fn joint_handle_map(&self) -> (r: &HandleTable)
        ensures
            *r == self.spec_joint_map(),
    {
        &self.joint_handle_map
    }

    /// The live body a solver handle denotes, if it is live.
    pub fn body_solver(&self, handle: SolverHandle) -> (r: Option<&RigidBody>)
        ensures
            match r {
                Some(b) => self.spec_bodies().contains(handle) && *b == self.spec_bodies().value_of(
                    handle,
                ),
                None => !self.spec_bodies().contains(handle),
            },
    {
        self.bodies.get(handle)
    }

    /// The live collider a solver handle denotes, if it is live.
    pub fn collider_solver(&self, handle: SolverHandle) -> (r: Option<&Collider>)
        ensures
            match r {
                Some(c) => self.spec_colliders().contains(handle) && *c
                    == self.spec_colliders().value_of(handle),
                None => !self.spec_colliders().contains(handle),
            },
    {
        self.colliders.get(handle)
    }

    /// Read access to a joint by its solver-side handle, as the mirror of
    /// the external solver walks the table.
    pub fn joint_solver(&self, handle: SolverHandle) -> (r: Option<&Joint>)
        ensures
            match r {
                Some(j) => self.spec_joints().contains(handle) && *j
                    == self.spec_joints().value_of(handle),
                None => !self.spec_joints().contains(handle),
            },
    {
        self.joints.get(handle)
    }

    /// Handle-checked read access to a body.
    pub fn body(&self, handle: &RigidBodyHandle) -> (r: Option<&RigidBody>)
        requires
            self.wf(),
        ensures
            match r {
                Some(b) => self.spec_contains_body(*handle) && *b == self.spec_body(*handle),
                None => !self.spec_contains_body(*handle),
            },
    {
        match self.body_handle_map.value_of(handle.id) {
            Some(s) => {
                proof {
                    self.lemma_body_lookup(*handle, s);
                }
                self.bodies.get(s)
            },
            None => None,
        }
    }

    /// Handle-checked read access to a collider.
    pub fn collider(&self, handle: &ColliderHandle) -> (r: Option<&Collider>)
        requires
            self.wf(),
        ensures
            match r {
                Some(c) => self.spec_contains_collider(*handle) && *c == self.spec_collider(
                    *handle,
                ),
                None => !self.spec_contains_collider(*handle),
            },
    {
        match self.collider_handle_map.value_of(handle.id) {
            Some(s) => {
                proof {
                    self.lemma_collider_lookup(*handle, s);
                }
                self.colliders.get(s)
            },
            None => None,
        }
    }

    /// Handle-checked read access to a joint.
    pub fn joint(&self, handle: &JointHandle) -> (r: Option<&Joint>)
        requires
            self.wf(),
        ensures
            match r {
                Some(j) => self.spec_contains_joint(*handle) && *j == self.spec_joint(*handle),
                None => !self.spec_contains_joint(*handle),
            },
    {
        match self.joint_handle_map.value_of(handle.id) {
            Some(s) => {
                proof {
                    self.lemma_joint_lookup(*handle, s);
                }
                self.joints.get(s)
            },
            None => None,
        }
    }

    /// Whether a body engine handle is live.
    pub fn contains_body(&self, handle: &RigidBodyHandle) -> (r: bool)
        requires
            self.wf(),
        ensures
            r == self.spec_contains_body(*handle),
    {
        self.body(handle).is_some()
    }

    /// Whether a collider engine handle is live.
    pub fn contains_collider(&self, handle: &ColliderHandle) -> (r: bool)
        requires
            self.wf(),
        ensures
            r == self.spec_contains_collider(*handle),
    {
        self.collider(handle).is_some()
    }

    /// The engine handle of the body owning a collider, if the collider is
    /// live.
    pub fn collider_parent(&self, collider: &ColliderHandle) -> (r: Option<RigidBodyHandle>)
        requires
            self.wf(),
        ensures
            match r {
                Some(b) => self.spec_contains_collider(*collider)
                    && self.spec_body_map().maps_to(b.id, self.spec_collider(*collider).parent),
                None => !self.spec_contains_collider(*collider),
            },
    {
        match self.collider(collider) {
            Some(c) => {
                let parent = c.parent;
                proof {
                    self.lemma_collider_live(*collider);
                    let s = self.spec_collider_solver(*collider);
                    let i = s.index as int;
                    assert(self.spec_colliders().live_at(i));
                    assert(self.spec_bodies().contains(parent));
                    assert(self.spec_bodies().live_at(parent.index as int));
                    assert(self.spec_bodies().handle_of(parent.index as int) == parent);
                    assert(self.spec_body_map().has_solver(parent));
                }
                match self.body_handle_map.key_of(parent) {
                    Some(e) => Some(RigidBodyHandle { id: e }),
                    None => unreached(),
                }
            },
            None => None,
        }
    }

    /// A mapped body engine handle has a unique translation, and it is the
    /// one the specification's lookup picks.
    pub proof fn lemma_body_lookup(self, h: RigidBodyHandle, s: SolverHandle)
        requires
            self.spec_body_map().wf(),
            self.spec_body_map().maps_to(h.id, s),
        ensures
            self.spec_body_solver(h) == s,
            self.spec_contains_body(h),
    {
        let t = self.spec_body_map();
        let s2 = self.spec_body_solver(h);
        assert(t.maps_to(h.id, s2));
        crate::table::lemma_maps_to_unique(t, h.id, s, s2);
        let i = choose|i: int| 0 <= i < t@.len() && (#[trigger] t@[i]).engine == h.id && t@[i].solver == s;
    }

    /// A mapped collider engine handle has a unique translation, and it is
    /// the one the specification's lookup picks.
    pub proof fn lemma_collider_lookup(self, h: ColliderHandle, s: SolverHandle)
        requires
            self.spec_collider_map().wf(),
            self.spec_collider_map().maps_to(h.id, s),
        ensures
            self.spec_collider_solver(h) == s,
            self.spec_contains_collider(h),
    {
        let t = self.spec_collider_map();
        let s2 = self.spec_collider_solver(h);
        assert(t.maps_to(h.id, s2));
        crate::table::lemma_maps_to_unique(t, h.id, s, s2);
        let i = choose|i: int| 0 <= i < t@.len() && (#[trigger] t@[i]).engine == h.id && t@[i].solver == s;
    }

    /// A mapped joint engine handle has a unique translation, and it is the
    /// one the specification's lookup picks.
    pub proof fn lemma_joint_lookup(self, h: JointHandle, s: SolverHandle)
        requires
            self.spec_joint_map().wf(),
            self.spec_joint_map().maps_to(h.id, s),
        ensures
            self.spec_joint_solver(h) == s,
            self.spec_contains_joint(h),
    {
        let t = self.spec_joint_map();
        let s2 = self.spec_joint_solver(h);
        assert(t.maps_to(h.id, s2));
        crate::table::lemma_maps_to_unique(t, h.id, s, s2);
        let i = choose|i: int| 0 <= i < t@.len() && (#[trigger] t@[i]).engine == h.id && t@[i].solver == s;
    }

    /// A body the world knows translates to a live solver entity.
    pub proof fn lemma_body_live(self, h: RigidBodyHandle)
        requires
            self.wf(),
            self.spec_contains_body(h),
        ensures
            self.spec_body_map().maps_to(h.id, self.spec_body_solver(h)),
            self.spec_bodies().contains(self.spec_body_solver(h)),
    {
        let t = self.spec_body_map();
        let i = choose|i: int| 0 <= i < t@.len() && (#[trigger] t@[i]).engine == h.id;
        assert(t.maps_to(h.id, t@[i].solver));
        assert(t.maps_to(h.id, self.spec_body_solver(h)));
    }

    /// A collider the world knows translates to a live solver entity.
    pub proof fn lemma_collider_live(self, h: ColliderHandle)
        requires
            self.wf(),
            self.spec_contains_collider(h),
        ensures
            self.spec_collider_map().maps_to(h.id, self.spec_collider_solver(h)),
            self.spec_colliders().contains(self.spec_collider_solver(h)),
    {
        let t = self.spec_collider_map();
        let i = choose|i: int| 0 <= i < t@.len() && (#[trigger] t@[i]).engine == h.id;
        assert(t.maps_to(h.id, t@[i].solver));
        assert(t.maps_to(h.id, self.spec_collider_solver(h)));
    }

    /// A joint the world knows translates to a live solver entity.
    pub proof fn lemma_joint_live(self, h: JointHandle)
        requires
            self.wf(),
            self.spec_contains_joint(h),
        ensures
            self.spec_joint_map().maps_to(h.id, self.spec_joint_solver(h)),
            self.spec_joints().contains(self.spec_joint_solver(h)),
    {
        let t = self.spec_joint_map();
        let i = choose|i: int| 0 <= i < t@.len() && (#[trigger] t@[i]).engine == h.id;
        assert(t.maps_to(h.id, t@[i].solver));
        assert(t.maps_to(h.id, self.spec_joint_solver(h)));
    }

    /// Mints the next engine identifier.
    fn mint_engine_id(&mut self) -> (r: u128)
        requires
            old(self).next_engine_id < u128::MAX,
        ensures
            r == old(self).next_engine_id,
            final(self).next_engine_id == old(self).next_engine_id + 1,
            *final(self) == (Physics { next_engine_id: (old(self).next_engine_id + 1) as u128, ..*old(self) }),
    {
        let id = self.next_engine_id;
        self.next_engine_id = id + 1;
        id
    }

    /// Adds a new rigid body: inserts it into the solver storage, mints a
    /// fresh engine handle, never equal to any this world handed out before,
    /// registers the pair, and returns the engine handle.
    pub fn add_body(&mut self, rigid_body: RigidBody) -> (r: RigidBodyHandle)
        requires
            old(self).wf(),
            old(self).spec_bodies().slot_count_spec() < u32::MAX,
            old(self).spec_next_id() < u128::MAX,
            rigid_body.colliders@.len() == 0,
        ensures
            final(self).wf(),
            r.id == old(self).spec_next_id(),
            final(self).spec_next_id() == old(self).spec_next_id() + 1,
            !old(self).spec_contains_body(r),
            final(self).spec_contains_body(r),
            final(self).spec_body(r) == rigid_body,
            final(self).spec_body_map()@.len() == old(self).spec_body_map()@.len() + 1,
            forall|h2: RigidBodyHandle|
                h2 != r ==> ((#[trigger] final(self).spec_contains_body(h2)) <==> old(
                    self,
                ).spec_contains_body(h2)),
            forall|h2: RigidBodyHandle|
                h2 != r && old(self).spec_contains_body(h2) ==> (#[trigger] final(self).spec_body(
                    h2,
                )) == old(self).spec_body(h2) && final(self).spec_body_solver(h2) == old(
                    self,
                ).spec_body_solver(h2),
            final(self).spec_colliders() == old(self).spec_colliders(),
            final(self).spec_joints() == old(self).spec_joints(),
            final(self).spec_collider_map() == old(self).spec_collider_map(),
            final(self).spec_joint_map() == old(self).spec_joint_map(),
            final(self).same_misc(*old(self)),
            final(self).spec_body_map().maps_to(r.id, final(self).spec_body_solver(r)),
            old(self).spec_bodies().slot_count_spec() <= final(self).spec_bodies().slot_count_spec()
                <= old(self).spec_bodies().slot_count_spec() + 1,
            final(self).spec_colliders().slot_count_spec() == old(
                self,
            ).spec_colliders().slot_count_spec(),
            final(self).spec_joints().slot_count_spec() == old(self).spec_joints().slot_count_spec(),
            old(self).spec_bodies().no_free_slots() ==> {
                &&& final(self).spec_body_solver(r) == (SolverHandle {
                    index: old(self).spec_bodies().slot_count_spec() as u32,
                    generation: 0,
                })
                &&& final(self).spec_bodies().no_free_slots()
                &&& final(self).spec_bodies().slot_count_spec() == old(
                    self,
                ).spec_bodies().slot_count_spec() + 1
            },
    {
        let id = self.mint_engine_id();
        proof {
            assert(!self.spec_contains_body(RigidBodyHandle { id }));
        }
        self.insert_body_with_id(id, rigid_body)
    }

    /// Inserts a rigid body under a caller-supplied fresh engine identifier,
    /// as the resolve stage does when it restores persisted handles.
    pub(crate) fn insert_body_with_id(&mut self, id: u128, rigid_body: RigidBody) -> (r:
        RigidBodyHandle)
        requires
            old(self).wf(),
            old(self).spec_bodies().slot_count_spec() < u32::MAX,
            !old(self).spec_contains_body(RigidBodyHandle { id }),
            id < old(self).spec_next_id(),
            rigid_body.colliders@.len() == 0,
        ensures
            final(self).wf(),
            r.id == id,
            final(self).spec_next_id() == old(self).spec_next_id(),
            !old(self).spec_contains_body(r),
            final(self).spec_contains_body(r),
            final(self).spec_body(r) == rigid_body,
            final(self).spec_body_map()@.len() == old(self).spec_body_map()@.len() + 1,
            forall|h2: RigidBodyHandle|
                h2 != r ==> (#[trigger] final(self).spec_contains_body(h2) <==> old(
                    self,
                ).spec_contains_body(h2)),
            forall|h2: RigidBodyHandle|
                h2 != r && old(self).spec_contains_body(h2) ==> #[trigger] final(self).spec_body(h2)
                    == old(self).spec_body(h2) && final(self).spec_body_solver(h2) == old(
                    self,
                ).spec_body_solver(h2),
            final(self).spec_colliders() == old(self).spec_colliders(),
            final(self).spec_joints() == old(self).spec_joints(),
            final(self).spec_collider_map() == old(self).spec_collider_map(),
            final(self).spec_joint_map() == old(self).spec_joint_map(),
            final(self).same_misc(*old(self)),
            final(self).spec_body_map().maps_to(r.id, final(self).spec_body_solver(r)),
            old(self).spec_bodies().slot_count_spec() <= final(self).spec_bodies().slot_count_spec()
                <= old(self).spec_bodies().slot_count_spec() + 1,
            final(self).spec_colliders().slot_count_spec() == old(
                self,
            ).spec_colliders().slot_count_spec(),
            final(self).spec_joints().slot_count_spec() == old(self).spec_joints().slot_count_spec(),
            old(self).spec_bodies().no_free_slots() ==> {
                &&& final(self).spec_body_solver(r) == (SolverHandle {
                    index: old(self).spec_bodies().slot_count_spec() as u32,
                    generation: 0,
                })
                &&& final(self).spec_bodies().no_free_slots()
                &&& final(self).spec_bodies().slot_count_spec() == old(
                    self,
                ).spec_bodies().slot_count_spec() + 1
            },
            final(self).spec_body_map()@ == old(self).spec_body_map()@.push(
                crate::table::TablePair { engine: r.id, solver: final(self).spec_body_solver(r) },
            ),
            forall|i: int|
                0 <= i < old(self).spec_bodies().slot_count_spec() && i != final(self).spec_body_solver(r).index as int ==> ((
                #[trigger] final(self).spec_bodies().live_at(i)) <==> old(self).spec_bodies().live_at(
                    i,
                )) && final(self).spec_bodies().gen_at(i) == old(self).spec_bodies().gen_at(i) && (
                old(self).spec_bodies().live_at(i) ==> final(self).spec_bodies().val_at(i) == old(
                    self,
                ).spec_bodies().val_at(i)),
    {
        let s = self.bodies.spawn(rigid_body);
        proof {
            assert(!self.body_handle_map.has_engine(id));
            assert(!self.body_handle_map.has_solver(s)) by {
                if self.body_handle_map.has_solver(s) {
                    let i = choose|i: int|
                        0 <= i < self.body_handle_map@.len() && (
                        #[trigger] self.body_handle_map@[i]).solver == s;
                    assert(self.body_handle_map.maps_to(self.body_handle_map@[i].engine, s));
                    assert(old(self).spec_bodies().contains(s));
                }
            }
        }
        self.body_handle_map.insert(id, s);
        let handle = RigidBodyHandle { id };
        proof {
            assert(self.body_handle_map@[self.body_handle_map@.len() - 1] == (crate::table::TablePair {
                engine: id,
                solver: s,
            }));
            assert(self.body_handle_map.maps_to(id, s));
        }
        proof {
            self.lemma_body_lookup(handle, s);
            let pre = *old(self);
            assert forall|h2: RigidBodyHandle| h2 != handle implies (
            #[trigger] self.spec_contains_body(h2) <==> pre.spec_contains_body(h2)) by {
                assert(self.spec_body_map()@ == pre.spec_body_map()@.push(
                    crate::table::TablePair { engine: id, solver: s },
                ));
                if pre.spec_body_map().has_engine(h2.id) {
                    let i = choose|i: int|
                        0 <= i < pre.spec_body_map()@.len() && (
                        #[trigger] pre.spec_body_map()@[i]).engine == h2.id;
                    assert(self.spec_body_map()@[i].engine == h2.id);
                }
                if self.spec_body_map().has_engine(h2.id) {
                    let i = choose|i: int|
                        0 <= i < self.spec_body_map()@.len() && (
                        #[trigger] self.spec_body_map()@[i]).engine == h2.id;
                    assert(i < pre.spec_body_map()@.len());
                    assert(pre.spec_body_map()@[i].engine == h2.id);
                }
            }
            assert forall|h2: RigidBodyHandle|
                h2 != handle && pre.spec_contains_body(h2) implies #[trigger] self.spec_body(h2)
                == pre.spec_body(h2) && self.spec_body_solver(h2) == pre.spec_body_solver(h2) by {
                let s2 = pre.spec_body_solver(h2);
                let t2 = pre.spec_body_map();
                let iw = choose|iw: int| 0 <= iw < t2@.len() && (#[trigger] t2@[iw]).engine == h2.id;
                assert(t2.maps_to(h2.id, t2@[iw].solver));
                assert(t2.maps_to(h2.id, s2));
                pre.lemma_body_lookup(h2, s2);
                let i = choose|i: int|
                    0 <= i < pre.spec_body_map()@.len() && (#[trigger] pre.spec_body_map()@[i]).engine
                        == h2.id && pre.spec_body_map()@[i].solver == s2;
                assert(self.spec_body_map()@[i] == pre.spec_body_map()@[i]);
                assert(self.spec_body_map().maps_to(h2.id, s2));
                self.lemma_body_lookup(h2, s2);
                assert(s2 != s);
            }
            assert forall|i: int|
                0 <= i < self.spec_bodies().slot_count_spec() && #[trigger] self.spec_bodies().live_at(
                    i,
                ) implies self.spec_body_map().has_solver(self.spec_bodies().handle_of(i)) by {
                let hh = self.spec_bodies().handle_of(i);
                if hh == s {
                    assert(self.spec_body_map()@[self.spec_body_map()@.len() - 1].solver == s);
                } else {
                    assert(pre.spec_bodies().live_at(i) <==> self.spec_bodies().live_at(i));
                    assert(pre.spec_bodies().contains(hh) <==> self.spec_bodies().contains(hh));
                    assert(pre.spec_bodies().live_at(i) && pre.spec_bodies().handle_of(i) == hh);
                    assert(pre.spec_body_map().has_solver(hh));
                    let k = choose|k: int|
                        0 <= k < pre.spec_body_map()@.len() && (
                        #[trigger] pre.spec_body_map()@[k]).solver == hh;
                    assert(self.spec_body_map()@[k].solver == hh);
                }
            }
            assert forall|e: u128, s2: SolverHandle|
                #[trigger] self.spec_body_map().maps_to(e, s2) implies self.spec_bodies().contains(
                s2,
            ) by {
                let i = choose|i: int|
                    0 <= i < self.spec_body_map()@.len() && (#[trigger] self.spec_body_map()@[i]).engine
                        == e && self.spec_body_map()@[i].solver == s2;
                if i < pre.spec_body_map()@.len() {
                    assert(pre.spec_body_map().maps_to(e, s2));
                } else {
                    assert(s2 == s);
                }
            }
        }
        handle
    }

    /// Adds a new collider attached to a body: inserts it into the solver
    /// storage with its parent reference set, records the attachment in the
    /// parent's collider list, mints and registers a fresh engine handle,
    /// and returns it.
    pub fn add_collider(&mut self, collider: Collider, rigid_body: &RigidBodyHandle) -> (r:
        ColliderHandle)
        requires
            old(self).wf(),
            old(self).spec_contains_body(*rigid_body),
            old(self).spec_colliders().slot_count_spec() < u32::MAX,
            old(self).spec_next_id() < u128::MAX,
        ensures
            final(self).wf(),
            r.id == old(self).spec_next_id(),
            final(self).spec_next_id() == old(self).spec_next_id() + 1,
            !old(self).spec_contains_collider(r),
            final(self).spec_contains_collider(r),
            final(self).spec_collider(r) == (Collider {
                parent: old(self).spec_body_solver(*rigid_body),
                ..collider
            }),
            final(self).spec_collider_map()@.len() == old(self).spec_collider_map()@.len() + 1,
            forall|h2: ColliderHandle|
                h2 != r ==> ((#[trigger] final(self).spec_contains_collider(h2)) <==> old(
                    self,
                ).spec_contains_collider(h2)),
            forall|h2: ColliderHandle|
                h2 != r && old(self).spec_contains_collider(h2) ==> (#[trigger] final(self).spec_collider(
                    h2,
                )) == old(self).spec_collider(h2) && final(self).spec_collider_solver(h2) == old(
                    self,
                ).spec_collider_solver(h2),
            final(self).spec_body_map() == old(self).spec_body_map(),
            final(self).spec_joint_map() == old(self).spec_joint_map(),
            final(self).spec_joints() == old(self).spec_joints(),
            final(self).same_misc(*old(self)),
            forall|h2: RigidBodyHandle|
                (#[trigger] final(self).spec_contains_body(h2)) <==> old(self).spec_contains_body(
                    h2,
                ),
            forall|h2: RigidBodyHandle|
                h2 != *rigid_body && old(self).spec_contains_body(h2) ==> (
                #[trigger] final(self).spec_body(h2)) == old(self).spec_body(h2),
            final(self).spec_body(*rigid_body).colliders@ == old(self).spec_body(
                *rigid_body,
            ).colliders@.push(final(self).spec_collider_solver(r)),
            crate::entities::same_body_state(
                final(self).spec_body(*rigid_body),
                old(self).spec_body(*rigid_body),
            ),
            old(self).spec_colliders().slot_count_spec() <= final(self).spec_colliders().slot_count_spec() <= old(self).spec_colliders().slot_count_spec()
                + 1,
            final(self).spec_bodies().slot_count_spec() == old(
                self,
            ).spec_bodies().slot_count_spec(),
            final(self).spec_joints().slot_count_spec() == old(self).spec_joints().slot_count_spec(),
            old(self).spec_colliders().no_free_slots() ==> {
                &&& final(self).spec_collider_solver(r) == (SolverHandle {
                    index: old(self).spec_colliders().slot_count_spec() as u32,
                    generation: 0,
                })
                &&& final(self).spec_colliders().no_free_slots()
                &&& final(self).spec_colliders().slot_count_spec() == old(
                    self,
                ).spec_colliders().slot_count_spec() + 1
            },
    {
        let id = self.mint_engine_id();
        proof {
            assert(!self.spec_contains_collider(ColliderHandle { id }));
        }
        self.insert_collider_with_id(id, collider, rigid_body)
    }

    /// Inserts a collider under a caller-supplied fresh engine identifier,
    /// as the resolve stage does when it restores persisted handles.
    pub(crate) fn insert_collider_with_id(&mut self, id: u128, collider: Collider, rigid_body: &RigidBodyHandle) -> (r:
        ColliderHandle)
        requires
            old(self).wf(),
            old(self).spec_contains_body(*rigid_body),
            old(self).spec_colliders().slot_count_spec() < u32::MAX,
            !old(self).spec_contains_collider(ColliderHandle { id }),
            id < old(self).spec_next_id(),
        ensures
            final(self).wf(),
            r.id == id,
            final(self).spec_next_id() == old(self).spec_next_id(),
            !old(self).spec_contains_collider(r),
            final(self).spec_contains_collider(r),
            final(self).spec_collider(r) == (Collider {
                parent: old(self).spec_body_solver(*rigid_body),
                ..collider
            }),
            final(self).spec_collider_map()@.len() == old(self).spec_collider_map()@.len() + 1,
            forall|h2: ColliderHandle|
                h2 != r ==> ((#[trigger] final(self).spec_contains_collider(h2)) <==> old(
                    self,
                ).spec_contains_collider(h2)),
            forall|h2: ColliderHandle|
                h2 != r && old(self).spec_contains_collider(h2) ==> (#[trigger] final(self).spec_collider(h2)) == old(self).spec_collider(h2) && final(self).spec_collider_solver(h2) == old(self).spec_collider_solver(h2),
            final(self).spec_body_map() == old(self).spec_body_map(),
            final(self).spec_joint_map() == old(self).spec_joint_map(),
            final(self).spec_joints() == old(self).spec_joints(),
            final(self).same_misc(*old(self)),
            forall|h2: RigidBodyHandle|
                #[trigger] final(self).spec_contains_body(h2) <==> old(self).spec_contains_body(
                    h2,
                ),
            forall|h2: RigidBodyHandle|
                h2 != *rigid_body && old(self).spec_contains_body(h2) ==> #[trigger] final(self).spec_body(h2) == old(self).spec_body(h2),
            final(self).spec_body(*rigid_body).colliders@ == old(self).spec_body(
                *rigid_body,
            ).colliders@.push(final(self).spec_collider_solver(r)),
            crate::entities::same_body_state(
                final(self).spec_body(*rigid_body),
                old(self).spec_body(*rigid_body),
            ),
            old(self).spec_colliders().slot_count_spec() <= final(self).spec_colliders().slot_count_spec() <= old(self).spec_colliders().slot_count_spec()
                + 1,
            final(self).spec_bodies().slot_count_spec() == old(
                self,
            ).spec_bodies().slot_count_spec(),
            final(self).spec_joints().slot_count_spec() == old(self).spec_joints().slot_count_spec(),
            old(self).spec_colliders().no_free_slots() ==> {
                &&& final(self).spec_collider_solver(r) == (SolverHandle {
                    index: old(self).spec_colliders().slot_count_spec() as u32,
                    generation: 0,
                })
                &&& final(self).spec_colliders().no_free_slots()
                &&& final(self).spec_colliders().slot_count_spec() == old(
                    self,
                ).spec_colliders().slot_count_spec() + 1
            },
            final(self).spec_collider_map()@ == old(self).spec_collider_map()@.push(
                crate::table::TablePair {
                    engine: r.id,
                    solver: final(self).spec_collider_solver(r),
                },
            ),
            old(self).spec_colliders().slot_count_spec() <= final(self).spec_colliders().slot_count_spec() <= old(self).spec_colliders().slot_count_spec()
                + 1,
            forall|i: int|
                0 <= i < old(self).spec_colliders().slot_count_spec() && i != final(self).spec_collider_solver(r).index as int ==> ((
                #[trigger] final(self).spec_colliders().live_at(i)) <==> old(
                    self,
                ).spec_colliders().live_at(i)) && final(self).spec_colliders().gen_at(i) == old(
                    self,
                ).spec_colliders().gen_at(i) && (old(self).spec_colliders().live_at(i) ==> final(self).spec_colliders().val_at(i) == old(self).spec_colliders().val_at(i)),
            final(self).spec_bodies().slot_count_spec() == old(
                self,
            ).spec_bodies().slot_count_spec(),
            forall|i: int|
                0 <= i < final(self).spec_bodies().slot_count_spec() ==> ((
                #[trigger] final(self).spec_bodies().live_at(i)) <==> old(self).spec_bodies().live_at(
                    i,
                )) && final(self).spec_bodies().gen_at(i) == old(self).spec_bodies().gen_at(i) && (
                old(self).spec_bodies().live_at(i) ==> crate::entities::same_body_state(
                    final(self).spec_bodies().val_at(i),
                    old(self).spec_bodies().val_at(i),
                )),
    {
        let s_parent = match self.body_handle_map.value_of(rigid_body.id) {
            Some(s) => s,
            None => unreached(),
        };
        proof {
            self.lemma_body_lookup(*rigid_body, s_parent);
        }
        let mut c = collider;
        c.parent = s_parent;
        let s = self.colliders.spawn(c);
        proof {
            assert(!self.collider_handle_map.has_engine(id));
            assert(!self.collider_handle_map.has_solver(s)) by {
                if self.collider_handle_map.has_solver(s) {
                    let i = choose|i: int|
                        0 <= i < self.collider_handle_map@.len() && (
                        #[trigger] self.collider_handle_map@[i]).solver == s;
                    assert(self.collider_handle_map.maps_to(self.collider_handle_map@[i].engine, s));
                    assert(old(self).spec_colliders().contains(s));
                }
            }
        }
        self.collider_handle_map.insert(id, s);
        let handle = ColliderHandle { id };
        proof {
            assert(self.collider_handle_map@[self.collider_handle_map@.len() - 1] == (crate::table::TablePair {
                engine: id,
                solver: s,
            }));
            assert(self.collider_handle_map.maps_to(id, s));
        }
        let parent_body = self.bodies.borrow_mut(s_parent);
        parent_body.colliders.push(s);
        proof {
            self.lemma_collider_lookup(handle, s);
            self.lemma_body_lookup(*rigid_body, s_parent);
            let pre = *old(self);
            assert forall|h2: ColliderHandle| h2 != handle implies (
            #[trigger] self.spec_contains_collider(h2) <==> pre.spec_contains_collider(h2)) by {
                if pre.spec_collider_map().has_engine(h2.id) {
                    let i = choose|i: int|
                        0 <= i < pre.spec_collider_map()@.len() && (
                        #[trigger] pre.spec_collider_map()@[i]).engine == h2.id;
                    assert(self.spec_collider_map()@[i].engine == h2.id);
                }
                if self.spec_collider_map().has_engine(h2.id) {
                    let i = choose|i: int|
                        0 <= i < self.spec_collider_map()@.len() && (
                        #[trigger] self.spec_collider_map()@[i]).engine == h2.id;
                    assert(i < pre.spec_collider_map()@.len());
                    assert(pre.spec_collider_map()@[i].engine == h2.id);
                }
            }
            assert forall|h2: ColliderHandle|
                h2 != handle && pre.spec_contains_collider(h2) implies #[trigger] self.spec_collider(
                h2,
            ) == pre.spec_collider(h2) && self.spec_collider_solver(h2) == pre.spec_collider_solver(
                h2,
            ) by {
                let s2 = pre.spec_collider_solver(h2);
                let t2 = pre.spec_collider_map();
                let iw = choose|iw: int| 0 <= iw < t2@.len() && (#[trigger] t2@[iw]).engine == h2.id;
                assert(t2.maps_to(h2.id, t2@[iw].solver));
                assert(t2.maps_to(h2.id, s2));
                pre.lemma_collider_lookup(h2, s2);
                let i = choose|i: int|
                    0 <= i < pre.spec_collider_map()@.len() && (
                    #[trigger] pre.spec_collider_map()@[i]).engine == h2.id
                        && pre.spec_collider_map()@[i].solver == s2;
                assert(self.spec_collider_map()@[i] == pre.spec_collider_map()@[i]);
                assert(self.spec_collider_map().maps_to(h2.id, s2));
                self.lemma_collider_lookup(h2, s2);
                assert(s2 != s);
            }
            assert forall|i: int|
                0 <= i < self.spec_colliders().slot_count_spec()
                    && #[trigger] self.spec_colliders().live_at(i) implies self.spec_collider_map().has_solver(
                self.spec_colliders().handle_of(i),
            ) by {
                let hh = self.spec_colliders().handle_of(i);
                if hh == s {
                    assert(self.spec_collider_map()@[self.spec_collider_map()@.len() - 1].solver
                        == s);
                } else {
                    assert(pre.spec_colliders().live_at(i) && pre.spec_colliders().handle_of(i)
                        == hh);
                    assert(pre.spec_collider_map().has_solver(hh));
                    let k = choose|k: int|
                        0 <= k < pre.spec_collider_map()@.len() && (
                        #[trigger] pre.spec_collider_map()@[k]).solver == hh;
                    assert(self.spec_collider_map()@[k].solver == hh);
                }
            }
            assert forall|e: u128, s2: SolverHandle|
                #[trigger] self.spec_collider_map().maps_to(e, s2) implies self.spec_colliders().contains(
                s2,
            ) by {
                let i = choose|i: int|
                    0 <= i < self.spec_collider_map()@.len() && (
                    #[trigger] self.spec_collider_map()@[i]).engine == e
                        && self.spec_collider_map()@[i].solver == s2;
                if i < pre.spec_collider_map()@.len() {
                    assert(pre.spec_collider_map().maps_to(e, s2));
                } else {
                    assert(s2 == s);
                }
            }
            assert forall|h2: RigidBodyHandle|
                h2 != *rigid_body && pre.spec_contains_body(h2) implies #[trigger] self.spec_body(
                h2,
            ) == pre.spec_body(h2) by {
                let t = pre.spec_body_map();
                let iw = choose|iw: int| 0 <= iw < t@.len() && (#[trigger] t@[iw]).engine == h2.id;
                assert(t.maps_to(h2.id, t@[iw].solver));
                let s2 = pre.spec_body_solver(h2);
                assert(t.maps_to(h2.id, s2));
                pre.lemma_body_lookup(h2, s2);
                self.lemma_body_lookup(h2, s2);
                if s2 == s_parent {
                    crate::table::lemma_solver_unique(t, h2.id, rigid_body.id, s_parent);
                }
            }
            assert(self.body_collider_lists_wf()) by {
                assert forall|i: int, k: int|
                    0 <= i < self.spec_bodies().slot_count_spec() && self.spec_bodies().live_at(i)
                        && 0 <= k < self.spec_bodies().val_at(i).colliders@.len() implies {
                    let ch = #[trigger] self.spec_bodies().val_at(i).colliders@[k];
                    &&& self.spec_colliders().contains(ch)
                    &&& self.spec_colliders().value_of(ch).parent == self.spec_bodies().handle_of(i)
                } by {
                    let ch = self.spec_bodies().val_at(i).colliders@[k];
                    if i == s_parent.index as int {
                        if k < pre.spec_bodies().val_at(i).colliders@.len() {
                            assert(pre.spec_bodies().val_at(i).colliders@[k] == ch);
                            assert(pre.spec_colliders().contains(ch));
                            assert(ch != s);
                        } else {
                            assert(ch == s);
                        }
                    } else {
                        assert(pre.spec_bodies().val_at(i) == self.spec_bodies().val_at(i));
                        assert(pre.spec_colliders().contains(ch));
                        assert(ch != s);
                    }
                }
            }
        }
        handle
    }

    /// Adds a new joint between two bodies: inserts it into the solver
    /// storage, mints and registers a fresh engine handle, and returns it.
    pub fn add_joint(&mut self, body1: &RigidBodyHandle, body2: &RigidBodyHandle, joint_params: JointParamsDesc) -> (r: JointHandle)
        requires
            old(self).wf(),
            old(self).spec_contains_body(*body1),
            old(self).spec_contains_body(*body2),
            old(self).spec_joints().slot_count_spec() < u32::MAX,
            old(self).spec_next_id() < u128::MAX,
        ensures
            final(self).wf(),
            r.id == old(self).spec_next_id(),
            final(self).spec_next_id() == old(self).spec_next_id() + 1,
            !old(self).spec_contains_joint(r),
            final(self).spec_contains_joint(r),
            final(self).spec_joint(r) == (Joint {
                body1: old(self).spec_body_solver(*body1),
                body2: old(self).spec_body_solver(*body2),
                params: joint_params,
            }),
            final(self).spec_joint_map()@.len() == old(self).spec_joint_map()@.len() + 1,
            forall|h2: JointHandle|
                h2 != r ==> ((#[trigger] final(self).spec_contains_joint(h2)) <==> old(
                    self,
                ).spec_contains_joint(h2)),
            forall|h2: JointHandle|
                h2 != r && old(self).spec_contains_joint(h2) ==> (#[trigger] final(self).spec_joint(
                    h2,
                )) == old(self).spec_joint(h2),
            final(self).spec_bodies() == old(self).spec_bodies(),
            final(self).spec_colliders() == old(self).spec_colliders(),
            final(self).spec_body_map() == old(self).spec_body_map(),
            final(self).spec_collider_map() == old(self).spec_collider_map(),
            final(self).same_misc(*old(self)),
            old(self).spec_joints().slot_count_spec() <= final(self).spec_joints().slot_count_spec()
                <= old(self).spec_joints().slot_count_spec() + 1,
    {
        let id = self.mint_engine_id();
        proof {
            assert(!self.spec_contains_joint(JointHandle { id }));
        }
        self.insert_joint_with_id(id, body1, body2, joint_params)
    }

    /// Inserts a joint under a caller-supplied fresh engine identifier, as
    /// the resolve stage does when it restores persisted handles.
    pub(crate) fn insert_joint_with_id(&mut self, id: u128, body1: &RigidBodyHandle, body2: &RigidBodyHandle, joint_params: JointParamsDesc) -> (r: JointHandle)
        requires
            old(self).wf(),
            old(self).spec_contains_body(*body1),
            old(self).spec_contains_body(*body2),
            old(self).spec_joints().slot_count_spec() < u32::MAX,
            !old(self).spec_contains_joint(JointHandle { id }),
            id < old(self).spec_next_id(),
        ensures
            final(self).wf(),
            r.id == id,
            final(self).spec_next_id() == old(self).spec_next_id(),
            !old(self).spec_contains_joint(r),
            final(self).spec_contains_joint(r),
            final(self).spec_joint(r) == (Joint {
                body1: old(self).spec_body_solver(*body1),
                body2: old(self).spec_body_solver(*body2),
                params: joint_params,
            }),
            final(self).spec_joint_map()@.len() == old(self).spec_joint_map()@.len() + 1,
            forall|h2: JointHandle|
                h2 != r ==> (#[trigger] final(self).spec_contains_joint(h2) <==> old(
                    self,
                ).spec_contains_joint(h2)),
            forall|h2: JointHandle|
                h2 != r && old(self).spec_contains_joint(h2) ==> #[trigger] final(self).spec_joint(
                    h2,
                ) == old(self).spec_joint(h2),
            final(self).spec_bodies() == old(self).spec_bodies(),
            final(self).spec_colliders() == old(self).spec_colliders(),
            final(self).spec_body_map() == old(self).spec_body_map(),
            final(self).spec_collider_map() == old(self).spec_collider_map(),
            final(self).same_misc(*old(self)),
            final(self).spec_joint(r).body1 == old(self).spec_body_solver(*body1),
            final(self).spec_joint(r).body2 == old(self).spec_body_solver(*body2),
            old(self).spec_joints().slot_count_spec() <= final(self).spec_joints().slot_count_spec()
                <= old(self).spec_joints().slot_count_spec() + 1,
            old(self).spec_joints().no_free_slots() ==> {
                &&& final(self).spec_joint_solver(r) == (SolverHandle {
                    index: old(self).spec_joints().slot_count_spec() as u32,
                    generation: 0,
                })
                &&& final(self).spec_joints().no_free_slots()
                &&& final(self).spec_joints().slot_count_spec() == old(
                    self,
                ).spec_joints().slot_count_spec() + 1
            },
            final(self).spec_joint_map()@ == old(self).spec_joint_map()@.push(
                crate::table::TablePair { engine: r.id, solver: final(self).spec_joint_solver(r) },
            ),
            forall|i: int|
                0 <= i < old(self).spec_joints().slot_count_spec() && i != final(self).spec_joint_solver(r).index as int ==> ((
                #[trigger] final(self).spec_joints().live_at(i)) <==> old(self).spec_joints().live_at(
                    i,
                )) && final(self).spec_joints().gen_at(i) == old(self).spec_joints().gen_at(i) && (
                old(self).spec_joints().live_at(i) ==> final(self).spec_joints().val_at(i) == old(
                    self,
                ).spec_joints().val_at(i)),
    {
        let s1 = match self.body_handle_map.value_of(body1.id) {
            Some(s) => s,
            None => unreached(),
        };
        let s2 = match self.body_handle_map.value_of(body2.id) {
            Some(s) => s,
            None => unreached(),
        };
        proof {
            self.lemma_body_lookup(*body1, s1);
            self.lemma_body_lookup(*body2, s2);
        }
        let s = self.joints.spawn(Joint { body1: s1, body2: s2, params: joint_params });
        proof {
            assert(!self.joint_handle_map.has_engine(id));
            assert(!self.joint_handle_map.has_solver(s)) by {
                if self.joint_handle_map.has_solver(s) {
                    let i = choose|i: int|
                        0 <= i < self.joint_handle_map@.len() && (
                        #[trigger] self.joint_handle_map@[i]).solver == s;
                    assert(self.joint_handle_map.maps_to(self.joint_handle_map@[i].engine, s));
                    assert(old(self).spec_joints().contains(s));
                }
            }
        }
        self.joint_handle_map.insert(id, s);
        let handle = JointHandle { id };
        proof {
            assert(self.joint_handle_map@[self.joint_handle_map@.len() - 1] == (crate::table::TablePair {
                engine: id,
                solver: s,
            }));
            assert(self.joint_handle_map.maps_to(id, s));
        }
        proof {
            self.lemma_joint_lookup(handle, s);
            let pre = *old(self);
            assert forall|h2: JointHandle| h2 != handle implies (
            #[trigger] self.spec_contains_joint(h2) <==> pre.spec_contains_joint(h2)) by {
                if pre.spec_joint_map().has_engine(h2.id) {
                    let i = choose|i: int|
                        0 <= i < pre.spec_joint_map()@.len() && (
                        #[trigger] pre.spec_joint_map()@[i]).engine == h2.id;
                    assert(self.spec_joint_map()@[i].engine == h2.id);
                }
                if self.spec_joint_map().has_engine(h2.id) {
                    let i = choose|i: int|
                        0 <= i < self.spec_joint_map()@.len() && (
                        #[trigger] self.spec_joint_map()@[i]).engine == h2.id;
                    assert(i < pre.spec_joint_map()@.len());
                    assert(pre.spec_joint_map()@[i].engine == h2.id);
                }
            }
            assert forall|h2: JointHandle|
                h2 != handle && pre.spec_contains_joint(h2) implies #[trigger] self.spec_joint(h2)
                == pre.spec_joint(h2) by {
                let sj = pre.spec_joint_solver(h2);
                let t2 = pre.spec_joint_map();
                let iw = choose|iw: int| 0 <= iw < t2@.len() && (#[trigger] t2@[iw]).engine == h2.id;
                assert(t2.maps_to(h2.id, t2@[iw].solver));
                assert(t2.maps_to(h2.id, sj));
                pre.lemma_joint_lookup(h2, sj);
                let i = choose|i: int|
                    0 <= i < pre.spec_joint_map()@.len() && (#[trigger] pre.spec_joint_map()@[i]).engine
                        == h2.id && pre.spec_joint_map()@[i].solver == sj;
                assert(self.spec_joint_map()@[i] == pre.spec_joint_map()@[i]);
                assert(self.spec_joint_map().maps_to(h2.id, sj));
                self.lemma_joint_lookup(h2, sj);
                assert(sj != s);
            }
            assert forall|i: int|
                0 <= i < self.spec_joints().slot_count_spec() && #[trigger] self.spec_joints().live_at(
                    i,
                ) implies self.spec_joint_map().has_solver(self.spec_joints().handle_of(i)) by {
                let hh = self.spec_joints().handle_of(i);
                if hh == s {
                    assert(self.spec_joint_map()@[self.spec_joint_map()@.len() - 1].solver == s);
                } else {
                    assert(pre.spec_joints().live_at(i) && pre.spec_joints().handle_of(i) == hh);
                    assert(pre.spec_joint_map().has_solver(hh));
                    let k = choose|k: int|
                        0 <= k < pre.spec_joint_map()@.len() && (
                        #[trigger] pre.spec_joint_map()@[k]).solver == hh;
                    assert(self.spec_joint_map()@[k].solver == hh);
                }
            }
            assert forall|e: u128, s2j: SolverHandle|
                #[trigger] self.spec_joint_map().maps_to(e, s2j) implies self.spec_joints().contains(
                s2j,
            ) by {
                let i = choose|i: int|
                    0 <= i < self.spec_joint_map()@.len() && (#[trigger] self.spec_joint_map()@[i]).engine
                        == e && self.spec_joint_map()@[i].solver == s2j;
                if i < pre.spec_joint_map()@.len() {
                    assert(pre.spec_joint_map().maps_to(e, s2j));
                } else {
                    assert(s2j == s);
                }
            }
        }
        handle
    }

    /// Produces a descriptor-set snapshot of the live state.  Solver handles
    /// are remapped to a dense, save-stable ordering (zero up to the entity
    /// count, by iteration order), independent of internal slot reuse, so
    /// that two successive saves without structural changes number their
    /// solver handles identically.
    pub fn generate_desc(&self) -> (r: PhysicsDesc)
        requires
            self.wf(),
        ensures
            r.integration_parameters == self.spec_integration_parameters(),
            r.gravity == self.spec_gravity(),
            r.bodies@.len() == self.spec_bodies().live_count(),
            forall|i: int|
                0 <= i < self.spec_bodies().slot_count_spec() && #[trigger] self.spec_bodies().live_at(
                    i,
                ) ==> crate::desc::body_state_eq_desc(
                    self.spec_bodies().val_at(i),
                    r.bodies@[self.spec_bodies().live_rank(i) as int],
                ),
            forall|i: int|
                0 <= i < self.spec_bodies().slot_count_spec() && #[trigger] self.spec_bodies().live_at(
                    i,
                ) ==> {
                    let db = r.bodies@[self.spec_bodies().live_rank(i) as int];
                    &&& db.colliders@.len() == self.spec_bodies().val_at(i).colliders@.len()
                    &&& forall|k: int|
                        0 <= k < db.colliders@.len() ==> self.spec_collider_map().maps_to(
                            (#[trigger] db.colliders@[k]).id,
                            self.spec_bodies().val_at(i).colliders@[k],
                        )
                },
            snapshot_of(r, *self),
            r.colliders@.len() == self.spec_colliders().live_count(),
            forall|i: int|
                0 <= i < self.spec_colliders().slot_count_spec()
                    && #[trigger] self.spec_colliders().live_at(i) ==> {
                    let d = r.colliders@[self.spec_colliders().live_rank(i) as int];
                    &&& crate::desc::collider_state_eq_desc(self.spec_colliders().val_at(i), d)
                    &&& d.shape == crate::shape::desc_of_shape(self.spec_colliders().val_at(i).shape)
                    &&& self.spec_body_map().maps_to(
                        d.parent.id,
                        self.spec_colliders().val_at(i).parent,
                    )
                },
            r.joints@.len() == self.spec_joints().live_count(),
            forall|i: int|
                0 <= i < self.spec_joints().slot_count_spec() && #[trigger] self.spec_joints().live_at(
                    i,
                ) ==> {
                    let d = r.joints@[self.spec_joints().live_rank(i) as int];
                    &&& d.params == self.spec_joints().val_at(i).params
                    &&& self.spec_body_map().maps_to(d.body1.id, self.spec_joints().val_at(i).body1)
                    &&& self.spec_body_map().maps_to(d.body2.id, self.spec_joints().val_at(i).body2)
                },
            r.body_handle_map.wf(),
            r.collider_handle_map.wf(),
            r.joint_handle_map.wf(),
            r.body_handle_map@.len() == self.spec_body_map()@.len(),
            forall|k: int|
                0 <= k < r.body_handle_map@.len() ==> (#[trigger] r.body_handle_map@[k]).engine
                    == self.spec_body_map()@[k].engine && r.body_handle_map@[k].solver
                    == (SolverHandle {
                    index: self.spec_bodies().live_rank(
                        self.spec_body_map()@[k].solver.index as int,
                    ) as u32,
                    generation: 0,
                }),
            r.collider_handle_map@.len() == self.spec_collider_map()@.len(),
            forall|k: int|
                0 <= k < r.collider_handle_map@.len() ==> (
                #[trigger] r.collider_handle_map@[k]).engine == self.spec_collider_map()@[k].engine
                    && r.collider_handle_map@[k].solver == (SolverHandle {
                    index: self.spec_colliders().live_rank(
                        self.spec_collider_map()@[k].solver.index as int,
                    ) as u32,
                    generation: 0,
                }),
            r.joint_handle_map@.len() == self.spec_joint_map()@.len(),
            forall|k: int|
                0 <= k < r.joint_handle_map@.len() ==> (#[trigger] r.joint_handle_map@[k]).engine
                    == self.spec_joint_map()@[k].engine && r.joint_handle_map@[k].solver
                    == (SolverHandle {
                    index: self.spec_joints().live_rank(
                        self.spec_joint_map()@[k].solver.index as int,
                    ) as u32,
                    generation: 0,
                }),
            crate::desc::desc_wf(r),
    {
        let nb = self.bodies.slot_count();
        let mut bodies: Vec<RigidBodyDesc> = Vec::new();
        proof {
            self.spec_bodies().lemma_live_count_base(0);
        }
        let mut i: usize = 0;
        while i < nb
            invariant
                self.wf(),
                i <= nb,
                nb == self.spec_bodies().slot_count_spec(),
                bodies@.len() == self.spec_bodies().live_count_upto(i as int),
                forall|j: int|
                    0 <= j < i && #[trigger] self.spec_bodies().live_at(j)
                        ==> crate::desc::body_state_eq_desc(
                        self.spec_bodies().val_at(j),
                        bodies@[self.spec_bodies().live_rank(j) as int],
                    ),
                forall|j: int|
                    0 <= j < i && #[trigger] self.spec_bodies().live_at(j) ==> {
                        let db = bodies@[self.spec_bodies().live_rank(j) as int];
                        &&& db.colliders@.len() == self.spec_bodies().val_at(j).colliders@.len()
                        &&& forall|k: int|
                            0 <= k < db.colliders@.len() ==> self.spec_collider_map().maps_to(
                                (#[trigger] db.colliders@[k]).id,
                                self.spec_bodies().val_at(j).colliders@[k],
                            )
                    },
            decreases nb - i,
        {
            proof {
                self.spec_bodies().lemma_rank_le(i as int);
            }
            match self.bodies.handle_at(i) {
                Some(h) => {
                    let b = match self.bodies.get(h) {
                        Some(b) => b,
                        None => unreached(),
                    };
                    proof {
                        assert forall|k: int| 0 <= k < b.colliders@.len() implies self.spec_collider_map().has_solver(
                            #[trigger] b.colliders@[k],
                        ) by {
                            assert(self.spec_bodies().val_at(i as int).colliders@[k]
                                == b.colliders@[k]);
                            assert(self.spec_colliders().contains(b.colliders@[k]));
                            let ci = b.colliders@[k].index as int;
                            assert(self.spec_colliders().live_at(ci));
                            assert(self.spec_colliders().handle_of(ci) == b.colliders@[k]);
                        }
                    }
                    let d = RigidBodyDesc::from_body(b, &self.collider_handle_map);
                    bodies.push(d);
                },
                None => {},
            }
            proof {
                self.spec_bodies().lemma_live_count_step(i + 1);
                assert forall|j: int|
                    0 <= j < i + 1 && #[trigger] self.spec_bodies().live_at(j) implies crate::desc::body_state_eq_desc(
                    self.spec_bodies().val_at(j),
                    bodies@[self.spec_bodies().live_rank(j) as int],
                ) by {
                    if j < i as int {
                        self.spec_bodies().lemma_rank_mono(j, i as int);
                    }
                }
                assert forall|j: int|
                    0 <= j < i + 1 && #[trigger] self.spec_bodies().live_at(j) implies {
                    let db = bodies@[self.spec_bodies().live_rank(j) as int];
                    &&& db.colliders@.len() == self.spec_bodies().val_at(j).colliders@.len()
                    &&& forall|k: int|
                        0 <= k < db.colliders@.len() ==> self.spec_collider_map().maps_to(
                            (#[trigger] db.colliders@[k]).id,
                            self.spec_bodies().val_at(j).colliders@[k],
                        )
                } by {
                    if j < i as int {
                        self.spec_bodies().lemma_rank_mono(j, i as int);
                    }
                }
            }
            i += 1;
        }
        let nc = self.colliders.slot_count();
        let mut colliders: Vec<ColliderDesc> = Vec::new();
        proof {
            self.spec_colliders().lemma_live_count_base(0);
        }
        let mut i2: usize = 0;
        while i2 < nc
            invariant
                self.wf(),
                i2 <= nc,
                nc == self.spec_colliders().slot_count_spec(),
                colliders@.len() == self.spec_colliders().live_count_upto(i2 as int),
                forall|j: int|
                    0 <= j < i2 && #[trigger] self.spec_colliders().live_at(j) ==> {
                        let d = colliders@[self.spec_colliders().live_rank(j) as int];
                        &&& crate::desc::collider_state_eq_desc(self.spec_colliders().val_at(j), d)
                        &&& d.shape == crate::shape::desc_of_shape(
                            self.spec_colliders().val_at(j).shape,
                        )
                        &&& self.spec_body_map().maps_to(
                            d.parent.id,
                            self.spec_colliders().val_at(j).parent,
                        )
                    },
            decreases nc - i2,
        {
            proof {
                self.spec_colliders().lemma_rank_le(i2 as int);
            }
            match self.colliders.handle_at(i2) {
                Some(h) => {
                    let c = match self.colliders.get(h) {
                        Some(c) => c,
                        None => unreached(),
                    };
                    proof {
                        assert(self.spec_colliders().live_at(i2 as int));
                        assert(self.spec_bodies().contains(c.parent));
                        assert(self.spec_bodies().live_at(c.parent.index as int));
                        assert(self.spec_bodies().handle_of(c.parent.index as int) == c.parent);
                        assert(self.spec_body_map().has_solver(c.parent));
                    }
                    let d = ColliderDesc::from_collider(c, &self.body_handle_map);
                    colliders.push(d);
                },
                None => {},
            }
            proof {
                self.spec_colliders().lemma_live_count_step(i2 + 1);
                assert forall|j: int|
                    0 <= j < i2 + 1 && #[trigger] self.spec_colliders().live_at(j) implies {
                    let d = colliders@[self.spec_colliders().live_rank(j) as int];
                    &&& crate::desc::collider_state_eq_desc(self.spec_colliders().val_at(j), d)
                    &&& d.shape == crate::shape::desc_of_shape(self.spec_colliders().val_at(j).shape)
                    &&& self.spec_body_map().maps_to(
                        d.parent.id,
                        self.spec_colliders().val_at(j).parent,
                    )
                } by {
                    if j < i2 as int {
                        self.spec_colliders().lemma_rank_mono(j, i2 as int);
                    }
                }
            }
            i2 += 1;
        }
        let nj = self.joints.slot_count();
        let mut joints: Vec<JointDesc> = Vec::new();
        proof {
            self.spec_joints().lemma_live_count_base(0);
        }
        let mut i3: usize = 0;
        while i3 < nj
            invariant
                self.wf(),
                i3 <= nj,
                nj == self.spec_joints().slot_count_spec(),
                joints@.len() == self.spec_joints().live_count_upto(i3 as int),
                forall|j: int|
                    0 <= j < i3 && #[trigger] self.spec_joints().live_at(j) ==> {
                        let d = joints@[self.spec_joints().live_rank(j) as int];
                        &&& d.params == self.spec_joints().val_at(j).params
                        &&& self.spec_body_map().maps_to(
                            d.body1.id,
                            self.spec_joints().val_at(j).body1,
                        )
                        &&& self.spec_body_map().maps_to(
                            d.body2.id,
                            self.spec_joints().val_at(j).body2,
                        )
                    },
            decreases nj - i3,
        {
            proof {
                self.spec_joints().lemma_rank_le(i3 as int);
            }
            match self.joints.handle_at(i3) {
                Some(h) => {
                    let j = match self.joints.get(h) {
                        Some(j) => j,
                        None => unreached(),
                    };
                    proof {
                        assert(self.spec_joints().live_at(i3 as int));
                        assert(self.spec_bodies().contains(j.body1));
                        assert(self.spec_bodies().live_at(j.body1.index as int));
                        assert(self.spec_bodies().handle_of(j.body1.index as int) == j.body1);
                        assert(self.spec_body_map().has_solver(j.body1));
                        assert(self.spec_bodies().contains(j.body2));
                        assert(self.spec_bodies().live_at(j.body2.index as int));
                        assert(self.spec_bodies().handle_of(j.body2.index as int) == j.body2);
                        assert(self.spec_body_map().has_solver(j.body2));
                    }
                    let d = JointDesc::from_joint(j, &self.body_handle_map);
                    joints.push(d);
                },
                None => {},
            }
            proof {
                self.spec_joints().lemma_live_count_step(i3 + 1);
                assert forall|j: int|
                    0 <= j < i3 + 1 && #[trigger] self.spec_joints().live_at(j) implies {
                    let d = joints@[self.spec_joints().live_rank(j) as int];
                    &&& d.params == self.spec_joints().val_at(j).params
                    &&& self.spec_body_map().maps_to(d.body1.id, self.spec_joints().val_at(j).body1)
                    &&& self.spec_body_map().maps_to(d.body2.id, self.spec_joints().val_at(j).body2)
                } by {
                    if j < i3 as int {
                        self.spec_joints().lemma_rank_mono(j, i3 as int);
                    }
                }
            }
            i3 += 1;
        }
        let body_handle_map = dense_remap(&self.body_handle_map, &self.bodies);
        let collider_handle_map = dense_remap(&self.collider_handle_map, &self.colliders);
        let joint_handle_map = dense_remap(&self.joint_handle_map, &self.joints);
        let r = PhysicsDesc {
            integration_parameters: self.integration_parameters,
            colliders,
            bodies,
            gravity: self.gravity,
            joints,
            body_handle_map,
            collider_handle_map,
            joint_handle_map,
        };
        proof {
            lemma_dense_table_wf(self.spec_body_map(), self.spec_bodies(), r.body_handle_map, r.bodies@.len() as int);
            lemma_dense_table_wf(
                self.spec_collider_map(),
                self.spec_colliders(),
                r.collider_handle_map,
                r.colliders@.len() as int,
            );
            lemma_dense_table_wf(self.spec_joint_map(), self.spec_joints(), r.joint_handle_map, r.joints@.len() as int);
            assert forall|k: int| 0 <= k < r.colliders@.len() implies r.body_handle_map.has_engine(
                (#[trigger] r.colliders@[k]).parent.id,
            ) by {
                self.spec_colliders().lemma_rank_surjective(
                    k,
                    self.spec_colliders().slot_count_spec() as int,
                );
                let i = choose|i: int|
                    0 <= i < self.spec_colliders().slot_count_spec()
                        && #[trigger] self.spec_colliders().live_at(i)
                        && self.spec_colliders().live_rank(i) == k;
                let pid = r.colliders@[k].parent.id;
                assert(self.spec_body_map().maps_to(pid, self.spec_colliders().val_at(i).parent));
                let iw = choose|iw: int|
                    0 <= iw < self.spec_body_map()@.len() && (#[trigger] self.spec_body_map()@[iw]).engine
                        == pid && self.spec_body_map()@[iw].solver == self.spec_colliders().val_at(
                        i,
                    ).parent;
                assert(r.body_handle_map@[iw].engine == pid);
            }
            assert forall|k: int| 0 <= k < r.joints@.len() implies r.body_handle_map.has_engine(
                (#[trigger] r.joints@[k]).body1.id,
            ) && r.body_handle_map.has_engine(r.joints@[k].body2.id) by {
                self.spec_joints().lemma_rank_surjective(
                    k,
                    self.spec_joints().slot_count_spec() as int,
                );
                let i = choose|i: int|
                    0 <= i < self.spec_joints().slot_count_spec()
                        && #[trigger] self.spec_joints().live_at(i)
                        && self.spec_joints().live_rank(i) == k;
                let b1 = r.joints@[k].body1.id;
                assert(self.spec_body_map().maps_to(b1, self.spec_joints().val_at(i).body1));
                let iw1 = choose|iw1: int|
                    0 <= iw1 < self.spec_body_map()@.len() && (
                    #[trigger] self.spec_body_map()@[iw1]).engine == b1
                        && self.spec_body_map()@[iw1].solver == self.spec_joints().val_at(i).body1;
                assert(r.body_handle_map@[iw1].engine == b1);
                let b2 = r.joints@[k].body2.id;
                assert(self.spec_body_map().maps_to(b2, self.spec_joints().val_at(i).body2));
                let iw2 = choose|iw2: int|
                    0 <= iw2 < self.spec_body_map()@.len() && (
                    #[trigger] self.spec_body_map()@[iw2]).engine == b2
                        && self.spec_body_map()@[iw2].solver == self.spec_joints().val_at(i).body2;
                assert(r.body_handle_map@[iw2].engine == b2);
            }
        }
        r
    }


    /// Builds a triangle-mesh collider shape from the baked geometry of a
    /// node subtree, welding duplicate vertices.  A subtree without any mesh
    /// geometry yields the degenerate single-point placeholder shape and
    /// exactly one warning in the log; it is never a hard error.
    pub fn make_trimesh(root: NodeHandle, graph: &SceneSnapshot, log: &mut Vec<LogEntry>) -> (r:
        TrimeshShape)
        requires
            graph.wf(),
            graph.spec_is_valid(root),
            graph.spec_node(root).triangles@.len() < 0x1000_0000,
        ensures
            graph.spec_node(root).triangles@.len() > 0 ==> crate::trimesh::is_welded_shape(
                graph.spec_node(root).triangles@,
                r,
            ) && final(log)@ == old(log)@,
            graph.spec_node(root).triangles@.len() == 0 ==> {
                &&& crate::trimesh::is_degenerate_trimesh(r)
                &&& final(log)@.len() == old(log)@.len() + 1
                &&& final(log)@.subrange(0, old(log)@.len() as int) =~= old(log)@
                &&& final(log)@.last().kind == MessageKind::Warning
                &&& final(log)@.last().node == Some(root)
            },
    {
        let node = graph.node(root);
        if node.triangles.len() == 0 {
            log.push(
                LogEntry {
                    kind: MessageKind::Warning,
                    message: no_geometry_warning(),
                    node: Some(root),
                },
            );
            let vertices = vec![Vector3::zero()];
            let triangles = vec![IndexTriangle { a: 0, b: 0, c: 0 }];
            proof {
                assert(vertices@ =~= seq![spec_zero_vector()]);
                assert(triangles@ =~= seq![IndexTriangle { a: 0, b: 0, c: 0 }]);
            }
            TrimeshShape { vertices, triangles }
        } else {
            crate::trimesh::weld_triangles(&node.triangles)
        }
    }

    /// Creates a static body placed at a node's global transform and gives
    /// it a triangle-mesh collider baked from that node's subtree.
    pub fn mesh_to_trimesh(&mut self, root: NodeHandle, graph: &SceneSnapshot, log: &mut Vec<
        LogEntry,
    >) -> (r: RigidBodyHandle)
        requires
            old(self).wf(),
            old(self).spec_bodies().slot_count_spec() < u32::MAX,
            old(self).spec_colliders().slot_count_spec() < u32::MAX,
            old(self).spec_next_id() < u128::MAX - 1,
            graph.wf(),
            graph.spec_is_valid(root),
            graph.spec_node(root).triangles@.len() < 0x1000_0000,
        ensures
            final(self).wf(),
            final(self).spec_contains_body(r),
            final(self).spec_body(r).status == BodyStatusDesc::Static,
            final(self).spec_body(r).position == graph.spec_node(root).global_position,
            final(self).spec_body(r).rotation == graph.spec_node(root).global_rotation,
            final(self).spec_body(r).colliders@.len() == 1,
            ({
                let ch = final(self).spec_body(r).colliders@[0];
                &&& final(self).spec_colliders().contains(ch)
                &&& (exists|m: TrimeshShape|
                    final(self).spec_colliders().value_of(ch).shape == ColliderShape::Trimesh(m)
                        && #[trigger] trimesh_matches_node(*graph, root, m))
                &&& final(self).spec_colliders().value_of(ch).friction == (Scalar {
                    bits: BITS_ZERO,
                })
            }),
    {
        let shape = Physics::make_trimesh(root, graph, log);
        let node = graph.node(root);
        let body = RigidBody {
            position: node.global_position,
            rotation: node.global_rotation,
            linvel: Vector3::zero(),
            angvel: Vector3::zero(),
            sleeping: false,
            status: BodyStatusDesc::Static,
            mass: Scalar::one(),
            x_rotation_locked: false,
            y_rotation_locked: false,
            z_rotation_locked: false,
            translation_locked: false,
            colliders: Vec::new(),
        };
        let handle = self.add_body(body);
        let collider = Collider {
            shape: ColliderShape::Trimesh(shape),
            parent: SolverHandle { index: 0, generation: 0 },
            friction: Scalar::zero(),
            density: None,
            restitution: Scalar::zero(),
            is_sensor: false,
            translation: Vector3::zero(),
            rotation: UnitQuaternion::identity(),
            collision_groups: u32::MAX,
            solver_groups: u32::MAX,
        };
        let ghost mesh = shape;
        let ch = self.add_collider(collider, &handle);
        proof {
            assert(trimesh_matches_node(*graph, root, mesh));
            assert(self.spec_body(handle).colliders@[0] == self.spec_collider_solver(ch));
            assert(self.spec_colliders().value_of(self.spec_collider_solver(ch))
                == self.spec_collider(ch));
            assert(self.spec_collider(ch).shape == ColliderShape::Trimesh(mesh));
        }
        handle
    }


    /// Materializes a world from its pending descriptor set: restores the
    /// translation tables' engine identifiers, creates every body, rebuilds
    /// trimesh collider geometry from the bound scene nodes, and creates the
    /// joints last.  A trimesh collider whose owning body has no valid bound
    /// node is skipped with an error in the log; the rest of the world still
    /// loads.
    #[verifier::rlimit(100)]
    pub fn resolve(&mut self, binder: &PhysicsBinder, graph: &SceneSnapshot, log: &mut Vec<LogEntry>)
        requires
            old(self).wf(),
            old(self).spec_bodies().slot_count_spec() == 0,
            old(self).spec_colliders().slot_count_spec() == 0,
            old(self).spec_joints().slot_count_spec() == 0,
            old(self).spec_bodies().no_free_slots(),
            old(self).spec_colliders().no_free_slots(),
            old(self).spec_joints().no_free_slots(),
            old(self).spec_body_map()@.len() == 0,
            old(self).spec_collider_map()@.len() == 0,
            old(self).spec_joint_map()@.len() == 0,
            (old(self).spec_desc() is Some),
            crate::desc::desc_wf(old(self).spec_desc()->Some_0),
            graph.wf(),
            binder.wf(),
            forall|i: int|
                0 <= i < graph@.len() ==> (#[trigger] graph@[i]).triangles@.len() < 0x1000_0000,
        ensures
            final(self).wf(),
            (final(self).spec_desc() is None),
            final(self).spec_gravity() == old(self).spec_gravity(),
            final(self).spec_embedded_resources() == old(self).spec_embedded_resources(),
            resolved_from(*final(self), old(self).spec_desc()->Some_0, *binder, *graph),
            forall|j: int, e: u128|
                0 <= j < old(self).spec_desc()->Some_0.colliders@.len() && #[trigger] old(
                    self,
                ).spec_desc()->Some_0.collider_handle_map.maps_to(
                    e,
                    SolverHandle { index: j as u32, generation: 0 },
                ) && collider_resolvable(old(self).spec_desc()->Some_0, *binder, *graph, j)
                    ==> final(self).spec_contains_collider(ColliderHandle { id: e }),
            forall|j: int, e: u128|
                0 <= j < old(self).spec_desc()->Some_0.colliders@.len() && #[trigger] old(
                    self,
                ).spec_desc()->Some_0.collider_handle_map.maps_to(
                    e,
                    SolverHandle { index: j as u32, generation: 0 },
                ) && final(self).spec_contains_collider(ColliderHandle { id: e }) && (old(
                    self,
                ).spec_desc()->Some_0.colliders@[j].shape is Trimesh) ==> exists|n: NodeHandle|
                    #[trigger] binder.binds(
                        n,
                        old(self).spec_desc()->Some_0.colliders@[j].parent.id,
                    ) && graph.spec_is_valid(n),
            old(log)@.is_prefix_of(final(log)@),
    {
        let d = match self.desc.take() {
            Some(d) => d,
            None => unreached(),
        };
        self.integration_parameters = d.integration_parameters;
        // Advance the minting counter past every restored identifier.
        let mut next = self.next_engine_id;
        next = raise_past(next, &d.body_handle_map);
        next = raise_past(next, &d.collider_handle_map);
        next = raise_past(next, &d.joint_handle_map);
        self.next_engine_id = next;
        proof {
            assert(self.wf());
        }
        // Bodies first.
        let nb = d.bodies.len();
        let mut k: usize = 0;
        while k < nb
            invariant
                self.wf(),
                crate::desc::desc_wf(d),
                nb == d.bodies@.len(),
                k <= nb,
                (self.spec_desc() is None),
                self.spec_gravity() == old(self).spec_gravity(),
                self.spec_embedded_resources() == old(self).spec_embedded_resources(),
                self.spec_integration_parameters() == d.integration_parameters,
                self.spec_colliders() == old(self).spec_colliders(),
                self.spec_joints() == old(self).spec_joints(),
                self.spec_collider_map()@.len() == 0,
                self.spec_joint_map()@.len() == 0,
                table_ids_below(d.body_handle_map, self.spec_next_id()),
                table_ids_below(d.collider_handle_map, self.spec_next_id()),
                table_ids_below(d.joint_handle_map, self.spec_next_id()),
                self.spec_bodies().slot_count_spec() == k,
                self.spec_bodies().no_free_slots(),
                forall|j: int|
                    0 <= j < k ==> (#[trigger] self.spec_bodies().live_at(j))
                        && self.spec_bodies().gen_at(j) == 0 && crate::desc::body_state_eq_desc(
                        self.spec_bodies().val_at(j),
                        d.bodies@[j],
                    ),
                forall|e: u128, sv: SolverHandle|
                    (#[trigger] self.spec_body_map().maps_to(e, sv)) <==> d.body_handle_map.maps_to(
                        e,
                        sv,
                    ) && sv.generation == 0 && sv.index < k,
                log@ == old(log)@,
            decreases nb - k,
        {
            let wanted = SolverHandle { index: k as u32, generation: 0 };
            let e = match d.body_handle_map.key_of(wanted) {
                Some(e) => e,
                None => unreached(),
            };
            proof {
                assert(!self.spec_contains_body(RigidBodyHandle { id: e })) by {
                    if self.spec_body_map().has_engine(e) {
                        let iw = choose|iw: int|
                            0 <= iw < self.spec_body_map()@.len() && (
                            #[trigger] self.spec_body_map()@[iw]).engine == e;
                        let sv = self.spec_body_map()@[iw].solver;
                        assert(self.spec_body_map().maps_to(e, sv));
                        assert(d.body_handle_map.maps_to(e, sv));
                        crate::table::lemma_maps_to_unique(d.body_handle_map, e, sv, wanted);
                    }
                }
                assert(e < self.spec_next_id()) by {
                    let iw = choose|iw: int|
                        0 <= iw < d.body_handle_map@.len() && (
                        #[trigger] d.body_handle_map@[iw]).engine == e && d.body_handle_map@[iw].solver
                            == wanted;
                    assert(d.body_handle_map@[iw].engine < self.spec_next_id());
                }
            }
            let body = d.bodies[k].convert_to_body();
            let ghost pre_tbl = self.spec_body_map();
            let ghost pre_map = pre_tbl@;
            let h = self.insert_body_with_id(e, body);
            proof {
                assert(self.spec_body_map()@ == pre_map.push(
                    crate::table::TablePair { engine: e, solver: SolverHandle { index: k as u32, generation: 0 } },
                ));
                assert forall|e2: u128, sv: SolverHandle|
                    (#[trigger] self.spec_body_map().maps_to(e2, sv)) implies (
                d.body_handle_map.maps_to(e2, sv) && sv.generation == 0 && sv.index < k + 1) by {
                    let iw = choose|iw: int|
                        0 <= iw < self.spec_body_map()@.len() && (
                        #[trigger] self.spec_body_map()@[iw]).engine == e2
                            && self.spec_body_map()@[iw].solver == sv;
                    if iw < pre_map.len() {
                        assert(pre_map[iw].engine == e2 && pre_map[iw].solver == sv);
                        assert(crate::table::seq_maps_to(pre_map, e2, sv));
                        assert(pre_tbl.maps_to(e2, sv));
                    } else {
                        assert(e2 == e && sv == wanted);
                    }
                }
                assert forall|e2: u128, sv: SolverHandle|
                    d.body_handle_map.maps_to(e2, sv) && sv.generation == 0 && sv.index < k + 1
                        implies #[trigger] self.spec_body_map().maps_to(e2, sv) by {
                    if sv.index < k {
                        assert(pre_tbl.maps_to(e2, sv));
                        assert(crate::table::seq_maps_to(pre_map, e2, sv));
                        let iw = choose|iw: int|
                            0 <= iw < pre_map.len() && (#[trigger] pre_map[iw]).engine == e2
                                && pre_map[iw].solver == sv;
                        assert(self.spec_body_map()@[iw].engine == e2);
                        assert(self.spec_body_map()@[iw].solver == sv);
                    } else {
                        assert(sv == wanted);
                        crate::table::lemma_solver_unique(d.body_handle_map, e2, e, wanted);
                        assert(self.spec_body_map()@[pre_map.len() as int].engine == e);
                    }
                }
                assert forall|j: int|
                    0 <= j < k + 1 implies (#[trigger] self.spec_bodies().live_at(j))
                    && self.spec_bodies().gen_at(j) == 0 && crate::desc::body_state_eq_desc(
                    self.spec_bodies().val_at(j),
                    d.bodies@[j],
                ) by {
                    if j == k as int {
                        assert(self.spec_body_solver(h) == wanted);
                        assert(self.spec_bodies().contains(wanted));
                        assert(self.spec_bodies().live_at(j));
                        assert(self.spec_bodies().val_at(j) == self.spec_body(h));
                    } else {
                        assert(self.spec_bodies().live_at(j));
                        assert(self.spec_bodies().gen_at(j) == 0);
                    }
                }
            }
            k += 1;
        }
        // Colliders next, rebuilding trimesh geometry from bound nodes.
        let nc = d.colliders.len();
        let mut k2: usize = 0;
        while k2 < nc
            invariant
                self.wf(),
                crate::desc::desc_wf(d),
                graph.wf(),
                binder.wf(),
                forall|i: int|
                    0 <= i < graph@.len() ==> (#[trigger] graph@[i]).triangles@.len()
                        < 0x1000_0000,
                nb == d.bodies@.len(),
                nc == d.colliders@.len(),
                k2 <= nc,
                (self.spec_desc() is None),
                self.spec_gravity() == old(self).spec_gravity(),
                self.spec_embedded_resources() == old(self).spec_embedded_resources(),
                self.spec_integration_parameters() == d.integration_parameters,
                self.spec_joints() == old(self).spec_joints(),
                self.spec_joint_map()@.len() == 0,
                table_ids_below(d.body_handle_map, self.spec_next_id()),
                table_ids_below(d.collider_handle_map, self.spec_next_id()),
                table_ids_below(d.joint_handle_map, self.spec_next_id()),
                self.spec_bodies().slot_count_spec() == nb,
                forall|j: int|
                    0 <= j < nb ==> (#[trigger] self.spec_bodies().live_at(j))
                        && self.spec_bodies().gen_at(j) == 0 && crate::desc::body_state_eq_desc(
                        self.spec_bodies().val_at(j),
                        d.bodies@[j],
                    ),
                forall|e: u128, sv: SolverHandle|
                    (#[trigger] self.spec_body_map().maps_to(e, sv)) <==> d.body_handle_map.maps_to(
                        e,
                        sv,
                    ) && sv.generation == 0 && sv.index < nb,
                self.spec_colliders().slot_count_spec() <= k2,
                old(log)@.is_prefix_of(log@),
                forall|e: u128, sv: SolverHandle|
                    (#[trigger] self.spec_collider_map().maps_to(e, sv)) ==> exists|j: int|
                        0 <= j < k2 && #[trigger] d.collider_handle_map.maps_to(
                            e,
                            SolverHandle { index: j as u32, generation: 0 },
                        ),
                forall|j: int, e: u128|
                    0 <= j < k2 && #[trigger] d.collider_handle_map.maps_to(
                        e,
                        SolverHandle { index: j as u32, generation: 0 },
                    ) && collider_resolvable(d, *binder, *graph, j)
                        ==> self.spec_collider_map().has_engine(e),
                forall|j: int, e: u128|
                    0 <= j < k2 && #[trigger] d.collider_handle_map.maps_to(
                        e,
                        SolverHandle { index: j as u32, generation: 0 },
                    ) && self.spec_collider_map().has_engine(e) && (d.colliders@[j].shape
                        is Trimesh) ==> exists|n: NodeHandle|
                        #[trigger] binder.binds(n, d.colliders@[j].parent.id)
                            && graph.spec_is_valid(n),
                (forall|j: int| 0 <= j < k2 ==> collider_resolvable(d, *binder, *graph, j)) ==> {
                    &&& self.spec_colliders().slot_count_spec() == k2
                    &&& self.spec_colliders().no_free_slots()
                    &&& forall|j: int|
                        0 <= j < k2 ==> (#[trigger] self.spec_colliders().live_at(j))
                            && self.spec_colliders().gen_at(j) == 0
                            && crate::desc::collider_state_eq_desc(
                            self.spec_colliders().val_at(j),
                            d.colliders@[j],
                        ) && d.body_handle_map.maps_to(
                            d.colliders@[j].parent.id,
                            self.spec_colliders().val_at(j).parent,
                        ) && (!(d.colliders@[j].shape is Trimesh)
                            ==> crate::shape::shape_matches_desc(
                            self.spec_colliders().val_at(j).shape,
                            d.colliders@[j].shape,
                        ))
                    &&& forall|e: u128, sv: SolverHandle|
                        (#[trigger] self.spec_collider_map().maps_to(e, sv))
                            <==> d.collider_handle_map.maps_to(e, sv) && sv.generation == 0
                            && sv.index < k2
                },
            decreases nc - k2,
        {
            let wanted = SolverHandle { index: k2 as u32, generation: 0 };
            let e = match d.collider_handle_map.key_of(wanted) {
                Some(e) => e,
                None => unreached(),
            };
            let cdesc = d.colliders[k2];
            proof {
                assert(d.body_handle_map.has_engine(cdesc.parent.id));
                let iw = choose|iw: int|
                    0 <= iw < d.body_handle_map@.len() && (#[trigger] d.body_handle_map@[iw]).engine
                        == cdesc.parent.id;
                let sv = d.body_handle_map@[iw].solver;
                assert(d.body_handle_map.maps_to(cdesc.parent.id, sv));
                assert(sv.generation == 0 && sv.index < nb);
                assert(self.spec_body_map().maps_to(cdesc.parent.id, sv));
                assert(self.spec_contains_body(cdesc.parent));
                assert(!self.spec_contains_collider(ColliderHandle { id: e })) by {
                    if self.spec_collider_map().has_engine(e) {
                        let iw2 = choose|iw2: int|
                            0 <= iw2 < self.spec_collider_map()@.len() && (
                            #[trigger] self.spec_collider_map()@[iw2]).engine == e;
                        let sv2 = self.spec_collider_map()@[iw2].solver;
                        assert(self.spec_collider_map().maps_to(e, sv2));
                        let j = choose|j: int|
                            0 <= j < k2 && #[trigger] d.collider_handle_map.maps_to(
                                e,
                                SolverHandle { index: j as u32, generation: 0 },
                            );
                        crate::table::lemma_maps_to_unique(
                            d.collider_handle_map,
                            e,
                            SolverHandle { index: j as u32, generation: 0 },
                            wanted,
                        );
                    }
                }
                assert(e < self.spec_next_id()) by {
                    let iw3 = choose|iw3: int|
                        0 <= iw3 < d.collider_handle_map@.len() && (
                        #[trigger] d.collider_handle_map@[iw3]).engine == e
                            && d.collider_handle_map@[iw3].solver == wanted;
                    assert(d.collider_handle_map@[iw3].engine < self.spec_next_id());
                }
            }
            let ghost pre_ctbl = self.spec_collider_map();
            let ghost pre_cmap = pre_ctbl@;
            let ghost pre_count = self.spec_colliders().slot_count_spec();
            let ghost pre_world = *self;
            let ghost psv = pre_world.spec_body_solver(cdesc.parent);
            let is_trimesh = match cdesc.shape {
                ColliderShapeDesc::Trimesh(_) => true,
                _ => false,
            };
            let build: Option<Collider> = if is_trimesh {
                match binder.node_of(cdesc.parent.id) {
                    Some(node) => {
                        if graph.is_valid_handle(node) {
                            proof {
                                let gi = choose|gi: int|
                                    0 <= gi < graph@.len() && (#[trigger] graph@[gi]).handle
                                        == node;
                                assert(graph.spec_node(node).triangles@.len() < 0x1000_0000);
                            }
                            let shape = Physics::make_trimesh(node, graph, log);
                            Some(
                                Collider {
                                    shape: ColliderShape::Trimesh(shape),
                                    parent: SolverHandle { index: 0, generation: 0 },
                                    friction: cdesc.friction,
                                    density: cdesc.density,
                                    restitution: cdesc.restitution,
                                    is_sensor: cdesc.is_sensor,
                                    translation: cdesc.translation,
                                    rotation: cdesc.rotation,
                                    collision_groups: cdesc.collision_groups,
                                    solver_groups: cdesc.solver_groups,
                                },
                            )
                        } else {
                            log.push(
                                LogEntry {
                                    kind: MessageKind::Error,
                                    message: trimesh_binding_error(),
                                    node: Some(node),
                                },
                            );
                            None
                        }
                    },
                    None => {
                        log.push(
                            LogEntry {
                                kind: MessageKind::Error,
                                message: trimesh_binding_error(),
                                node: None,
                            },
                        );
                        None
                    },
                }
            } else {
                let (collider, _) = cdesc.convert_to_collider();
                Some(collider)
            };
            match build {
                Some(collider) => {
                    proof {
                        assert(crate::desc::collider_state_eq_desc(collider, cdesc));
                        assert(!(cdesc.shape is Trimesh) ==> crate::shape::shape_matches_desc(
                            collider.shape,
                            cdesc.shape,
                        ));
                    }
                    let ghost wpre = *self;
                    let ch = self.insert_collider_with_id(e, collider, &cdesc.parent);
                    proof {
                        assert forall|j: int|
                            0 <= j < nb implies (#[trigger] self.spec_bodies().live_at(j))
                            && self.spec_bodies().gen_at(j) == 0 && crate::desc::body_state_eq_desc(
                            self.spec_bodies().val_at(j),
                            d.bodies@[j],
                        ) by {
                            assert(wpre.spec_bodies().live_at(j));
                            assert(self.spec_bodies().live_at(j));
                            assert(self.spec_bodies().gen_at(j) == wpre.spec_bodies().gen_at(j));
                            assert(crate::entities::same_body_state(
                                self.spec_bodies().val_at(j),
                                wpre.spec_bodies().val_at(j),
                            ));
                        }
                    assert forall|e2: u128, sv: SolverHandle|
                        (#[trigger] self.spec_collider_map().maps_to(e2, sv)) implies exists|j: int|
                            0 <= j < k2 + 1 && #[trigger] d.collider_handle_map.maps_to(
                                e2,
                                SolverHandle { index: j as u32, generation: 0 },
                            ) by {
                        let iw = choose|iw: int|
                            0 <= iw < self.spec_collider_map()@.len() && (
                            #[trigger] self.spec_collider_map()@[iw]).engine == e2
                                && self.spec_collider_map()@[iw].solver == sv;
                        if iw < pre_cmap.len() {
                            assert(pre_cmap[iw].engine == e2 && pre_cmap[iw].solver == sv);
                            assert(crate::table::seq_maps_to(pre_cmap, e2, sv));
                            assert(pre_ctbl.maps_to(e2, sv));
                            let j = choose|j: int|
                                0 <= j < k2 && #[trigger] d.collider_handle_map.maps_to(
                                    e2,
                                    SolverHandle { index: j as u32, generation: 0 },
                                );
                            assert(0 <= j < k2 + 1 && d.collider_handle_map.maps_to(
                                e2,
                                SolverHandle { index: j as u32, generation: 0 },
                            ));
                        } else {
                            assert(e2 == e);
                            assert(d.collider_handle_map.maps_to(
                                e,
                                SolverHandle { index: k2 as u32, generation: 0 },
                            ));
                        }
                    }
                        assert(old(log)@.is_prefix_of(log@));
                        assert(self.spec_collider_map()@[pre_cmap.len() as int].engine == e);
                        assert forall|j: int, e2: u128|
                            0 <= j < k2 + 1 && #[trigger] d.collider_handle_map.maps_to(
                                e2,
                                SolverHandle { index: j as u32, generation: 0 },
                            ) && collider_resolvable(d, *binder, *graph, j)
                                implies self.spec_collider_map().has_engine(e2) by {
                            if j == k2 as int {
                                crate::table::lemma_solver_unique(
                                    d.collider_handle_map,
                                    e2,
                                    e,
                                    SolverHandle { index: j as u32, generation: 0 },
                                );
                            } else {
                                assert(pre_ctbl.has_engine(e2));
                                let iw = choose|iw: int|
                                    0 <= iw < pre_cmap.len() && (#[trigger] pre_cmap[iw]).engine
                                        == e2;
                                assert(self.spec_collider_map()@[iw].engine == e2);
                            }
                        }
                        assert forall|j: int, e2: u128|
                            0 <= j < k2 + 1 && #[trigger] d.collider_handle_map.maps_to(
                                e2,
                                SolverHandle { index: j as u32, generation: 0 },
                            ) && self.spec_collider_map().has_engine(e2) && (d.colliders@[j].shape
                                is Trimesh) implies exists|n: NodeHandle|
                            #[trigger] binder.binds(n, d.colliders@[j].parent.id)
                                && graph.spec_is_valid(n) by {
                            if j < k2 as int {
                                let iw = choose|iw: int|
                                    0 <= iw < self.spec_collider_map()@.len() && (
                                    #[trigger] self.spec_collider_map()@[iw]).engine == e2;
                                if iw < pre_cmap.len() {
                                    assert(pre_cmap[iw].engine == e2);
                                    assert(pre_ctbl.has_engine(e2));
                                } else {
                                    assert(e2 == e);
                                    crate::table::lemma_maps_to_unique(
                                        d.collider_handle_map,
                                        e2,
                                        SolverHandle { index: j as u32, generation: 0 },
                                        wanted,
                                    );
                                }
                            } else {
                                crate::table::lemma_solver_unique(
                                    d.collider_handle_map,
                                    e2,
                                    e,
                                    SolverHandle { index: j as u32, generation: 0 },
                                );
                            }
                        }
                        if forall|j: int|
                            0 <= j < k2 + 1 ==> collider_resolvable(d, *binder, *graph, j) {
                            assert(forall|j: int|
                                0 <= j < k2 ==> collider_resolvable(d, *binder, *graph, j));
                            assert(pre_count == k2);
                            assert(pre_world.spec_colliders().no_free_slots());
                            assert(self.spec_collider_solver(ch) == (SolverHandle {
                                index: k2 as u32,
                                generation: 0,
                            }));
                            assert(self.spec_colliders().slot_count_spec() == k2 + 1);
                            assert(self.spec_colliders().no_free_slots());
                            assert(pre_world.spec_body_map().maps_to(cdesc.parent.id, psv));
                            assert(d.body_handle_map.maps_to(cdesc.parent.id, psv));
                            assert forall|j: int| 0 <= j < k2 + 1 implies (
                            #[trigger] self.spec_colliders().live_at(j))
                                && self.spec_colliders().gen_at(j) == 0
                                && crate::desc::collider_state_eq_desc(
                                self.spec_colliders().val_at(j),
                                d.colliders@[j],
                            ) && d.body_handle_map.maps_to(
                                d.colliders@[j].parent.id,
                                self.spec_colliders().val_at(j).parent,
                            ) && (!(d.colliders@[j].shape is Trimesh)
                                ==> crate::shape::shape_matches_desc(
                                self.spec_colliders().val_at(j).shape,
                                d.colliders@[j].shape,
                            )) by {
                                if j < k2 {
                                    assert(pre_world.spec_colliders().live_at(j));
                                    assert(self.spec_colliders().live_at(j));
                                    assert(self.spec_colliders().val_at(j)
                                        == pre_world.spec_colliders().val_at(j));
                                } else {
                                    assert(self.spec_collider_map()@[pre_cmap.len() as int]
                                        == (crate::table::TablePair {
                                        engine: e,
                                        solver: SolverHandle { index: k2 as u32, generation: 0 },
                                    }));
                                    assert(self.spec_collider_map().maps_to(
                                        e,
                                        SolverHandle { index: k2 as u32, generation: 0 },
                                    ));
                                    assert(self.spec_colliders().contains(
                                        SolverHandle { index: k2 as u32, generation: 0 },
                                    ));
                                    assert(self.spec_colliders().live_at(j));
                                    assert(self.spec_colliders().val_at(j) == self.spec_collider(
                                        ch,
                                    ));
                                    assert(self.spec_collider(ch) == (Collider {
                                        parent: psv,
                                        ..collider
                                    }));
                                }
                            }
                            assert forall|e2: u128, sv: SolverHandle|
                                (#[trigger] self.spec_collider_map().maps_to(e2, sv)) implies (
                            d.collider_handle_map.maps_to(e2, sv) && sv.generation == 0 && sv.index
                                < k2 + 1) by {
                                let iw = choose|iw: int|
                                    0 <= iw < self.spec_collider_map()@.len() && (
                                    #[trigger] self.spec_collider_map()@[iw]).engine == e2
                                        && self.spec_collider_map()@[iw].solver == sv;
                                if iw < pre_cmap.len() {
                                    assert(pre_cmap[iw].engine == e2 && pre_cmap[iw].solver == sv);
                                    assert(crate::table::seq_maps_to(pre_cmap, e2, sv));
                                    assert(pre_ctbl.maps_to(e2, sv));
                                } else {
                                    assert(e2 == e && sv == (SolverHandle {
                                        index: k2 as u32,
                                        generation: 0,
                                    }));
                                }
                            }
                            assert forall|e2: u128, sv: SolverHandle|
                                d.collider_handle_map.maps_to(e2, sv) && sv.generation == 0
                                    && sv.index < k2 + 1 implies (
                            #[trigger] self.spec_collider_map().maps_to(e2, sv)) by {
                                if sv.index < k2 {
                                    assert(pre_ctbl.maps_to(e2, sv));
                                    assert(crate::table::seq_maps_to(pre_cmap, e2, sv));
                                    let iw = choose|iw: int|
                                        0 <= iw < pre_cmap.len() && (#[trigger] pre_cmap[iw]).engine
                                            == e2 && pre_cmap[iw].solver == sv;
                                    assert(self.spec_collider_map()@[iw].engine == e2);
                                    assert(self.spec_collider_map()@[iw].solver == sv);
                                } else {
                                    assert(sv == (SolverHandle {
                                        index: k2 as u32,
                                        generation: 0,
                                    }));
                                    crate::table::lemma_solver_unique(
                                        d.collider_handle_map,
                                        e2,
                                        e,
                                        sv,
                                    );
                                    assert(self.spec_collider_map()@[pre_cmap.len() as int].engine
                                        == e);
                                    assert(self.spec_collider_map()@[pre_cmap.len() as int].solver
                                        == sv);
                                }
                            }
                        }
                    }
                },
                None => {
                    proof {
                        assert(!collider_resolvable(d, *binder, *graph, k2 as int));
                        assert(old(log)@.is_prefix_of(log@));
                        assert forall|j: int, e2: u128|
                            0 <= j < k2 + 1 && #[trigger] d.collider_handle_map.maps_to(
                                e2,
                                SolverHandle { index: j as u32, generation: 0 },
                            ) && self.spec_collider_map().has_engine(e2) && (d.colliders@[j].shape
                                is Trimesh) implies exists|n: NodeHandle|
                            #[trigger] binder.binds(n, d.colliders@[j].parent.id)
                                && graph.spec_is_valid(n) by {
                            if j == k2 as int {
                                let iw = choose|iw: int|
                                    0 <= iw < self.spec_collider_map()@.len() && (
                                    #[trigger] self.spec_collider_map()@[iw]).engine == e2;
                                let sv = self.spec_collider_map()@[iw].solver;
                                assert(self.spec_collider_map().maps_to(e2, sv));
                                let j2 = choose|j2: int|
                                    0 <= j2 < k2 && #[trigger] d.collider_handle_map.maps_to(
                                        e2,
                                        SolverHandle { index: j2 as u32, generation: 0 },
                                    );
                                crate::table::lemma_maps_to_unique(
                                    d.collider_handle_map,
                                    e2,
                                    SolverHandle { index: j2 as u32, generation: 0 },
                                    SolverHandle { index: j as u32, generation: 0 },
                                );
                            }
                        }
                    }
                },
            }
            k2 += 1;
        }
        // Joints last, after every body exists.
        let ghost cpool_snap = self.spec_colliders();
        let ghost cmap_snap = self.spec_collider_map();
        let nj = d.joints.len();
        let mut k3: usize = 0;
        while k3 < nj
            invariant
                self.wf(),
                crate::desc::desc_wf(d),
                nb == d.bodies@.len(),
                nj == d.joints@.len(),
                k3 <= nj,
                (self.spec_desc() is None),
                self.spec_gravity() == old(self).spec_gravity(),
                self.spec_embedded_resources() == old(self).spec_embedded_resources(),
                self.spec_integration_parameters() == d.integration_parameters,
                self.spec_colliders() == cpool_snap,
                self.spec_collider_map() == cmap_snap,
                nc == d.colliders@.len(),
                old(log)@.is_prefix_of(log@),
                forall|j: int, e: u128|
                    0 <= j < nc && #[trigger] d.collider_handle_map.maps_to(
                        e,
                        SolverHandle { index: j as u32, generation: 0 },
                    ) && collider_resolvable(d, *binder, *graph, j) ==> cmap_snap.has_engine(e),
                forall|j: int, e: u128|
                    0 <= j < nc && #[trigger] d.collider_handle_map.maps_to(
                        e,
                        SolverHandle { index: j as u32, generation: 0 },
                    ) && cmap_snap.has_engine(e) && (d.colliders@[j].shape is Trimesh) ==> exists|
                        n: NodeHandle,
                    |
                        #[trigger] binder.binds(n, d.colliders@[j].parent.id)
                            && graph.spec_is_valid(n),
                table_ids_below(d.body_handle_map, self.spec_next_id()),
                table_ids_below(d.joint_handle_map, self.spec_next_id()),
                self.spec_bodies().slot_count_spec() == nb,
                forall|j: int|
                    0 <= j < nb ==> (#[trigger] self.spec_bodies().live_at(j))
                        && self.spec_bodies().gen_at(j) == 0 && crate::desc::body_state_eq_desc(
                        self.spec_bodies().val_at(j),
                        d.bodies@[j],
                    ),
                forall|e: u128, sv: SolverHandle|
                    (#[trigger] self.spec_body_map().maps_to(e, sv)) <==> d.body_handle_map.maps_to(
                        e,
                        sv,
                    ) && sv.generation == 0 && sv.index < nb,
                self.spec_joints().slot_count_spec() == k3,
                self.spec_joints().no_free_slots(),
                forall|m: int|
                    0 <= m < k3 ==> (#[trigger] self.spec_joints().live_at(m))
                        && self.spec_joints().gen_at(m) == 0 && self.spec_joints().val_at(m).params
                        == d.joints@[m].params && d.body_handle_map.maps_to(
                        d.joints@[m].body1.id,
                        self.spec_joints().val_at(m).body1,
                    ) && d.body_handle_map.maps_to(
                        d.joints@[m].body2.id,
                        self.spec_joints().val_at(m).body2,
                    ),
                forall|e: u128, sv: SolverHandle|
                    (#[trigger] self.spec_joint_map().maps_to(e, sv)) <==> d.joint_handle_map.maps_to(
                        e,
                        sv,
                    ) && sv.generation == 0 && sv.index < k3,
            decreases nj - k3,
        {
            let wanted = SolverHandle { index: k3 as u32, generation: 0 };
            let e = match d.joint_handle_map.key_of(wanted) {
                Some(e) => e,
                None => unreached(),
            };
            let jdesc = d.joints[k3];
            proof {
                assert(d.body_handle_map.has_engine(jdesc.body1.id));
                assert(d.body_handle_map.has_engine(jdesc.body2.id));
                let i1 = choose|i1: int|
                    0 <= i1 < d.body_handle_map@.len() && (#[trigger] d.body_handle_map@[i1]).engine
                        == jdesc.body1.id;
                assert(d.body_handle_map.maps_to(jdesc.body1.id, d.body_handle_map@[i1].solver));
                assert(self.spec_body_map().maps_to(
                    jdesc.body1.id,
                    d.body_handle_map@[i1].solver,
                ));
                assert(self.spec_contains_body(jdesc.body1));
                let i2 = choose|i2: int|
                    0 <= i2 < d.body_handle_map@.len() && (#[trigger] d.body_handle_map@[i2]).engine
                        == jdesc.body2.id;
                assert(d.body_handle_map.maps_to(jdesc.body2.id, d.body_handle_map@[i2].solver));
                assert(self.spec_body_map().maps_to(
                    jdesc.body2.id,
                    d.body_handle_map@[i2].solver,
                ));
                assert(self.spec_contains_body(jdesc.body2));
                assert(!self.spec_contains_joint(JointHandle { id: e })) by {
                    if self.spec_joint_map().has_engine(e) {
                        let iw2 = choose|iw2: int|
                            0 <= iw2 < self.spec_joint_map()@.len() && (
                            #[trigger] self.spec_joint_map()@[iw2]).engine == e;
                        let sv2 = self.spec_joint_map()@[iw2].solver;
                        assert(self.spec_joint_map().maps_to(e, sv2));
                        assert(d.joint_handle_map.maps_to(e, sv2) && sv2.index < k3);
                        crate::table::lemma_maps_to_unique(d.joint_handle_map, e, sv2, wanted);
                    }
                }
                assert(e < self.spec_next_id()) by {
                    let iw3 = choose|iw3: int|
                        0 <= iw3 < d.joint_handle_map@.len() && (
                        #[trigger] d.joint_handle_map@[iw3]).engine == e
                            && d.joint_handle_map@[iw3].solver == wanted;
                    assert(d.joint_handle_map@[iw3].engine < self.spec_next_id());
                }
            }
            let ghost pre_jtbl = self.spec_joint_map();
            let ghost pre_jmap = pre_jtbl@;
            let ghost pw = *self;
            let ghost s1g = pw.spec_body_solver(jdesc.body1);
            let ghost s2g = pw.spec_body_solver(jdesc.body2);
            proof {
                assert(pw.spec_body_map().maps_to(jdesc.body1.id, s1g));
                assert(pw.spec_body_map().maps_to(jdesc.body2.id, s2g));
                assert(d.body_handle_map.maps_to(jdesc.body1.id, s1g));
                assert(d.body_handle_map.maps_to(jdesc.body2.id, s2g));
            }
            let h = self.insert_joint_with_id(e, &jdesc.body1, &jdesc.body2, jdesc.params);
            proof {
                assert(self.spec_joint_map()@[pre_jmap.len() as int] == (crate::table::TablePair {
                    engine: e,
                    solver: SolverHandle { index: k3 as u32, generation: 0 },
                }));
                assert(self.spec_joint_map().maps_to(
                    e,
                    SolverHandle { index: k3 as u32, generation: 0 },
                ));
                assert(self.spec_joints().contains(
                    SolverHandle { index: k3 as u32, generation: 0 },
                ));
                assert forall|m: int| 0 <= m < k3 + 1 implies (
                #[trigger] self.spec_joints().live_at(m)) && self.spec_joints().gen_at(m) == 0
                    && self.spec_joints().val_at(m).params == d.joints@[m].params
                    && d.body_handle_map.maps_to(
                    d.joints@[m].body1.id,
                    self.spec_joints().val_at(m).body1,
                ) && d.body_handle_map.maps_to(
                    d.joints@[m].body2.id,
                    self.spec_joints().val_at(m).body2,
                ) by {
                    if m < k3 {
                        assert(pw.spec_joints().live_at(m));
                        assert(self.spec_joints().live_at(m));
                        assert(self.spec_joints().val_at(m) == pw.spec_joints().val_at(m));
                    } else {
                        assert(self.spec_joints().live_at(m));
                        assert(self.spec_joint_solver(h) == (SolverHandle {
                            index: k3 as u32,
                            generation: 0,
                        }));
                        assert(self.spec_joints().val_at(m) == self.spec_joint(h));
                        assert(self.spec_joint(h).body1 == s1g);
                        assert(self.spec_joint(h).body2 == s2g);
                        assert(self.spec_joint(h).params == jdesc.params);
                    }
                }
                assert forall|e2: u128, sv: SolverHandle|
                    (#[trigger] self.spec_joint_map().maps_to(e2, sv)) implies (
                d.joint_handle_map.maps_to(e2, sv) && sv.generation == 0 && sv.index < k3 + 1) by {
                    let iw = choose|iw: int|
                        0 <= iw < self.spec_joint_map()@.len() && (
                        #[trigger] self.spec_joint_map()@[iw]).engine == e2
                            && self.spec_joint_map()@[iw].solver == sv;
                    if iw < pre_jmap.len() {
                        assert(pre_jmap[iw].engine == e2 && pre_jmap[iw].solver == sv);
                        assert(crate::table::seq_maps_to(pre_jmap, e2, sv));
                        assert(pre_jtbl.maps_to(e2, sv));
                    } else {
                        assert(e2 == e && sv == wanted);
                    }
                }
                assert forall|e2: u128, sv: SolverHandle|
                    d.joint_handle_map.maps_to(e2, sv) && sv.generation == 0 && sv.index < k3 + 1
                        implies #[trigger] self.spec_joint_map().maps_to(e2, sv) by {
                    if sv.index < k3 {
                        assert(pre_jtbl.maps_to(e2, sv));
                        assert(crate::table::seq_maps_to(pre_jmap, e2, sv));
                        let iw = choose|iw: int|
                            0 <= iw < pre_jmap.len() && (#[trigger] pre_jmap[iw]).engine == e2
                                && pre_jmap[iw].solver == sv;
                        assert(self.spec_joint_map()@[iw].engine == e2);
                        assert(self.spec_joint_map()@[iw].solver == sv);
                    } else {
                        assert(sv == wanted);
                        crate::table::lemma_solver_unique(d.joint_handle_map, e2, e, wanted);
                        assert(self.spec_joint_map()@[pre_jmap.len() as int].engine == e);
                    }
                }
            }
            k3 += 1;
        }
        proof {
            let dd = old(self).spec_desc()->Some_0;
            assert forall|e: u128, sv: SolverHandle|
                d.body_handle_map.maps_to(e, sv) implies (
            #[trigger] self.spec_body_map().maps_to(e, sv)) by {
                let iw = choose|iw: int|
                    0 <= iw < d.body_handle_map@.len() && (#[trigger] d.body_handle_map@[iw]).engine
                        == e && d.body_handle_map@[iw].solver == sv;
                assert(sv.generation == 0 && sv.index < nb);
            }
            assert forall|e: u128, sv: SolverHandle|
                d.joint_handle_map.maps_to(e, sv) implies (
            #[trigger] self.spec_joint_map().maps_to(e, sv)) by {
                let iw = choose|iw: int|
                    0 <= iw < d.joint_handle_map@.len() && (#[trigger] d.joint_handle_map@[iw]).engine
                        == e && d.joint_handle_map@[iw].solver == sv;
                assert(sv.generation == 0 && sv.index < nj);
            }
            if forall|j: int| 0 <= j < nc ==> collider_resolvable(d, *binder, *graph, j) {
                assert forall|e: u128, sv: SolverHandle|
                    d.collider_handle_map.maps_to(e, sv) implies (
                #[trigger] self.spec_collider_map().maps_to(e, sv)) by {
                    let iw = choose|iw: int|
                        0 <= iw < d.collider_handle_map@.len() && (
                        #[trigger] d.collider_handle_map@[iw]).engine == e
                            && d.collider_handle_map@[iw].solver == sv;
                    assert(sv.generation == 0 && sv.index < nc);
                }
            }
            lemma_resolved_assemble(*self, d, *binder, *graph);
        }
    }


    /// Whether two packed interaction-group words are compatible: the high
    /// sixteen bits are memberships, the low sixteen the filter, and each
    /// side's memberships must meet the other side's filter.
    pub fn groups_match(a: u32, b: u32) -> (r: bool)
        ensures
            r == spec_groups_match(a, b),
    {
        (a >> 16) & (b & 0xFFFF) != 0 && (b >> 16) & (a & 0xFFFF) != 0
    }

    /// Casts a ray: takes the raw intersections the external solver found
    /// against its freshly rebuilt acceleration structure, keeps the hits
    /// whose colliders match the requested interaction-group mask and lie
    /// within the requested length, rekeys them to stable engine handles,
    /// sorts them from closest to farthest when asked to, and delivers them
    /// to the result sink in that order until the sink refuses one.  The
    /// number delivered is returned; a full fixed-capacity sink is
    /// reported this way, never fatal.
    pub fn cast_ray<S: QueryResultsStorage>(
        &self,
        opts: RayCastOptions,
        raw_hits: &Vec<RawIntersection>,
        query_buffer: &mut S,
    ) -> (delivered: usize)
        requires
            self.wf(),
            forall|i: int|
                0 <= i < raw_hits@.len() ==> self.spec_collider_map().has_solver(
                    (#[trigger] raw_hits@[i]).collider,
                ),
        ensures
            ({
                let kept = crate::ray::spec_kept_hits(
                    spec_group_kept(*self, raw_hits@, opts.groups),
                    opts.max_len.bits,
                );
                let trans = kept.map_values(
                    |h: RawIntersection| crate::ray::spec_translated(self.spec_collider_map(), h),
                );
                &&& delivered <= trans.len()
                &&& final(query_buffer).items().len() == delivered
                &&& exists|res: Seq<crate::ray::Intersection>|
                    {
                        &&& res.len() == trans.len()
                        &&& res.to_multiset() == trans.to_multiset()
                        &&& (!opts.sort_results ==> res == trans)
                        &&& (opts.sort_results ==> forall|a: int, b: int|
                            0 <= a < b < res.len() ==> (#[trigger] res[a]).toi.bits <= (
                            #[trigger] res[b]).toi.bits)
                        &&& final(query_buffer).items() == res.take(delivered as int)
                    }
            }),
            forall|k: int|
                0 <= k < final(query_buffer).items().len() ==> (#[trigger] final(query_buffer).items()[k]).toi.bits <= opts.max_len.bits,
            opts.sort_results ==> forall|a: int, b: int|
                0 <= a < b < final(query_buffer).items().len() ==> (#[trigger] final(query_buffer).items()[a]).toi.bits <= (#[trigger] final(query_buffer).items()[b]).toi.bits,
    {
        query_buffer.clear();
        // Keep only the hits whose collider matches the interaction-group
        // mask; the solver over-collects and this layer decides.
        let nraw = raw_hits.len();
        let mut masked: Vec<RawIntersection> = Vec::new();
        proof {
            assert(masked@ =~= spec_group_kept_upto(*self, raw_hits@, opts.groups, 0));
        }
        let mut i: usize = 0;
        while i < nraw
            invariant
                i <= nraw,
                nraw == raw_hits@.len(),
                self.wf(),
                forall|j: int|
                    0 <= j < raw_hits@.len() ==> self.spec_collider_map().has_solver(
                        (#[trigger] raw_hits@[j]).collider,
                    ),
                masked@ == spec_group_kept_upto(*self, raw_hits@, opts.groups, i as int),
                forall|j: int|
                    0 <= j < masked@.len() ==> self.spec_collider_map().has_solver(
                        (#[trigger] masked@[j]).collider,
                    ),
            decreases nraw - i,
        {
            let h = raw_hits[i];
            proof {
                let t = self.spec_collider_map();
                let iw = choose|iw: int|
                    0 <= iw < t@.len() && (#[trigger] t@[iw]).solver == h.collider;
                assert(t.maps_to(t@[iw].engine, h.collider));
                assert(self.spec_colliders().contains(h.collider));
            }
            let c = match self.colliders.get(h.collider) {
                Some(c) => c,
                None => unreached(),
            };
            if Self::groups_match(opts.groups, c.collision_groups) {
                masked.push(h);
            }
            proof {
                let cur = raw_hits@.take(i + 1);
                assert(cur.drop_last() =~= raw_hits@.take(i as int));
                assert(cur.last() == raw_hits@[i as int]);
                assert(masked@ =~= spec_group_kept_upto(*self, raw_hits@, opts.groups, i + 1));
            }
            i += 1;
        }
        proof {
            assert(raw_hits@.take(nraw as int) =~= raw_hits@);
            assert(masked@ == spec_group_kept(*self, raw_hits@, opts.groups));
        }
        let results = crate::ray::collect_intersections(
            &self.collider_handle_map,
            &masked,
            opts.max_len,
            opts.sort_results,
        );
        // Deliver in order until the sink refuses a result.
        let n = results.len();
        let mut delivered: usize = 0;
        while delivered < n
            invariant
                delivered <= n,
                n == results@.len(),
                query_buffer.items() == results@.take(delivered as int),
            decreases n - delivered,
        {
            let hit = results[delivered];
            let accepted = query_buffer.push(hit);
            if !accepted {
                proof {
                    assert(query_buffer.items() =~= results@.take(delivered as int));
                }
                break ;
            }
            proof {
                assert(query_buffer.items() =~= results@.take(delivered + 1));
            }
            delivered += 1;
        }
        proof {
            assert(query_buffer.items() == results@.take(delivered as int));
            assert forall|k: int| 0 <= k < query_buffer.items().len() implies (
            #[trigger] query_buffer.items()[k]).toi.bits <= opts.max_len.bits by {
                assert(query_buffer.items()[k] == results@[k]);
            }
            if opts.sort_results {
                assert forall|a: int, b: int|
                    0 <= a < b < query_buffer.items().len() implies (
                #[trigger] query_buffer.items()[a]).toi.bits <= (
                #[trigger] query_buffer.items()[b]).toi.bits by {
                    assert(query_buffer.items()[a] == results@[a]);
                    assert(query_buffer.items()[b] == results@[b]);
                }
            }
        }
        delivered
    }


    /// Writes the integrated dynamic state back into a body, as the solver
    /// bridge does after a step.  Everything else about the body, its
    /// collider list included, stays as it was; an unknown handle changes
    /// nothing and is reported.
    pub fn update_body_state(
        &mut self,
        handle: &RigidBodyHandle,
        position: Vector3,
        rotation: UnitQuaternion,
        linvel: Vector3,
        angvel: Vector3,
        sleeping: bool,
    ) -> (r: bool)
        requires
            old(self).wf(),
        ensures
            final(self).wf(),
            r == old(self).spec_contains_body(*handle),
            !r ==> *final(self) == *old(self),
            r ==> final(self).spec_body(*handle) == (RigidBody {
                position,
                rotation,
                linvel,
                angvel,
                sleeping,
                ..old(self).spec_body(*handle)
            }),
            forall|h2: RigidBodyHandle|
                (#[trigger] final(self).spec_contains_body(h2)) <==> old(self).spec_contains_body(
                    h2,
                ),
            forall|h2: RigidBodyHandle|
                h2 != *handle && old(self).spec_contains_body(h2) ==> (
                #[trigger] final(self).spec_body(h2)) == old(self).spec_body(h2),
            final(self).spec_colliders() == old(self).spec_colliders(),
            final(self).spec_joints() == old(self).spec_joints(),
            final(self).spec_body_map() == old(self).spec_body_map(),
            final(self).spec_collider_map() == old(self).spec_collider_map(),
            final(self).spec_joint_map() == old(self).spec_joint_map(),
            final(self).spec_next_id() == old(self).spec_next_id(),
            final(self).same_misc(*old(self)),
    {
        let s = match self.body_handle_map.value_of(handle.id) {
            Some(s) => s,
            None => {
                return false;
            },
        };
        proof {
            old(self).lemma_body_lookup(*handle, s);
            assert(old(self).spec_bodies().contains(s));
        }
        let b = self.bodies.borrow_mut(s);
        b.position = position;
        b.rotation = rotation;
        b.linvel = linvel;
        b.angvel = angvel;
        b.sleeping = sleeping;
        proof {
            let pre = *old(self);
            self.lemma_body_lookup(*handle, s);
            assert forall|h2: RigidBodyHandle|
                h2 != *handle && pre.spec_contains_body(h2) implies (#[trigger] self.spec_body(h2))
                == pre.spec_body(h2) by {
                let t = pre.spec_body_map();
                let iw = choose|iw: int| 0 <= iw < t@.len() && (#[trigger] t@[iw]).engine == h2.id;
                assert(t.maps_to(h2.id, t@[iw].solver));
                let s2 = pre.spec_body_solver(h2);
                assert(t.maps_to(h2.id, s2));
                pre.lemma_body_lookup(h2, s2);
                self.lemma_body_lookup(h2, s2);
                if s2 == s {
                    crate::table::lemma_solver_unique(t, h2.id, handle.id, s);
                }
                assert(pre.spec_bodies().contains(s2));
            }
            assert(self.body_collider_lists_wf()) by {
                assert forall|i: int, k: int|
                    0 <= i < self.spec_bodies().slot_count_spec() && self.spec_bodies().live_at(i)
                        && 0 <= k < self.spec_bodies().val_at(i).colliders@.len() implies {
                    let ch = #[trigger] self.spec_bodies().val_at(i).colliders@[k];
                    &&& self.spec_colliders().contains(ch)
                    &&& self.spec_colliders().value_of(ch).parent == self.spec_bodies().handle_of(i)
                } by {
                    let ch = self.spec_bodies().val_at(i).colliders@[k];
                    if i == s.index as int {
                        assert(self.spec_bodies().val_at(i).colliders@
                            == pre.spec_bodies().val_at(i).colliders@);
                        assert(pre.spec_bodies().val_at(i).colliders@[k] == ch);
                        assert(pre.spec_colliders().contains(ch));
                        assert(pre.spec_bodies().handle_of(i) == self.spec_bodies().handle_of(i));
                    } else {
                        assert(pre.spec_bodies().val_at(i) == self.spec_bodies().val_at(i));
                        assert(pre.spec_colliders().contains(ch));
                    }
                }
            }
        }
        true
    }

    /// Adjusts a collider's material and filtering parameters, as the host
    /// editor does.  Shape, placement and ownership stay as they were; an
    /// unknown handle changes nothing and is reported.
    pub fn update_collider_material(
        &mut self,
        handle: &ColliderHandle,
        friction: Scalar,
        restitution: Scalar,
        is_sensor: bool,
        collision_groups: u32,
        solver_groups: u32,
    ) -> (r: bool)
        requires
            old(self).wf(),
        ensures
            final(self).wf(),
            r == old(self).spec_contains_collider(*handle),
            !r ==> *final(self) == *old(self),
            r ==> final(self).spec_collider(*handle) == (Collider {
                friction,
                restitution,
                is_sensor,
                collision_groups,
                solver_groups,
                ..old(self).spec_collider(*handle)
            }),
            forall|h2: ColliderHandle|
                (#[trigger] final(self).spec_contains_collider(h2)) <==> old(
                    self,
                ).spec_contains_collider(h2),
            forall|h2: ColliderHandle|
                h2 != *handle && old(self).spec_contains_collider(h2) ==> (
                #[trigger] final(self).spec_collider(h2)) == old(self).spec_collider(h2),
            final(self).spec_bodies() == old(self).spec_bodies(),
            final(self).spec_joints() == old(self).spec_joints(),
            final(self).spec_body_map() == old(self).spec_body_map(),
            final(self).spec_collider_map() == old(self).spec_collider_map(),
            final(self).spec_joint_map() == old(self).spec_joint_map(),
            final(self).spec_next_id() == old(self).spec_next_id(),
            final(self).same_misc(*old(self)),
    {
        let s = match self.collider_handle_map.value_of(handle.id) {
            Some(s) => s,
            None => {
                return false;
            },
        };
        proof {
            old(self).lemma_collider_lookup(*handle, s);
            assert(old(self).spec_colliders().contains(s));
        }
        let c = self.colliders.borrow_mut(s);
        c.friction = friction;
        c.restitution = restitution;
        c.is_sensor = is_sensor;
        c.collision_groups = collision_groups;
        c.solver_groups = solver_groups;
        proof {
            let pre = *old(self);
            self.lemma_collider_lookup(*handle, s);
            assert forall|h2: ColliderHandle|
                h2 != *handle && pre.spec_contains_collider(h2) implies (
            #[trigger] self.spec_collider(h2)) == pre.spec_collider(h2) by {
                let t = pre.spec_collider_map();
                let iw = choose|iw: int| 0 <= iw < t@.len() && (#[trigger] t@[iw]).engine == h2.id;
                assert(t.maps_to(h2.id, t@[iw].solver));
                let s2 = pre.spec_collider_solver(h2);
                assert(t.maps_to(h2.id, s2));
                pre.lemma_collider_lookup(h2, s2);
                self.lemma_collider_lookup(h2, s2);
                if s2 == s {
                    crate::table::lemma_solver_unique(t, h2.id, handle.id, s);
                }
                assert(pre.spec_colliders().contains(s2));
            }
            assert(self.body_collider_lists_wf()) by {
                assert forall|i: int, k: int|
                    0 <= i < self.spec_bodies().slot_count_spec() && self.spec_bodies().live_at(i)
                        && 0 <= k < self.spec_bodies().val_at(i).colliders@.len() implies {
                    let ch = #[trigger] self.spec_bodies().val_at(i).colliders@[k];
                    &&& self.spec_colliders().contains(ch)
                    &&& self.spec_colliders().value_of(ch).parent == self.spec_bodies().handle_of(i)
                } by {
                    let ch = self.spec_bodies().val_at(i).colliders@[k];
                    assert(pre.spec_colliders().contains(ch));
                    assert(pre.spec_colliders().value_of(ch).parent == pre.spec_bodies().handle_of(
                        i,
                    ));
                    if ch == s {
                        assert(self.spec_colliders().value_of(ch).parent
                            == pre.spec_colliders().value_of(ch).parent);
                    }
                }
            }
            assert(self.colliders_parents_live()) by {
                assert forall|i: int|
                    0 <= i < self.spec_colliders().slot_count_spec()
                        && #[trigger] self.spec_colliders().live_at(i) implies self.spec_bodies().contains(
                    self.spec_colliders().val_at(i).parent,
                ) by {
                    assert(pre.spec_colliders().live_at(i));
                    if i == s.index as int {
                        assert(self.spec_colliders().val_at(i).parent == pre.spec_colliders().val_at(
                            i,
                        ).parent);
                    } else {
                        assert(self.spec_colliders().val_at(i) == pre.spec_colliders().val_at(i));
                    }
                    assert(pre.spec_bodies().contains(pre.spec_colliders().val_at(i).parent));
                }
            }
        }
        true
    }

    /// Serializes the world: the hand-authored descriptor override when one
    /// is pending, else a fresh snapshot of the live state.
    pub fn save_state(&self) -> (r: Vec<u8>)
        requires
            self.wf(),
        ensures
            self.spec_desc() matches Some(d) ==> r@ == crate::codec::spec_encode_desc(d),
            (self.spec_desc() is None) ==> exists|d: PhysicsDesc|
                r@ == crate::codec::spec_encode_desc(d) && crate::desc::desc_wf(d)
                    && #[trigger] snapshot_of(d, *self),
    {
        match &self.desc {
            Some(d) => d.save_bytes(),
            None => {
                let d = self.generate_desc();
                let bytes = d.save_bytes();
                proof {
                    assert(bytes@ == crate::codec::spec_encode_desc(d) && crate::desc::desc_wf(d)
                        && snapshot_of(d, *self));
                }
                bytes
            },
        }
    }

    /// Deserializes a descriptor set and holds it pending until resolve; a
    /// malformed stream is a hard error and changes nothing.
    pub fn load_state(&mut self, data: &Vec<u8>) -> (r: Result<(), crate::visitor::VisitError>)
        requires
            old(self).wf(),
        ensures
            final(self).wf(),
            r is Ok ==> (final(self).spec_desc() matches Some(d) && crate::desc::desc_wf(d) && (
            data@ == crate::codec::spec_encode_desc(d) || (data@ == crate::codec::spec_encode_desc(
                crate::codec::with_zero_island(d),
            ) && d.integration_parameters.min_island_size
                == crate::codec::DEFAULT_MIN_ISLAND_SIZE) || crate::codec::legacy_loaded(
                data@,
                d,
            ))),
            r is Err ==> *final(self) == *old(self),
    {
        match PhysicsDesc::load_bytes(data) {
            Ok(d) => {
                self.desc = Some(d);
                Ok(())
            },
            Err(e) => Err(e),
        }
    }

    /// Deep-copies the world by freezing it into a descriptor set and
    /// resolving that set into a fresh world, re-deriving trimesh geometry
    /// from the scene: the copy holds an equivalent body and joint for every
    /// engine handle of the original, and equivalent colliders whenever
    /// every collider of the snapshot can be rebuilt.
    pub fn deep_copy(&self, binder: &PhysicsBinder, graph: &SceneSnapshot, log: &mut Vec<LogEntry>) -> (r: Physics)
        requires
            self.wf(),
            graph.wf(),
            binder.wf(),
            forall|i: int|
                0 <= i < graph@.len() ==> (#[trigger] graph@[i]).triangles@.len() < 0x1000_0000,
        ensures
            r.wf(),
            (r.spec_desc() is None),
            r.spec_bodies().slot_count_spec() == self.spec_bodies().live_count(),
            r.spec_joints().slot_count_spec() == self.spec_joints().live_count(),
            forall|h: RigidBodyHandle|
                (#[trigger] r.spec_contains_body(h)) <==> self.spec_contains_body(h),
            forall|h: RigidBodyHandle|
                #[trigger] self.spec_contains_body(h) ==> crate::entities::same_body_state(
                    r.spec_body(h),
                    self.spec_body(h),
                ),
            forall|h: JointHandle|
                (#[trigger] r.spec_contains_joint(h)) <==> self.spec_contains_joint(h),
            forall|h: JointHandle|
                #[trigger] self.spec_contains_joint(h) ==> r.spec_joint(h).params == self.spec_joint(
                    h,
                ).params,
            r.spec_embedded_resources().len() == self.spec_embedded_resources().len(),
            exists|d: PhysicsDesc|
                (#[trigger] snapshot_of(d, *self)) && crate::desc::desc_wf(d) && resolved_from(
                    r,
                    d,
                    *binder,
                    *graph,
                ),
    {
        let mut copy = Physics::new();
        copy.embedded_resources = self.clone_embedded();
        let d = self.generate_desc();
        copy.desc = Some(d);
        copy.resolve(binder, graph, log);
        proof {
            lemma_snapshot_resolve_equivalence(*self, d, copy, *binder, *graph);
        }
        copy
    }

    /// Duplicates the resource links for a deep copy.
    fn clone_embedded(&self) -> (r: Vec<ResourceLink>)
        ensures
            r@.len() == self.spec_embedded_resources().len(),
    {
        let n = self.embedded_resources.len();
        let mut out: Vec<ResourceLink> = Vec::new();
        let mut i: usize = 0;
        while i < n
            invariant
                i <= n,
                n == self.spec_embedded_resources().len(),
                out@.len() == i,
            decreases n - i,
        {
            out.push(self.embedded_resources[i].clone());
            i += 1;
        }
        out
    }

    /// Copies every live source body into this world, preserving its state,
    /// and records the source-to-host engine remapping.
    #[verifier::rlimit(100)]
    fn embed_bodies_of(&mut self, resource: &Physics) -> (r: IdMap)
        requires
            old(self).wf(),
            resource.wf(),
            old(self).spec_bodies().slot_count_spec() + resource.spec_bodies().slot_count_spec()
                < u32::MAX,
            old(self).spec_next_id() + resource.spec_bodies().slot_count_spec() < u128::MAX,
        ensures
            final(self).wf(),
            r.wf(),
            r@.len() == resource.spec_bodies().live_count(),
            final(self).spec_body_map()@.len() == old(self).spec_body_map()@.len() + r@.len(),
            final(self).spec_colliders() == old(self).spec_colliders(),
            final(self).spec_joints() == old(self).spec_joints(),
            final(self).spec_collider_map() == old(self).spec_collider_map(),
            final(self).spec_joint_map() == old(self).spec_joint_map(),
            final(self).same_misc(*old(self)),
            final(self).spec_colliders().slot_count_spec() == old(
                self,
            ).spec_colliders().slot_count_spec(),
            final(self).spec_joints().slot_count_spec() == old(self).spec_joints().slot_count_spec(),
            final(self).spec_bodies().slot_count_spec() <= old(self).spec_bodies().slot_count_spec()
                + resource.spec_bodies().slot_count_spec(),
            old(self).spec_next_id() <= final(self).spec_next_id() <= old(self).spec_next_id()
                + resource.spec_bodies().slot_count_spec(),
            forall|i: int|
                0 <= i < resource.spec_bodies().slot_count_spec()
                    && #[trigger] resource.spec_bodies().live_at(i) ==> embedded_body_at(
                    *final(self),
                    *old(self),
                    *resource,
                    r,
                    i,
                ),
            forall|q: int|
                0 <= q < r@.len() ==> body_pair_source_below(
                    *resource,
                    #[trigger] r@[q],
                    resource.spec_bodies().slot_count_spec() as int,
                ),
    {
        let mut links = IdMap::new();
        let bn = resource.bodies.slot_count();
        let mut i: usize = 0;
        proof {
            resource.spec_bodies().lemma_live_count_base(0);
        }
        while i < bn
            invariant
                bn == resource.spec_bodies().slot_count_spec(),
                i <= bn,
                resource.wf(),
                self.wf(),
                links.wf(),
                old(self).wf(),
                old(self).spec_bodies().slot_count_spec() + bn < u32::MAX,
                old(self).spec_next_id() + bn < u128::MAX,
                links@.len() == resource.spec_bodies().live_count_upto(i as int),
                self.spec_body_map()@.len() == old(self).spec_body_map()@.len() + links@.len(),
                self.spec_colliders() == old(self).spec_colliders(),
                self.spec_joints() == old(self).spec_joints(),
                self.spec_collider_map() == old(self).spec_collider_map(),
                self.spec_joint_map() == old(self).spec_joint_map(),
                self.same_misc(*old(self)),
                self.spec_colliders().slot_count_spec() == old(
                    self,
                ).spec_colliders().slot_count_spec(),
                self.spec_joints().slot_count_spec() == old(self).spec_joints().slot_count_spec(),
                self.spec_bodies().slot_count_spec() <= old(self).spec_bodies().slot_count_spec()
                    + i,
                old(self).spec_next_id() <= self.spec_next_id() <= old(self).spec_next_id() + i,
                forall|j: int|
                    0 <= j < i && #[trigger] resource.spec_bodies().live_at(j)
                        ==> embedded_body_at(*self, *old(self), *resource, links, j),
                forall|q: int|
                    0 <= q < links@.len() ==> body_pair_source_below(
                        *resource,
                        #[trigger] links@[q],
                        i as int,
                    ),
            decreases bn - i,
        {
            let ii = i;
            match resource.bodies.handle_at(ii) {
                Some(sh) => {
                    proof {
                        assert(resource.spec_bodies().contains(sh));
                        assert(resource.spec_body_map().has_solver(sh));
                    }
                    let b = match resource.bodies.get(sh) {
                        Some(v) => v,
                        None => unreached(),
                    };
                    let seng = match resource.body_handle_map.key_of(sh) {
                        Some(e) => e,
                        None => unreached(),
                    };
                    let body = RigidBody {
                        position: b.position,
                        rotation: b.rotation,
                        linvel: b.linvel,
                        angvel: b.angvel,
                        sleeping: b.sleeping,
                        status: b.status,
                        mass: b.mass,
                        x_rotation_locked: b.x_rotation_locked,
                        y_rotation_locked: b.y_rotation_locked,
                        z_rotation_locked: b.z_rotation_locked,
                        translation_locked: b.translation_locked,
                        colliders: Vec::new(),
                    };
                    let ghost wpre = *self;
                    let ghost lpre = links;
                    let ghost srceng = spec_engine_of(
                        resource.spec_body_map(),
                        resource.spec_bodies(),
                        ii as int,
                    );
                    let h = self.add_body(body);
                    proof {
                        lemma_engine_of_maps(
                            resource.spec_body_map(),
                            resource.spec_bodies(),
                            ii as int,
                        );
                        crate::table::lemma_solver_unique(resource.spec_body_map(), seng, srceng, sh);
                        assert(seng == srceng);
                        assert(!links.has_from(seng)) by {
                            if links.has_from(seng) {
                                let q = choose|q: int|
                                    0 <= q < links@.len() && (#[trigger] links@[q]).from == seng;
                                assert(body_pair_source_below(*resource, links@[q], ii as int));
                                let m = choose|m: int|
                                    0 <= m < ii && (#[trigger] resource.spec_bodies().live_at(m))
                                        && links@[q].from == spec_engine_of(
                                        resource.spec_body_map(),
                                        resource.spec_bodies(),
                                        m,
                                    );
                                assert(resource.spec_body_map().has_solver(
                                    resource.spec_bodies().handle_of(m),
                                ));
                                lemma_engine_of_injective(
                                    resource.spec_body_map(),
                                    resource.spec_bodies(),
                                    m,
                                    ii as int,
                                );
                            }
                        }
                    }
                    links.insert(seng, h.id);
                    i += 1;
                    proof {
                        resource.spec_bodies().lemma_live_count_step(i as int);
                        assert(!old(self).spec_contains_body(h)) by {
                            if old(self).spec_contains_body(h) {
                                let t = old(self).spec_body_map();
                                let p = choose|p: int|
                                    0 <= p < t@.len() && (#[trigger] t@[p]).engine == h.id;
                                assert(t@[p].engine < old(self).spec_next_id());
                            }
                        }
                        assert(*b == resource.spec_bodies().val_at(ii as int));
                        assert(crate::entities::same_body_state(
                            self.spec_body(h),
                            resource.spec_bodies().val_at(ii as int),
                        ));
                        assert forall|j: int|
                            0 <= j < i && #[trigger] resource.spec_bodies().live_at(j)
                                implies embedded_body_at(*self, *old(self), *resource, links, j) by {
                            let je = spec_engine_of(
                                resource.spec_body_map(),
                                resource.spec_bodies(),
                                j,
                            );
                            if j == ii as int {
                                assert(links@[links@.len() - 1].from == seng && links@[links@.len()
                                    - 1].to == h.id);
                                assert(links.maps_to(je, h.id));
                                assert(embedded_body_at(*self, *old(self), *resource, links, j));
                            } else {
                                assert(embedded_body_at(wpre, *old(self), *resource, lpre, j));
                                let hid = choose|hid: u128|
                                    {
                                        &&& #[trigger] lpre.maps_to(
                                            spec_engine_of(
                                                resource.spec_body_map(),
                                                resource.spec_bodies(),
                                                j,
                                            ),
                                            hid,
                                        )
                                        &&& wpre.spec_contains_body(RigidBodyHandle { id: hid })
                                        &&& !old(self).spec_contains_body(
                                            RigidBodyHandle { id: hid },
                                        )
                                        &&& crate::entities::same_body_state(
                                            wpre.spec_body(RigidBodyHandle { id: hid }),
                                            resource.spec_bodies().val_at(j),
                                        )
                                    };
                                let hh = RigidBodyHandle { id: hid };
                                assert(hh != h);
                                assert(self.spec_contains_body(hh));
                                assert(self.spec_body(hh) == wpre.spec_body(hh));
                                assert(links.maps_to(je, hid)) by {
                                    let q = choose|q: int|
                                        0 <= q < lpre@.len() && (#[trigger] lpre@[q]).from == je
                                            && lpre@[q].to == hid;
                                    assert(links@[q] == lpre@[q]);
                                }
                                assert(embedded_body_at(*self, *old(self), *resource, links, j));
                            }
                        }
                        assert forall|q: int| 0 <= q < links@.len() implies body_pair_source_below(
                            *resource,
                            #[trigger] links@[q],
                            i as int,
                        ) by {
                            if q < links@.len() - 1 {
                                assert(links@[q] == lpre@[q]);
                                assert(body_pair_source_below(*resource, lpre@[q], ii as int));
                                let m = choose|m: int|
                                    0 <= m < ii && (#[trigger] resource.spec_bodies().live_at(m))
                                        && lpre@[q].from == spec_engine_of(
                                        resource.spec_body_map(),
                                        resource.spec_bodies(),
                                        m,
                                    );
                                assert(body_pair_source_below(*resource, links@[q], i as int));
                            } else {
                                assert(links@[q].from == seng);
                                assert(resource.spec_bodies().live_at(ii as int));
                                assert(body_pair_source_below(*resource, links@[q], i as int));
                            }
                        }
                    }
                }
                None => {
                    i += 1;
                    proof {
                        resource.spec_bodies().lemma_live_count_step(i as int);
                    }
                }
            }
        }
        proof {
            assert(resource.spec_bodies().live_count() == resource.spec_bodies().live_count_upto(
                bn as int,
            ));
        }
        links
    }

    /// Rebinds the cloned host nodes to the freshly embedded bodies: each
    /// source binding whose node the remap covers is re-created against the
    /// link image of its body; nodes outside the remap image keep their old
    /// bindings.
    #[verifier::rlimit(100)]
    fn embed_rebind(
        target_binder: &mut PhysicsBinder,
        remap: &NodeRemap,
        src_binder: &PhysicsBinder,
        links: &IdMap,
    )
        requires
            old(target_binder).wf(),
            src_binder.wf(),
            links.wf(),
            forall|i: int, j: int|
                0 <= i < j < remap@.len() ==> (#[trigger] remap@[i]).from != (
                #[trigger] remap@[j]).from,
            forall|i: int, j: int|
                0 <= i < j < remap@.len() ==> (#[trigger] remap@[i]).to != (#[trigger] remap@[j]).to,
        ensures
            final(target_binder).wf(),
            forall|n: NodeHandle, b: u128, nh: NodeHandle, hid: u128|
                #[trigger] src_binder.binds(n, b) && #[trigger] remap.maps(n, nh) && #[trigger]
                links.maps_to(b, hid) ==> final(target_binder).binds(nh, hid),
            forall|n2: NodeHandle, b2: u128|
                (forall|n: NodeHandle, b: u128| #[trigger] src_binder.binds(n, b) ==> !remap.maps(
                    n,
                    n2,
                )) ==> ((#[trigger] final(target_binder).binds(n2, b2)) <==> old(target_binder).binds(n2, b2)),
    {
        let sn = src_binder.len();
        let mut q: usize = 0;
        while q < sn
            invariant
                sn == src_binder@.len(),
                q <= sn,
                src_binder.wf(),
                links.wf(),
                target_binder.wf(),
                forall|i: int, j: int|
                    0 <= i < j < remap@.len() ==> (#[trigger] remap@[i]).from != (
                    #[trigger] remap@[j]).from,
                forall|i: int, j: int|
                    0 <= i < j < remap@.len() ==> (#[trigger] remap@[i]).to != (
                    #[trigger] remap@[j]).to,
                forall|p: int, nh: NodeHandle, hid: u128|
                    0 <= p < q && #[trigger] remap.maps(src_binder@[p].node, nh) && #[trigger]
                    links.maps_to(src_binder@[p].body, hid) ==> target_binder.binds(nh, hid),
                forall|n2: NodeHandle, b2: u128|
                    (forall|n: NodeHandle, b: u128| #[trigger] src_binder.binds(n, b)
                        ==> !remap.maps(n, n2)) ==> ((#[trigger] target_binder.binds(n2, b2)) <==>
                    old(target_binder).binds(n2, b2)),
            decreases sn - q,
        {
            let binding = src_binder.binding_at(q);
            match remap.get(binding.node) {
                Some(nh) => {
                    match links.get(binding.body) {
                        Some(hid) => {
                            let ghost tpre = *target_binder;
                            target_binder.bind(nh, hid);
                            proof {
                                assert forall|p: int, nh2: NodeHandle, hid2: u128|
                                    0 <= p < q + 1 && #[trigger] remap.maps(
                                        src_binder@[p].node,
                                        nh2,
                                    ) && #[trigger] links.maps_to(src_binder@[p].body, hid2)
                                        implies target_binder.binds(nh2, hid2) by {
                                    if p == q as int {
                                        assert(nh2 == nh) by {
                                            let a = choose|a: int|
                                                0 <= a < remap@.len() && (#[trigger] remap@[a]).from
                                                    == binding.node && remap@[a].to == nh2;
                                            let c = choose|c: int|
                                                0 <= c < remap@.len() && (#[trigger] remap@[c]).from
                                                    == binding.node && remap@[c].to == nh;
                                        }
                                        assert(hid2 == hid) by {
                                            let a = choose|a: int|
                                                0 <= a < links@.len() && (#[trigger] links@[a]).from
                                                    == binding.body && links@[a].to == hid2;
                                            let c = choose|c: int|
                                                0 <= c < links@.len() && (#[trigger] links@[c]).from
                                                    == binding.body && links@[c].to == hid;
                                        }
                                        assert(target_binder.binds(nh2, hid2));
                                    } else {
                                        assert(tpre.binds(nh2, hid2));
                                        assert(nh2 != nh) by {
                                            if nh2 == nh {
                                                let a = choose|a: int|
                                                    0 <= a < remap@.len() && (
                                                    #[trigger] remap@[a]).from
                                                        == src_binder@[p].node && remap@[a].to
                                                        == nh2;
                                                let c = choose|c: int|
                                                    0 <= c < remap@.len() && (
                                                    #[trigger] remap@[c]).from == binding.node
                                                        && remap@[c].to == nh;
                                                assert(src_binder@[p].node == binding.node);
                                                assert(src_binder@[q as int].node
                                                    == binding.node);
                                            }
                                        }
                                        assert(target_binder.binds(nh2, hid2));
                                    }
                                }
                                assert forall|n2: NodeHandle, b2: u128|
                                    (forall|n: NodeHandle, b: u128| #[trigger] src_binder.binds(
                                        n,
                                        b,
                                    ) ==> !remap.maps(n, n2)) implies ((
                                #[trigger] target_binder.binds(n2, b2)) <==> old(target_binder).binds(n2, b2)) by {
                                    assert(src_binder.binds(binding.node, binding.body)) by {
                                        assert(src_binder@[q as int].node == binding.node
                                            && src_binder@[q as int].body == binding.body);
                                    }
                                    assert(n2 != nh);
                                    assert(target_binder.binds(n2, b2) <==> tpre.binds(n2, b2));
                                }
                            }
                        },
                        None => {
                        },
                    }
                },
                None => {
                },
            }
            q += 1;
        }
        proof {
            assert forall|n: NodeHandle, b: u128, nh: NodeHandle, hid: u128|
                #[trigger] src_binder.binds(n, b) && #[trigger] remap.maps(n, nh) && #[trigger]
                links.maps_to(b, hid) implies target_binder.binds(nh, hid) by {
                let p = choose|p: int|
                    0 <= p < src_binder@.len() && (#[trigger] src_binder@[p]).node == n
                        && src_binder@[p].body == b;
            }
        }
    }

    /// Copies a parameter shape value; mesh-bearing buffers are copied
    /// element by element.
    fn copy_shape(s: &ColliderShape) -> (r: ColliderShape)
        requires
            !(s is Trimesh),
        ensures
            same_shape(r, *s),
    {
        match s {
            ColliderShape::Ball(v) => ColliderShape::Ball(*v),
            ColliderShape::Cylinder(v) => ColliderShape::Cylinder(*v),
            ColliderShape::RoundCylinder(v) => ColliderShape::RoundCylinder(*v),
            ColliderShape::Cone(v) => ColliderShape::Cone(*v),
            ColliderShape::Cuboid(v) => ColliderShape::Cuboid(*v),
            ColliderShape::Capsule(v) => ColliderShape::Capsule(*v),
            ColliderShape::Segment(v) => ColliderShape::Segment(*v),
            ColliderShape::Triangle(v) => ColliderShape::Triangle(*v),
            ColliderShape::Trimesh(_) => unreached(),
            ColliderShape::Heightfield(h) => {
                let hn = h.heights.len();
                let mut heights: Vec<Scalar> = Vec::new();
                let mut i: usize = 0;
                while i < hn
                    invariant
                        hn == h.heights@.len(),
                        i <= hn,
                        heights@ == h.heights@.take(i as int),
                    decreases hn - i,
                {
                    heights.push(h.heights[i]);
                    i += 1;
                    proof {
                        assert(heights@ =~= h.heights@.take(i as int));
                    }
                }
                proof {
                    assert(heights@ =~= h.heights@);
                }
                ColliderShape::Heightfield(
                    crate::shape::HeightfieldShape { rows: h.rows, columns: h.columns, heights },
                )
            },
        }
    }

    /// Copies every live source collider onto the embedded host bodies.  A
    /// parameter shape is copied as it stands; a trimesh is re-derived from
    /// the host node now bound to the owning body, and logged and skipped
    /// when no valid bound node exists.
    #[verifier::rlimit(100)]
    fn embed_colliders_of(
        &mut self,
        target_binder: &PhysicsBinder,
        graph: &SceneSnapshot,
        resource: &Physics,
        links: &IdMap,
        log: &mut Vec<LogEntry>,
        Ghost(base): Ghost<Physics>,
    ) -> (r: IdMap)
        requires
            old(self).wf(),
            resource.wf(),
            graph.wf(),
            links.wf(),
            forall|n: NodeHandle|
                #[trigger] graph.spec_is_valid(n) ==> graph.spec_node(n).triangles@.len()
                    < 0x1000_0000,
            old(self).spec_colliders().slot_count_spec()
                + resource.spec_colliders().slot_count_spec() < u32::MAX,
            old(self).spec_next_id() + resource.spec_colliders().slot_count_spec() < u128::MAX,
            forall|i: int|
                0 <= i < resource.spec_bodies().slot_count_spec()
                    && #[trigger] resource.spec_bodies().live_at(i) ==> embedded_body_at(
                    *old(self),
                    base,
                    *resource,
                    *links,
                    i,
                ),
        ensures
            final(self).wf(),
            r.wf(),
            final(self).spec_collider_map()@.len() == old(self).spec_collider_map()@.len()
                + r@.len(),
            final(self).spec_joints() == old(self).spec_joints(),
            final(self).spec_joint_map() == old(self).spec_joint_map(),
            final(self).spec_body_map() == old(self).spec_body_map(),
            final(self).same_misc(*old(self)),
            final(self).spec_bodies().slot_count_spec() == old(
                self,
            ).spec_bodies().slot_count_spec(),
            final(self).spec_joints().slot_count_spec() == old(self).spec_joints().slot_count_spec(),
            final(self).spec_colliders().slot_count_spec() <= old(
                self,
            ).spec_colliders().slot_count_spec() + resource.spec_colliders().slot_count_spec(),
            old(self).spec_next_id() <= final(self).spec_next_id() <= old(self).spec_next_id()
                + resource.spec_colliders().slot_count_spec(),
            forall|i: int|
                0 <= i < resource.spec_bodies().slot_count_spec()
                    && #[trigger] resource.spec_bodies().live_at(i) ==> embedded_body_at(
                    *final(self),
                    base,
                    *resource,
                    *links,
                    i,
                ),
            forall|q: int|
                0 <= q < r@.len() ==> collider_pair_ok(
                    *final(self),
                    *resource,
                    *target_binder,
                    *graph,
                    *links,
                    #[trigger] r@[q],
                ),
            forall|q: int|
                0 <= q < r@.len() ==> collider_pair_source_below(
                    *resource,
                    #[trigger] r@[q],
                    resource.spec_colliders().slot_count_spec() as int,
                ),
            forall|j: int|
                0 <= j < resource.spec_colliders().slot_count_spec()
                    && #[trigger] resource.spec_colliders().live_at(j) && !(
                crate::shape::desc_of_shape(resource.spec_colliders().val_at(j).shape)
                    is Trimesh) ==> r.has_from(
                    spec_engine_of(resource.spec_collider_map(), resource.spec_colliders(), j),
                ),
            forall|j: int, hb: u128|
                0 <= j < resource.spec_colliders().slot_count_spec()
                    && resource.spec_colliders().live_at(j) && (crate::shape::desc_of_shape(
                    resource.spec_colliders().val_at(j).shape,
                ) is Trimesh) && #[trigger] links.maps_to(parent_src_engine(*resource, j), hb)
                    && embed_trimesh_ok(*target_binder, *graph, hb) ==> r.has_from(
                    spec_engine_of(resource.spec_collider_map(), resource.spec_colliders(), j),
                ),
            old(log)@.is_prefix_of(final(log)@),
    {
        let mut clinks = IdMap::new();
        let kn = resource.colliders.slot_count();
        let mut k: usize = 0;
        while k < kn
            invariant
                kn == resource.spec_colliders().slot_count_spec(),
                k <= kn,
                resource.wf(),
                graph.wf(),
                links.wf(),
                self.wf(),
                old(self).wf(),
                clinks.wf(),
                forall|n: NodeHandle|
                    #[trigger] graph.spec_is_valid(n) ==> graph.spec_node(n).triangles@.len()
                        < 0x1000_0000,
                old(self).spec_colliders().slot_count_spec() + kn < u32::MAX,
                old(self).spec_next_id() + kn < u128::MAX,
                self.spec_collider_map()@.len() == old(self).spec_collider_map()@.len()
                    + clinks@.len(),
                self.spec_joints() == old(self).spec_joints(),
                self.spec_joint_map() == old(self).spec_joint_map(),
                self.spec_body_map() == old(self).spec_body_map(),
                self.same_misc(*old(self)),
                self.spec_bodies().slot_count_spec() == old(self).spec_bodies().slot_count_spec(),
                self.spec_joints().slot_count_spec() == old(self).spec_joints().slot_count_spec(),
                self.spec_colliders().slot_count_spec() <= old(
                    self,
                ).spec_colliders().slot_count_spec() + k,
                old(self).spec_next_id() <= self.spec_next_id() <= old(self).spec_next_id() + k,
                forall|i: int|
                    0 <= i < resource.spec_bodies().slot_count_spec()
                        && #[trigger] resource.spec_bodies().live_at(i) ==> embedded_body_at(
                        *self,
                        base,
                        *resource,
                        *links,
                        i,
                    ),
                forall|q: int|
                    0 <= q < clinks@.len() ==> collider_pair_ok(
                        *self,
                        *resource,
                        *target_binder,
                        *graph,
                        *links,
                        #[trigger] clinks@[q],
                    ),
                forall|q: int|
                    0 <= q < clinks@.len() ==> collider_pair_source_below(
                        *resource,
                        #[trigger] clinks@[q],
                        k as int,
                    ),
                forall|j: int|
                    0 <= j < k && #[trigger] resource.spec_colliders().live_at(j) && !(
                    crate::shape::desc_of_shape(resource.spec_colliders().val_at(j).shape)
                        is Trimesh) ==> clinks.has_from(
                        spec_engine_of(resource.spec_collider_map(), resource.spec_colliders(), j),
                    ),
                forall|j: int, hb: u128|
                    0 <= j < k && resource.spec_colliders().live_at(j) && (
                    crate::shape::desc_of_shape(resource.spec_colliders().val_at(j).shape)
                        is Trimesh) && #[trigger] links.maps_to(parent_src_engine(*resource, j), hb)
                        && embed_trimesh_ok(*target_binder, *graph, hb) ==> clinks.has_from(
                        spec_engine_of(resource.spec_collider_map(), resource.spec_colliders(), j),
                    ),
                old(log)@.is_prefix_of(log@),
            decreases kn - k,
        {
            let kk = k;
            match resource.colliders.handle_at(kk) {
                Some(sh) => {
                    proof {
                        assert(resource.spec_colliders().contains(sh));
                        assert(resource.spec_collider_map().has_solver(sh));
                    }
                    let c = match resource.colliders.get(sh) {
                        Some(v) => v,
                        None => unreached(),
                    };
                    let ceng = match resource.collider_handle_map.key_of(sh) {
                        Some(e) => e,
                        None => unreached(),
                    };
                    let psh = c.parent;
                    proof {
                        assert(*c == resource.spec_colliders().val_at(kk as int));
                        assert(resource.spec_bodies().contains(psh));
                        assert(resource.spec_bodies().live_at(psh.index as int));
                        assert(resource.spec_bodies().handle_of(psh.index as int) == psh);
                        assert(resource.spec_body_map().has_solver(psh));
                    }
                    let peng = match resource.body_handle_map.key_of(psh) {
                        Some(e) => e,
                        None => unreached(),
                    };
                    proof {
                        lemma_engine_of_maps(
                            resource.spec_body_map(),
                            resource.spec_bodies(),
                            psh.index as int,
                        );
                        crate::table::lemma_solver_unique(
                            resource.spec_body_map(),
                            peng,
                            parent_src_engine(*resource, kk as int),
                            psh,
                        );
                        assert(peng == parent_src_engine(*resource, kk as int));
                        assert(embedded_body_at(*self, base, *resource, *links, psh.index as int));
                        assert(links.has_from(peng)) by {
                            let hid2 = choose|hid2: u128|
                                #[trigger] links.maps_to(
                                    spec_engine_of(
                                        resource.spec_body_map(),
                                        resource.spec_bodies(),
                                        psh.index as int,
                                    ),
                                    hid2,
                                );
                            let a = choose|a: int|
                                0 <= a < links@.len() && (#[trigger] links@[a]).from == peng
                                    && links@[a].to == hid2;
                        }
                    }
                    let hid = match links.get(peng) {
                        Some(h) => h,
                        None => unreached(),
                    };
                    let host_parent = RigidBodyHandle { id: hid };
                    proof {
                        let hid2 = choose|hid2: u128|
                            {
                                &&& #[trigger] links.maps_to(
                                    spec_engine_of(
                                        resource.spec_body_map(),
                                        resource.spec_bodies(),
                                        psh.index as int,
                                    ),
                                    hid2,
                                )
                                &&& self.spec_contains_body(RigidBodyHandle { id: hid2 })
                                &&& !base.spec_contains_body(RigidBodyHandle { id: hid2 })
                                &&& crate::entities::same_body_state(
                                    self.spec_body(RigidBodyHandle { id: hid2 }),
                                    resource.spec_bodies().val_at(psh.index as int),
                                )
                            };
                        assert(hid == hid2) by {
                            let a = choose|a: int|
                                0 <= a < links@.len() && (#[trigger] links@[a]).from == peng
                                    && links@[a].to == hid;
                            let b2 = choose|b2: int|
                                0 <= b2 < links@.len() && (#[trigger] links@[b2]).from == peng
                                    && links@[b2].to == hid2;
                        }
                        assert(self.spec_contains_body(host_parent));
                        lemma_engine_of_maps(
                            resource.spec_collider_map(),
                            resource.spec_colliders(),
                            kk as int,
                        );
                        crate::table::lemma_solver_unique(
                            resource.spec_collider_map(),
                            ceng,
                            spec_engine_of(
                                resource.spec_collider_map(),
                                resource.spec_colliders(),
                                kk as int,
                            ),
                            sh,
                        );
                        assert(ceng == spec_engine_of(
                            resource.spec_collider_map(),
                            resource.spec_colliders(),
                            kk as int,
                        ));
                        assert(!clinks.has_from(ceng)) by {
                            if clinks.has_from(ceng) {
                                let q = choose|q: int|
                                    0 <= q < clinks@.len() && (#[trigger] clinks@[q]).from == ceng;
                                assert(collider_pair_source_below(*resource, clinks@[q], kk as int));
                                let m = choose|m: int|
                                    0 <= m < kk && (#[trigger] resource.spec_colliders().live_at(m))
                                        && clinks@[q].from == spec_engine_of(
                                        resource.spec_collider_map(),
                                        resource.spec_colliders(),
                                        m,
                                    );
                                assert(resource.spec_collider_map().has_solver(
                                    resource.spec_colliders().handle_of(m),
                                ));
                                lemma_engine_of_injective(
                                    resource.spec_collider_map(),
                                    resource.spec_colliders(),
                                    m,
                                    kk as int,
                                );
                            }
                        }
                    }
                    let is_trimesh = match &c.shape {
                        ColliderShape::Trimesh(_) => true,
                        _ => false,
                    };
                    if is_trimesh {
                        let mut bound_valid: Option<NodeHandle> = None;
                        match target_binder.node_of(hid) {
                            Some(node) => {
                                if graph.is_valid_handle(node) {
                                    bound_valid = Some(node);
                                } else {
                                    log.push(
                                        LogEntry {
                                            kind: MessageKind::Error,
                                            message: trimesh_binding_error(),
                                            node: Some(node),
                                        },
                                    );
                                }
                            },
                            None => {
                                log.push(
                                    LogEntry {
                                        kind: MessageKind::Error,
                                        message: trimesh_binding_error(),
                                        node: None,
                                    },
                                );
                            },
                        }
                        match bound_valid {
                            Some(node) => {
                                let ghost logmid = log@;
                                let mesh = Physics::make_trimesh(node, graph, log);
                                let newc = Collider {
                                    shape: ColliderShape::Trimesh(mesh),
                                    parent: SolverHandle { index: 0, generation: 0 },
                                    friction: c.friction,
                                    density: c.density,
                                    restitution: c.restitution,
                                    is_sensor: c.is_sensor,
                                    translation: c.translation,
                                    rotation: c.rotation,
                                    collision_groups: c.collision_groups,
                                    solver_groups: c.solver_groups,
                                };
                                let ghost wpre = *self;
                                let ghost cpre = clinks;
                                let ch = self.add_collider(newc, &host_parent);
                                clinks.insert(ceng, ch.id);
                                proof {
                                    assert(old(log)@.is_prefix_of(log@));
                                    assert forall|h2: ColliderHandle|
                                        #[trigger] wpre.spec_contains_collider(h2)
                                            implies self.spec_contains_collider(h2)
                                            && self.spec_collider(h2) == wpre.spec_collider(h2) by {
                                        assert(h2 != ch);
                                    }
                                    assert forall|h2: RigidBodyHandle|
                                        #[trigger] wpre.spec_contains_body(h2)
                                            implies self.spec_contains_body(h2)
                                            && crate::entities::same_body_state(
                                            self.spec_body(h2),
                                            wpre.spec_body(h2),
                                        ) by {
                                        if h2 == host_parent {
                                            assert(crate::entities::same_body_state(
                                                self.spec_body(h2),
                                                wpre.spec_body(h2),
                                            ));
                                        } else {
                                            assert(self.spec_body(h2) == wpre.spec_body(h2));
                                        }
                                    }
                                    assert forall|i: int|
                                        0 <= i < resource.spec_bodies().slot_count_spec()
                                            && #[trigger] resource.spec_bodies().live_at(i)
                                            implies embedded_body_at(
                                            *self,
                                            base,
                                            *resource,
                                            *links,
                                            i,
                                        ) by {
                                        lemma_embedded_body_preserved(
                                            wpre,
                                            *self,
                                            base,
                                            *resource,
                                            *links,
                                            i,
                                        );
                                    }
                                    assert forall|q: int|
                                        0 <= q < clinks@.len() implies collider_pair_ok(
                                        *self,
                                        *resource,
                                        *target_binder,
                                        *graph,
                                        *links,
                                        #[trigger] clinks@[q],
                                    ) by {
                                        if q < clinks@.len() - 1 {
                                            assert(clinks@[q] == cpre@[q]);
                                            lemma_collider_pair_preserved(
                                                wpre,
                                                *self,
                                                *resource,
                                                *target_binder,
                                                *graph,
                                                *links,
                                                cpre@[q],
                                            );
                                        } else {
                                            assert(clinks@[q].from == ceng && clinks@[q].to
                                                == ch.id);
                                            assert(self.spec_collider(ch) == (Collider {
                                                parent: wpre.spec_body_solver(host_parent),
                                                ..newc
                                            }));
                                            assert(self.spec_body_solver(host_parent)
                                                == wpre.spec_body_solver(host_parent));
                                            assert(target_binder.binds(node, hid));
                                            assert(trimesh_matches_node(*graph, node, mesh));
                                            assert(links.maps_to(
                                                parent_src_engine(*resource, kk as int),
                                                hid,
                                            ));
                                            assert(resource.spec_colliders().live_at(kk as int));
                                            assert(self.spec_contains_collider(ch));
                                            assert(self.spec_collider(ch).shape
                                                == ColliderShape::Trimesh(mesh));
                                            assert(same_collider_material(
                                                self.spec_collider(ch),
                                                resource.spec_colliders().val_at(kk as int),
                                            ));
                                            assert(crate::shape::desc_of_shape(
                                                resource.spec_colliders().val_at(kk as int).shape,
                                            ) is Trimesh);
                                            lemma_collider_pair_intro(
                                                *self,
                                                *resource,
                                                *target_binder,
                                                *graph,
                                                *links,
                                                clinks@[q],
                                                kk as int,
                                                hid,
                                                node,
                                                mesh,
                                            );
                                        }
                                    }
                                    assert forall|q: int|
                                        0 <= q < clinks@.len()
                                            implies collider_pair_source_below(
                                        *resource,
                                        #[trigger] clinks@[q],
                                        (kk + 1) as int,
                                    ) by {
                                        if q < clinks@.len() - 1 {
                                            assert(clinks@[q] == cpre@[q]);
                                            assert(collider_pair_source_below(
                                                *resource,
                                                cpre@[q],
                                                kk as int,
                                            ));
                                            let m = choose|m: int|
                                                0 <= m < kk && (
                                                #[trigger] resource.spec_colliders().live_at(m))
                                                    && cpre@[q].from == spec_engine_of(
                                                    resource.spec_collider_map(),
                                                    resource.spec_colliders(),
                                                    m,
                                                );
                                            assert(collider_pair_source_below(
                                                *resource,
                                                clinks@[q],
                                                (kk + 1) as int,
                                            ));
                                        } else {
                                            assert(resource.spec_colliders().live_at(kk as int));
                                            assert(collider_pair_source_below(
                                                *resource,
                                                clinks@[q],
                                                (kk + 1) as int,
                                            ));
                                        }
                                    }
                                    assert(crate::shape::desc_of_shape(
                                        resource.spec_colliders().val_at(kk as int).shape,
                                    ) is Trimesh);
                                    assert forall|j: int|
                                        0 <= j < kk + 1
                                            && #[trigger] resource.spec_colliders().live_at(j)
                                            && !(crate::shape::desc_of_shape(
                                            resource.spec_colliders().val_at(j).shape,
                                        ) is Trimesh) implies clinks.has_from(
                                        spec_engine_of(
                                            resource.spec_collider_map(),
                                            resource.spec_colliders(),
                                            j,
                                        ),
                                    ) by {
                                        let a = choose|a: int|
                                            0 <= a < cpre@.len() && (#[trigger] cpre@[a]).from
                                                == spec_engine_of(
                                                resource.spec_collider_map(),
                                                resource.spec_colliders(),
                                                j,
                                            );
                                        assert(clinks@[a] == cpre@[a]);
                                    }
                                    assert forall|j: int, hb: u128|
                                        0 <= j < kk + 1
                                            && resource.spec_colliders().live_at(j) && (
                                        crate::shape::desc_of_shape(
                                            resource.spec_colliders().val_at(j).shape,
                                        ) is Trimesh) && #[trigger] links.maps_to(
                                            parent_src_engine(*resource, j),
                                            hb,
                                        ) && embed_trimesh_ok(*target_binder, *graph, hb)
                                            implies clinks.has_from(
                                        spec_engine_of(
                                            resource.spec_collider_map(),
                                            resource.spec_colliders(),
                                            j,
                                        ),
                                    ) by {
                                        if j == kk as int {
                                            assert(clinks@[clinks@.len() - 1].from == ceng);
                                        } else {
                                            let a = choose|a: int|
                                                0 <= a < cpre@.len() && (#[trigger] cpre@[a]).from
                                                    == spec_engine_of(
                                                    resource.spec_collider_map(),
                                                    resource.spec_colliders(),
                                                    j,
                                                );
                                            assert(clinks@[a] == cpre@[a]);
                                        }
                                    }
                                }
                            },
                            None => {
                                proof {
                                    assert(old(log)@.is_prefix_of(log@));
                                    assert(crate::shape::desc_of_shape(
                                        resource.spec_colliders().val_at(kk as int).shape,
                                    ) is Trimesh);
                                    assert forall|hb: u128|
                                        #[trigger] links.maps_to(
                                            parent_src_engine(*resource, kk as int),
                                            hb,
                                        ) implies !embed_trimesh_ok(*target_binder, *graph, hb) by {
                                        let a = choose|a: int|
                                            0 <= a < links@.len() && (#[trigger] links@[a]).from
                                                == parent_src_engine(*resource, kk as int)
                                                && links@[a].to == hb;
                                        let b2 = choose|b2: int|
                                            0 <= b2 < links@.len() && (#[trigger] links@[b2]).from
                                                == parent_src_engine(*resource, kk as int)
                                                && links@[b2].to == hid;
                                        assert(hb == hid);
                                    }
                                }
                            },
                        }
                    } else {
                        let copied = Physics::copy_shape(&c.shape);
                        let newc = Collider {
                            shape: copied,
                            parent: SolverHandle { index: 0, generation: 0 },
                            friction: c.friction,
                            density: c.density,
                            restitution: c.restitution,
                            is_sensor: c.is_sensor,
                            translation: c.translation,
                            rotation: c.rotation,
                            collision_groups: c.collision_groups,
                            solver_groups: c.solver_groups,
                        };
                        let ghost wpre = *self;
                        let ghost cpre = clinks;
                        let ch = self.add_collider(newc, &host_parent);
                        clinks.insert(ceng, ch.id);
                        proof {
                            assert forall|h2: ColliderHandle|
                                #[trigger] wpre.spec_contains_collider(h2)
                                    implies self.spec_contains_collider(h2) && self.spec_collider(
                                    h2,
                                ) == wpre.spec_collider(h2) by {
                                assert(h2 != ch);
                            }
                            assert forall|h2: RigidBodyHandle|
                                #[trigger] wpre.spec_contains_body(h2)
                                    implies self.spec_contains_body(h2)
                                    && crate::entities::same_body_state(
                                    self.spec_body(h2),
                                    wpre.spec_body(h2),
                                ) by {
                                if h2 == host_parent {
                                    assert(crate::entities::same_body_state(
                                        self.spec_body(h2),
                                        wpre.spec_body(h2),
                                    ));
                                } else {
                                    assert(self.spec_body(h2) == wpre.spec_body(h2));
                                }
                            }
                            assert forall|i: int|
                                0 <= i < resource.spec_bodies().slot_count_spec()
                                    && #[trigger] resource.spec_bodies().live_at(i)
                                    implies embedded_body_at(*self, base, *resource, *links, i) by {
                                lemma_embedded_body_preserved(
                                    wpre,
                                    *self,
                                    base,
                                    *resource,
                                    *links,
                                    i,
                                );
                            }
                            assert(!(crate::shape::desc_of_shape(
                                resource.spec_colliders().val_at(kk as int).shape,
                            ) is Trimesh));
                            assert forall|q: int|
                                0 <= q < clinks@.len() implies collider_pair_ok(
                                *self,
                                *resource,
                                *target_binder,
                                *graph,
                                *links,
                                #[trigger] clinks@[q],
                            ) by {
                                if q < clinks@.len() - 1 {
                                    assert(clinks@[q] == cpre@[q]);
                                    lemma_collider_pair_preserved(
                                        wpre,
                                        *self,
                                        *resource,
                                        *target_binder,
                                        *graph,
                                        *links,
                                        cpre@[q],
                                    );
                                } else {
                                    assert(clinks@[q].from == ceng && clinks@[q].to == ch.id);
                                    assert(self.spec_collider(ch) == (Collider {
                                        parent: wpre.spec_body_solver(host_parent),
                                        ..newc
                                    }));
                                    assert(self.spec_body_solver(host_parent)
                                        == wpre.spec_body_solver(host_parent));
                                    lemma_collider_pair_intro(
                                        *self,
                                        *resource,
                                        *target_binder,
                                        *graph,
                                        *links,
                                        clinks@[q],
                                        kk as int,
                                        hid,
                                        arbitrary(),
                                        arbitrary(),
                                    );
                                }
                            }
                            assert forall|q: int|
                                0 <= q < clinks@.len() implies collider_pair_source_below(
                                *resource,
                                #[trigger] clinks@[q],
                                (kk + 1) as int,
                            ) by {
                                if q < clinks@.len() - 1 {
                                    assert(clinks@[q] == cpre@[q]);
                                    assert(collider_pair_source_below(
                                        *resource,
                                        cpre@[q],
                                        kk as int,
                                    ));
                                    let m = choose|m: int|
                                        0 <= m < kk && (
                                        #[trigger] resource.spec_colliders().live_at(m))
                                            && cpre@[q].from == spec_engine_of(
                                            resource.spec_collider_map(),
                                            resource.spec_colliders(),
                                            m,
                                        );
                                    assert(collider_pair_source_below(
                                        *resource,
                                        clinks@[q],
                                        (kk + 1) as int,
                                    ));
                                } else {
                                    assert(resource.spec_colliders().live_at(kk as int));
                                    assert(collider_pair_source_below(
                                        *resource,
                                        clinks@[q],
                                        (kk + 1) as int,
                                    ));
                                }
                            }
                            assert forall|j: int|
                                0 <= j < kk + 1 && #[trigger] resource.spec_colliders().live_at(j)
                                    && !(crate::shape::desc_of_shape(
                                    resource.spec_colliders().val_at(j).shape,
                                ) is Trimesh) implies clinks.has_from(
                                spec_engine_of(
                                    resource.spec_collider_map(),
                                    resource.spec_colliders(),
                                    j,
                                ),
                            ) by {
                                if j < kk as int {
                                    let a = choose|a: int|
                                        0 <= a < cpre@.len() && (#[trigger] cpre@[a]).from
                                            == spec_engine_of(
                                            resource.spec_collider_map(),
                                            resource.spec_colliders(),
                                            j,
                                        );
                                    assert(clinks@[a] == cpre@[a]);
                                } else {
                                    assert(clinks@[clinks@.len() - 1].from == ceng);
                                }
                            }
                            assert forall|j: int, hb: u128|
                                0 <= j < kk + 1 && resource.spec_colliders().live_at(j) && (
                                crate::shape::desc_of_shape(
                                    resource.spec_colliders().val_at(j).shape,
                                ) is Trimesh) && #[trigger] links.maps_to(
                                    parent_src_engine(*resource, j),
                                    hb,
                                ) && embed_trimesh_ok(*target_binder, *graph, hb)
                                    implies clinks.has_from(
                                spec_engine_of(
                                    resource.spec_collider_map(),
                                    resource.spec_colliders(),
                                    j,
                                ),
                            ) by {
                                let a = choose|a: int|
                                    0 <= a < cpre@.len() && (#[trigger] cpre@[a]).from
                                        == spec_engine_of(
                                        resource.spec_collider_map(),
                                        resource.spec_colliders(),
                                        j,
                                    );
                                assert(clinks@[a] == cpre@[a]);
                            }
                        }
                    }
                },
                None => {
                },
            }
            k += 1;
        }
        clinks
    }

    /// Copies every live source joint across the embedded host bodies with
    /// its parameters, resolving each endpoint through the source resource's
    /// body table and then through the body remapping.
    #[verifier::rlimit(100)]
    fn embed_joints_of(&mut self, resource: &Physics, links: &IdMap, Ghost(base): Ghost<Physics>) -> (r:
        IdMap)
        requires
            old(self).wf(),
            resource.wf(),
            links.wf(),
            old(self).spec_joints().slot_count_spec() + resource.spec_joints().slot_count_spec()
                < u32::MAX,
            old(self).spec_next_id() + resource.spec_joints().slot_count_spec() < u128::MAX,
            forall|i: int|
                0 <= i < resource.spec_bodies().slot_count_spec()
                    && #[trigger] resource.spec_bodies().live_at(i) ==> embedded_body_at(
                    *old(self),
                    base,
                    *resource,
                    *links,
                    i,
                ),
        ensures
            final(self).wf(),
            r.wf(),
            r@.len() == resource.spec_joints().live_count(),
            final(self).spec_joint_map()@.len() == old(self).spec_joint_map()@.len() + r@.len(),
            final(self).spec_bodies() == old(self).spec_bodies(),
            final(self).spec_colliders() == old(self).spec_colliders(),
            final(self).spec_body_map() == old(self).spec_body_map(),
            final(self).spec_collider_map() == old(self).spec_collider_map(),
            final(self).same_misc(*old(self)),
            forall|i: int|
                0 <= i < resource.spec_bodies().slot_count_spec()
                    && #[trigger] resource.spec_bodies().live_at(i) ==> embedded_body_at(
                    *final(self),
                    base,
                    *resource,
                    *links,
                    i,
                ),
            forall|q: int|
                0 <= q < r@.len() ==> joint_pair_ok(
                    *final(self),
                    *resource,
                    *links,
                    #[trigger] r@[q],
                ),
            forall|q: int|
                0 <= q < r@.len() ==> joint_pair_source_below(
                    *resource,
                    #[trigger] r@[q],
                    resource.spec_joints().slot_count_spec() as int,
                ),
            forall|m: int|
                0 <= m < resource.spec_joints().slot_count_spec()
                    && #[trigger] resource.spec_joints().live_at(m) ==> r.has_from(
                    spec_engine_of(resource.spec_joint_map(), resource.spec_joints(), m),
                ),
    {
        let mut jlinks = IdMap::new();
        let jn = resource.joints.slot_count();
        let mut k: usize = 0;
        proof {
            resource.spec_joints().lemma_live_count_base(0);
        }
        while k < jn
            invariant
                jn == resource.spec_joints().slot_count_spec(),
                k <= jn,
                resource.wf(),
                links.wf(),
                self.wf(),
                old(self).wf(),
                jlinks.wf(),
                old(self).spec_joints().slot_count_spec() + jn < u32::MAX,
                old(self).spec_next_id() + jn < u128::MAX,
                jlinks@.len() == resource.spec_joints().live_count_upto(k as int),
                self.spec_joint_map()@.len() == old(self).spec_joint_map()@.len() + jlinks@.len(),
                self.spec_bodies() == old(self).spec_bodies(),
                self.spec_colliders() == old(self).spec_colliders(),
                self.spec_body_map() == old(self).spec_body_map(),
                self.spec_collider_map() == old(self).spec_collider_map(),
                self.same_misc(*old(self)),
                self.spec_joints().slot_count_spec() <= old(self).spec_joints().slot_count_spec()
                    + k,
                old(self).spec_next_id() <= self.spec_next_id() <= old(self).spec_next_id() + k,
                forall|i: int|
                    0 <= i < resource.spec_bodies().slot_count_spec()
                        && #[trigger] resource.spec_bodies().live_at(i) ==> embedded_body_at(
                        *self,
                        base,
                        *resource,
                        *links,
                        i,
                    ),
                forall|q: int|
                    0 <= q < jlinks@.len() ==> joint_pair_ok(
                        *self,
                        *resource,
                        *links,
                        #[trigger] jlinks@[q],
                    ),
                forall|q: int|
                    0 <= q < jlinks@.len() ==> joint_pair_source_below(
                        *resource,
                        #[trigger] jlinks@[q],
                        k as int,
                    ),
                forall|m: int|
                    0 <= m < k && #[trigger] resource.spec_joints().live_at(m) ==> jlinks.has_from(
                        spec_engine_of(resource.spec_joint_map(), resource.spec_joints(), m),
                    ),
            decreases jn - k,
        {
            let kk = k;
            match resource.joints.handle_at(kk) {
                Some(sh) => {
                    proof {
                        assert(resource.spec_joints().contains(sh));
                        assert(resource.spec_joint_map().has_solver(sh));
                    }
                    let j = match resource.joints.get(sh) {
                        Some(v) => v,
                        None => unreached(),
                    };
                    let jeng = match resource.joint_handle_map.key_of(sh) {
                        Some(e) => e,
                        None => unreached(),
                    };
                    proof {
                        assert(*j == resource.spec_joints().val_at(kk as int));
                        lemma_engine_of_maps(
                            resource.spec_joint_map(),
                            resource.spec_joints(),
                            kk as int,
                        );
                        crate::table::lemma_solver_unique(
                            resource.spec_joint_map(),
                            jeng,
                            spec_engine_of(resource.spec_joint_map(), resource.spec_joints(), kk as int),
                            sh,
                        );
                        assert(jeng == spec_engine_of(
                            resource.spec_joint_map(),
                            resource.spec_joints(),
                            kk as int,
                        ));
                        assert(resource.spec_bodies().contains(j.body1));
                        assert(resource.spec_bodies().contains(j.body2));
                        assert(resource.spec_bodies().handle_of(j.body1.index as int) == j.body1);
                        assert(resource.spec_bodies().handle_of(j.body2.index as int) == j.body2);
                        assert(resource.spec_body_map().has_solver(j.body1));
                        assert(resource.spec_body_map().has_solver(j.body2));
                    }
                    let e1 = match resource.body_handle_map.key_of(j.body1) {
                        Some(e) => e,
                        None => unreached(),
                    };
                    let e2 = match resource.body_handle_map.key_of(j.body2) {
                        Some(e) => e,
                        None => unreached(),
                    };
                    proof {
                        lemma_engine_of_maps(
                            resource.spec_body_map(),
                            resource.spec_bodies(),
                            j.body1.index as int,
                        );
                        crate::table::lemma_solver_unique(
                            resource.spec_body_map(),
                            e1,
                            spec_engine_of(
                                resource.spec_body_map(),
                                resource.spec_bodies(),
                                j.body1.index as int,
                            ),
                            j.body1,
                        );
                        lemma_engine_of_maps(
                            resource.spec_body_map(),
                            resource.spec_bodies(),
                            j.body2.index as int,
                        );
                        crate::table::lemma_solver_unique(
                            resource.spec_body_map(),
                            e2,
                            spec_engine_of(
                                resource.spec_body_map(),
                                resource.spec_bodies(),
                                j.body2.index as int,
                            ),
                            j.body2,
                        );
                        assert(embedded_body_at(*self, base, *resource, *links, j.body1.index as int));
                        assert(embedded_body_at(*self, base, *resource, *links, j.body2.index as int));
                        assert(links.has_from(e1)) by {
                            let hid2 = choose|hid2: u128|
                                #[trigger] links.maps_to(
                                    spec_engine_of(
                                        resource.spec_body_map(),
                                        resource.spec_bodies(),
                                        j.body1.index as int,
                                    ),
                                    hid2,
                                );
                            let a = choose|a: int|
                                0 <= a < links@.len() && (#[trigger] links@[a]).from == e1
                                    && links@[a].to == hid2;
                        }
                        assert(links.has_from(e2)) by {
                            let hid2 = choose|hid2: u128|
                                #[trigger] links.maps_to(
                                    spec_engine_of(
                                        resource.spec_body_map(),
                                        resource.spec_bodies(),
                                        j.body2.index as int,
                                    ),
                                    hid2,
                                );
                            let a = choose|a: int|
                                0 <= a < links@.len() && (#[trigger] links@[a]).from == e2
                                    && links@[a].to == hid2;
                        }
                    }
                    let h1 = match links.get(e1) {
                        Some(h) => h,
                        None => unreached(),
                    };
                    let h2 = match links.get(e2) {
                        Some(h) => h,
                        None => unreached(),
                    };
                    let hb1 = RigidBodyHandle { id: h1 };
                    let hb2 = RigidBodyHandle { id: h2 };
                    proof {
                        let w1 = choose|w: u128|
                            {
                                &&& #[trigger] links.maps_to(
                                    spec_engine_of(
                                        resource.spec_body_map(),
                                        resource.spec_bodies(),
                                        j.body1.index as int,
                                    ),
                                    w,
                                )
                                &&& self.spec_contains_body(RigidBodyHandle { id: w })
                                &&& !base.spec_contains_body(RigidBodyHandle { id: w })
                                &&& crate::entities::same_body_state(
                                    self.spec_body(RigidBodyHandle { id: w }),
                                    resource.spec_bodies().val_at(j.body1.index as int),
                                )
                            };
                        assert(h1 == w1) by {
                            let a = choose|a: int|
                                0 <= a < links@.len() && (#[trigger] links@[a]).from == e1
                                    && links@[a].to == h1;
                            let b2 = choose|b2: int|
                                0 <= b2 < links@.len() && (#[trigger] links@[b2]).from == e1
                                    && links@[b2].to == w1;
                        }
                        let w2 = choose|w: u128|
                            {
                                &&& #[trigger] links.maps_to(
                                    spec_engine_of(
                                        resource.spec_body_map(),
                                        resource.spec_bodies(),
                                        j.body2.index as int,
                                    ),
                                    w,
                                )
                                &&& self.spec_contains_body(RigidBodyHandle { id: w })
                                &&& !base.spec_contains_body(RigidBodyHandle { id: w })
                                &&& crate::entities::same_body_state(
                                    self.spec_body(RigidBodyHandle { id: w }),
                                    resource.spec_bodies().val_at(j.body2.index as int),
                                )
                            };
                        assert(h2 == w2) by {
                            let a = choose|a: int|
                                0 <= a < links@.len() && (#[trigger] links@[a]).from == e2
                                    && links@[a].to == h2;
                            let b2 = choose|b2: int|
                                0 <= b2 < links@.len() && (#[trigger] links@[b2]).from == e2
                                    && links@[b2].to == w2;
                        }
                        assert(self.spec_contains_body(hb1));
                        assert(self.spec_contains_body(hb2));
                        assert(!jlinks.has_from(jeng)) by {
                            if jlinks.has_from(jeng) {
                                let q = choose|q: int|
                                    0 <= q < jlinks@.len() && (#[trigger] jlinks@[q]).from == jeng;
                                assert(joint_pair_source_below(*resource, jlinks@[q], kk as int));
                                let m = choose|m: int|
                                    0 <= m < kk && (#[trigger] resource.spec_joints().live_at(m))
                                        && jlinks@[q].from == spec_engine_of(
                                        resource.spec_joint_map(),
                                        resource.spec_joints(),
                                        m,
                                    );
                                assert(resource.spec_joint_map().has_solver(
                                    resource.spec_joints().handle_of(m),
                                ));
                                lemma_engine_of_injective(
                                    resource.spec_joint_map(),
                                    resource.spec_joints(),
                                    m,
                                    kk as int,
                                );
                            }
                        }
                    }
                    let ghost wpre = *self;
                    let ghost jpre = jlinks;
                    let nh = self.add_joint(&hb1, &hb2, j.params);
                    jlinks.insert(jeng, nh.id);
                    k += 1;
                    proof {
                        resource.spec_joints().lemma_live_count_step(k as int);
                        assert forall|i: int|
                            0 <= i < resource.spec_bodies().slot_count_spec()
                                && #[trigger] resource.spec_bodies().live_at(i)
                                implies embedded_body_at(*self, base, *resource, *links, i) by {
                            lemma_embedded_body_preserved(wpre, *self, base, *resource, *links, i);
                        }
                        assert forall|q: int| 0 <= q < jlinks@.len() implies joint_pair_ok(
                            *self,
                            *resource,
                            *links,
                            #[trigger] jlinks@[q],
                        ) by {
                            if q < jlinks@.len() - 1 {
                                assert(jlinks@[q] == jpre@[q]);
                                lemma_joint_pair_preserved(wpre, *self, *resource, *links, jpre@[q]);
                            } else {
                                assert(jlinks@[q].from == jeng && jlinks@[q].to == nh.id);
                                assert(self.spec_joint(nh).params
                                    == resource.spec_joints().val_at(kk as int).params);
                                assert(self.spec_joint(nh).body1 == wpre.spec_body_solver(hb1));
                                assert(self.spec_body_solver(hb1) == wpre.spec_body_solver(hb1));
                                assert(self.spec_body_solver(hb2) == wpre.spec_body_solver(hb2));
                                lemma_joint_pair_intro(
                                    *self,
                                    *resource,
                                    *links,
                                    jlinks@[q],
                                    kk as int,
                                    h1,
                                    h2,
                                );
                            }
                        }
                        assert forall|q: int| 0 <= q < jlinks@.len()
                            implies joint_pair_source_below(
                            *resource,
                            #[trigger] jlinks@[q],
                            k as int,
                        ) by {
                            if q < jlinks@.len() - 1 {
                                assert(jlinks@[q] == jpre@[q]);
                                assert(joint_pair_source_below(*resource, jpre@[q], kk as int));
                                let m = choose|m: int|
                                    0 <= m < kk && (#[trigger] resource.spec_joints().live_at(m))
                                        && jpre@[q].from == spec_engine_of(
                                        resource.spec_joint_map(),
                                        resource.spec_joints(),
                                        m,
                                    );
                                assert(joint_pair_source_below(*resource, jlinks@[q], k as int));
                            } else {
                                assert(resource.spec_joints().live_at(kk as int));
                                assert(joint_pair_source_below(*resource, jlinks@[q], k as int));
                            }
                        }
                        assert forall|m: int|
                            0 <= m < k && #[trigger] resource.spec_joints().live_at(m)
                                implies jlinks.has_from(
                            spec_engine_of(resource.spec_joint_map(), resource.spec_joints(), m),
                        ) by {
                            if m < kk as int {
                                let a = choose|a: int|
                                    0 <= a < jpre@.len() && (#[trigger] jpre@[a]).from
                                        == spec_engine_of(
                                        resource.spec_joint_map(),
                                        resource.spec_joints(),
                                        m,
                                    );
                                assert(jlinks@[a] == jpre@[a]);
                            } else {
                                assert(jlinks@[jlinks@.len() - 1].from == jeng);
                            }
                        }
                    }
                },
                None => {
                    k += 1;
                    proof {
                        resource.spec_joints().lemma_live_count_step(k as int);
                    }
                },
            }
        }
        proof {
            assert(resource.spec_joints().live_count() == resource.spec_joints().live_count_upto(
                jn as int,
            ));
        }
        jlinks
    }

    /// Instantiates a resource's physics content into this world: copies
    /// every live source body, rebinds the cloned scene nodes to the new
    /// bodies, copies every live source collider (re-deriving trimesh
    /// geometry from the newly bound host nodes, logging and skipping a
    /// trimesh whose host body has no valid bound node), copies every live
    /// source joint across the new bodies, and records the whole remapping
    /// as a resource link.
    #[verifier::rlimit(100)]
    pub fn embed_resource(
        &mut self,
        target_binder: &mut PhysicsBinder,
        graph: &SceneSnapshot,
        remap: &NodeRemap,
        src_binder: &PhysicsBinder,
        resource: &Physics,
        model: u64,
        log: &mut Vec<LogEntry>,
    )
        requires
            old(self).wf(),
            resource.wf(),
            graph.wf(),
            old(target_binder).wf(),
            src_binder.wf(),
            forall|i: int, j: int|
                0 <= i < j < remap@.len() ==> (#[trigger] remap@[i]).from != (
                #[trigger] remap@[j]).from,
            forall|i: int, j: int|
                0 <= i < j < remap@.len() ==> (#[trigger] remap@[i]).to != (#[trigger] remap@[j]).to,
            forall|n: NodeHandle|
                #[trigger] graph.spec_is_valid(n) ==> graph.spec_node(n).triangles@.len()
                    < 0x1000_0000,
            old(self).spec_bodies().slot_count_spec() + resource.spec_bodies().slot_count_spec()
                < u32::MAX,
            old(self).spec_colliders().slot_count_spec()
                + resource.spec_colliders().slot_count_spec() < u32::MAX,
            old(self).spec_joints().slot_count_spec() + resource.spec_joints().slot_count_spec()
                < u32::MAX,
            old(self).spec_next_id() + resource.spec_bodies().slot_count_spec()
                + resource.spec_colliders().slot_count_spec()
                + resource.spec_joints().slot_count_spec() < u128::MAX,
        ensures
            final(self).wf(),
            final(target_binder).wf(),
            final(self).spec_gravity() == old(self).spec_gravity(),
            final(self).spec_integration_parameters() == old(self).spec_integration_parameters(),
            final(self).spec_desc() == old(self).spec_desc(),
            final(self).spec_embedded_resources() == old(self).spec_embedded_resources().push(
                final(self).spec_embedded_resources().last(),
            ),
            final(self).spec_embedded_resources().last().model == model,
            final(self).spec_embedded_resources().last().bodies.wf(),
            final(self).spec_embedded_resources().last().colliders.wf(),
            final(self).spec_embedded_resources().last().joints.wf(),
            final(self).spec_embedded_resources().last().bodies@.len()
                == resource.spec_bodies().live_count(),
            final(self).spec_embedded_resources().last().joints@.len()
                == resource.spec_joints().live_count(),
            final(self).spec_body_map()@.len() == old(self).spec_body_map()@.len() + final(self).spec_embedded_resources().last().bodies@.len(),
            final(self).spec_collider_map()@.len() == old(self).spec_collider_map()@.len() + final(self).spec_embedded_resources().last().colliders@.len(),
            final(self).spec_joint_map()@.len() == old(self).spec_joint_map()@.len() + final(self).spec_embedded_resources().last().joints@.len(),
            forall|i: int|
                0 <= i < resource.spec_bodies().slot_count_spec()
                    && #[trigger] resource.spec_bodies().live_at(i) ==> embedded_body_at(
                    *final(self),
                    *old(self),
                    *resource,
                    final(self).spec_embedded_resources().last().bodies,
                    i,
                ),
            forall|q: int|
                0 <= q < final(self).spec_embedded_resources().last().bodies@.len()
                    ==> body_pair_source_below(
                    *resource,
                    #[trigger] final(self).spec_embedded_resources().last().bodies@[q],
                    resource.spec_bodies().slot_count_spec() as int,
                ),
            forall|q: int|
                0 <= q < final(self).spec_embedded_resources().last().colliders@.len()
                    ==> collider_pair_ok(
                    *final(self),
                    *resource,
                    *final(target_binder),
                    *graph,
                    final(self).spec_embedded_resources().last().bodies,
                    #[trigger] final(self).spec_embedded_resources().last().colliders@[q],
                ),
            forall|q: int|
                0 <= q < final(self).spec_embedded_resources().last().colliders@.len()
                    ==> collider_pair_source_below(
                    *resource,
                    #[trigger] final(self).spec_embedded_resources().last().colliders@[q],
                    resource.spec_colliders().slot_count_spec() as int,
                ),
            forall|j: int|
                0 <= j < resource.spec_colliders().slot_count_spec()
                    && #[trigger] resource.spec_colliders().live_at(j) && !(
                crate::shape::desc_of_shape(resource.spec_colliders().val_at(j).shape)
                    is Trimesh) ==> final(self).spec_embedded_resources().last().colliders.has_from(
                    spec_engine_of(
                        resource.spec_collider_map(),
                        resource.spec_colliders(),
                        j,
                    ),
                ),
            forall|j: int, hb: u128|
                0 <= j < resource.spec_colliders().slot_count_spec()
                    && resource.spec_colliders().live_at(j) && (crate::shape::desc_of_shape(
                    resource.spec_colliders().val_at(j).shape,
                ) is Trimesh) && #[trigger] final(self).spec_embedded_resources().last().bodies.maps_to(parent_src_engine(*resource, j), hb)
                    && embed_trimesh_ok(*final(target_binder), *graph, hb) ==> final(self).spec_embedded_resources().last().colliders.has_from(
                    spec_engine_of(
                        resource.spec_collider_map(),
                        resource.spec_colliders(),
                        j,
                    ),
                ),
            forall|q: int|
                0 <= q < final(self).spec_embedded_resources().last().joints@.len()
                    ==> joint_pair_ok(
                    *final(self),
                    *resource,
                    final(self).spec_embedded_resources().last().bodies,
                    #[trigger] final(self).spec_embedded_resources().last().joints@[q],
                ),
            forall|m: int|
                0 <= m < resource.spec_joints().slot_count_spec()
                    && #[trigger] resource.spec_joints().live_at(m) ==> final(self).spec_embedded_resources().last().joints.has_from(
                    spec_engine_of(resource.spec_joint_map(), resource.spec_joints(), m),
                ),
            forall|n: NodeHandle, b: u128, nh: NodeHandle, hid: u128|
                #[trigger] src_binder.binds(n, b) && #[trigger] remap.maps(n, nh) && #[trigger]
                final(self).spec_embedded_resources().last().bodies.maps_to(b, hid) ==> final(target_binder).binds(nh, hid),
            forall|n2: NodeHandle, b2: u128|
                (forall|n: NodeHandle, b: u128| #[trigger] src_binder.binds(n, b) ==> !remap.maps(
                    n,
                    n2,
                )) ==> ((#[trigger] final(target_binder).binds(n2, b2)) <==> old(target_binder).binds(n2, b2)),
            old(log)@.is_prefix_of(final(log)@),
    {
        let ghost base = *old(self);
        let body_links = self.embed_bodies_of(resource);
        Physics::embed_rebind(target_binder, remap, src_binder, &body_links);
        let collider_links = self.embed_colliders_of(
            target_binder,
            graph,
            resource,
            &body_links,
            log,
            Ghost(base),
        );
        let joint_links = self.embed_joints_of(resource, &body_links, Ghost(base));
        let ghost pre = *self;
        self.embedded_resources.push(
            ResourceLink { model, bodies: body_links, colliders: collider_links, joints: joint_links },
        );
        proof {
            assert(self.spec_bodies() == pre.spec_bodies());
            assert(self.spec_colliders() == pre.spec_colliders());
            assert(self.spec_joints() == pre.spec_joints());
            assert(self.spec_body_map() == pre.spec_body_map());
            assert(self.spec_collider_map() == pre.spec_collider_map());
            assert(self.spec_joint_map() == pre.spec_joint_map());
            assert(self.spec_gravity() == pre.spec_gravity());
            assert(self.spec_integration_parameters() == pre.spec_integration_parameters());
            assert(self.spec_desc() == pre.spec_desc());
            assert(self.spec_next_id() == pre.spec_next_id());
            assert(self.spec_embedded_resources() == pre.spec_embedded_resources().push(
                self.spec_embedded_resources().last(),
            ));
            assert(self.spec_embedded_resources().last().bodies == body_links);
            assert(self.spec_embedded_resources().last().colliders == collider_links);
            assert(self.spec_embedded_resources().last().joints == joint_links);
            assert(self.wf());
            assert forall|h2: RigidBodyHandle| #[trigger] pre.spec_contains_body(h2)
                implies self.spec_contains_body(h2) && crate::entities::same_body_state(
                self.spec_body(h2),
                pre.spec_body(h2),
            ) by {
                assert(self.spec_body(h2) == pre.spec_body(h2));
            }
            assert forall|h2: ColliderHandle| #[trigger] pre.spec_contains_collider(h2)
                implies self.spec_contains_collider(h2) && self.spec_collider(h2)
                == pre.spec_collider(h2) by {
                assert(self.spec_collider_solver(h2) == pre.spec_collider_solver(h2));
            }
            assert forall|h2: JointHandle| #[trigger] pre.spec_contains_joint(h2)
                implies self.spec_contains_joint(h2) && self.spec_joint(h2) == pre.spec_joint(
                h2,
            ) by {
                assert(self.spec_joint_solver(h2) == pre.spec_joint_solver(h2));
            }
            assert forall|i: int|
                0 <= i < resource.spec_bodies().slot_count_spec()
                    && #[trigger] resource.spec_bodies().live_at(i) implies embedded_body_at(
                *self,
                *old(self),
                *resource,
                body_links,
                i,
            ) by {
                lemma_embedded_body_preserved(pre, *self, *old(self), *resource, body_links, i);
            }
            assert forall|q: int| 0 <= q < collider_links@.len() implies collider_pair_ok(
                *self,
                *resource,
                *target_binder,
                *graph,
                body_links,
                #[trigger] collider_links@[q],
            ) by {
                lemma_collider_pair_preserved(
                    pre,
                    *self,
                    *resource,
                    *target_binder,
                    *graph,
                    body_links,
                    collider_links@[q],
                );
            }
            assert forall|q: int| 0 <= q < joint_links@.len() implies joint_pair_ok(
                *self,
                *resource,
                body_links,
                #[trigger] joint_links@[q],
            ) by {
                lemma_joint_pair_preserved(pre, *self, *resource, body_links, joint_links@[q]);
            }
        }
    }

    /// Clears a body's sleeping flag, as removing a joint with wake-up
    /// requested does for both endpoints.
    fn wake_body(&mut self, s: SolverHandle)
        requires
            old(self).wf(),
            old(self).spec_bodies().contains(s),
        ensures
            final(self).wf(),
            final(self).spec_bodies().slot_count_spec() == old(
                self,
            ).spec_bodies().slot_count_spec(),
            final(self).spec_bodies().contains(s),
            final(self).spec_bodies().value_of(s) == (RigidBody {
                sleeping: false,
                ..old(self).spec_bodies().value_of(s)
            }),
            forall|sh: SolverHandle|
                sh != s ==> ((#[trigger] final(self).spec_bodies().contains(sh)) <==> old(
                    self,
                ).spec_bodies().contains(sh)),
            forall|sh: SolverHandle|
                sh != s && old(self).spec_bodies().contains(sh) ==> (
                #[trigger] final(self).spec_bodies().value_of(sh)) == old(
                    self,
                ).spec_bodies().value_of(sh),
            final(self).spec_colliders() == old(self).spec_colliders(),
            final(self).spec_joints() == old(self).spec_joints(),
            final(self).spec_body_map() == old(self).spec_body_map(),
            final(self).spec_collider_map() == old(self).spec_collider_map(),
            final(self).spec_joint_map() == old(self).spec_joint_map(),
            final(self).spec_next_id() == old(self).spec_next_id(),
            final(self).same_misc(*old(self)),
    {
        let b = self.bodies.borrow_mut(s);
        b.sleeping = false;
        proof {
            let pre = *old(self);
            assert(self.body_collider_lists_wf()) by {
                assert forall|i: int, k: int|
                    0 <= i < self.spec_bodies().slot_count_spec() && self.spec_bodies().live_at(i)
                        && 0 <= k < self.spec_bodies().val_at(i).colliders@.len() implies {
                    let ch = #[trigger] self.spec_bodies().val_at(i).colliders@[k];
                    &&& self.spec_colliders().contains(ch)
                    &&& self.spec_colliders().value_of(ch).parent == self.spec_bodies().handle_of(i)
                } by {
                    let ch = self.spec_bodies().val_at(i).colliders@[k];
                    if i == s.index as int {
                        assert(self.spec_bodies().val_at(i).colliders@
                            == pre.spec_bodies().val_at(i).colliders@);
                        assert(pre.spec_bodies().val_at(i).colliders@[k] == ch);
                        assert(pre.spec_colliders().contains(ch));
                        assert(pre.spec_bodies().handle_of(i) == self.spec_bodies().handle_of(i));
                    } else {
                        assert(pre.spec_bodies().val_at(i) == self.spec_bodies().val_at(i));
                        assert(pre.spec_colliders().contains(ch));
                    }
                }
            }
        }
    }

    /// Removes a joint.  An unknown or stale handle is reported as "not
    /// found", not fatal.  With wake-up requested, both endpoint bodies of
    /// the removed joint end up awake; without it, no body changes.
    pub fn remove_joint(&mut self, joint_handle: &JointHandle, wake_up: bool) -> (r: Option<Joint>)
        requires
            old(self).wf(),
        ensures
            final(self).wf(),
            match r {
                Some(j) => {
                    &&& old(self).spec_contains_joint(*joint_handle)
                    &&& j == old(self).spec_joint(*joint_handle)
                    &&& !final(self).spec_contains_joint(*joint_handle)
                    &&& final(self).spec_joint_map()@.len() == old(self).spec_joint_map()@.len()
                        - 1
                },
                None => !old(self).spec_contains_joint(*joint_handle) && *final(self) == *old(
                    self,
                ),
            },
            forall|h2: JointHandle|
                h2 != *joint_handle ==> ((#[trigger] final(self).spec_contains_joint(h2)) <==> old(
                    self,
                ).spec_contains_joint(h2)),
            forall|h2: JointHandle|
                h2 != *joint_handle && old(self).spec_contains_joint(h2) ==> (#[trigger] final(self).spec_joint(
                    h2,
                )) == old(self).spec_joint(h2),
            (!wake_up || r is None) ==> final(self).spec_bodies() == old(self).spec_bodies(),
            (wake_up && r is Some) ==> ({
                let j = old(self).spec_joint(*joint_handle);
                &&& final(self).spec_bodies().slot_count_spec() == old(
                    self,
                ).spec_bodies().slot_count_spec()
                &&& final(self).spec_bodies().contains(j.body1)
                &&& final(self).spec_bodies().contains(j.body2)
                &&& final(self).spec_bodies().value_of(j.body1) == (RigidBody {
                    sleeping: false,
                    ..old(self).spec_bodies().value_of(j.body1)
                })
                &&& final(self).spec_bodies().value_of(j.body2) == (RigidBody {
                    sleeping: false,
                    ..old(self).spec_bodies().value_of(j.body2)
                })
                &&& forall|sh: SolverHandle|
                    sh != j.body1 && sh != j.body2 ==> ((
                    #[trigger] final(self).spec_bodies().contains(sh)) <==> old(
                        self,
                    ).spec_bodies().contains(sh))
                &&& forall|sh: SolverHandle|
                    sh != j.body1 && sh != j.body2 && old(self).spec_bodies().contains(sh) ==> (
                    #[trigger] final(self).spec_bodies().value_of(sh)) == old(
                        self,
                    ).spec_bodies().value_of(sh)
            }),
            final(self).spec_colliders() == old(self).spec_colliders(),
            final(self).spec_body_map() == old(self).spec_body_map(),
            final(self).spec_collider_map() == old(self).spec_collider_map(),
            final(self).spec_next_id() == old(self).spec_next_id(),
            final(self).same_misc(*old(self)),
    {
        match self.joint_handle_map.remove_by_key(joint_handle.id) {
            Some(s) => {
                proof {
                    old(self).lemma_joint_lookup(*joint_handle, s);
                    assert(old(self).spec_joints().contains(s));
                }
                let j = match self.joints.free(s) {
                    Some(j) => j,
                    None => unreached(),
                };
                proof {
                    let pre = *old(self);
                    assert forall|h2: JointHandle|
                        h2 != *joint_handle && pre.spec_contains_joint(h2) implies (
                    #[trigger] self.spec_joint(h2)) == pre.spec_joint(h2) by {
                        let t = pre.spec_joint_map();
                        let iw = choose|iw: int|
                            0 <= iw < t@.len() && (#[trigger] t@[iw]).engine == h2.id;
                        assert(t.maps_to(h2.id, t@[iw].solver));
                        let s2 = pre.spec_joint_solver(h2);
                        assert(t.maps_to(h2.id, s2));
                        pre.lemma_joint_lookup(h2, s2);
                        assert(self.spec_joint_map().maps_to(h2.id, s2));
                        self.lemma_joint_lookup(h2, s2);
                        if s2 == s {
                            crate::table::lemma_solver_unique(t, h2.id, joint_handle.id, s);
                        }
                    }
                    assert forall|e: u128, s2: SolverHandle|
                        #[trigger] self.spec_joint_map().maps_to(e, s2) implies self.spec_joints().contains(
                        s2,
                    ) by {
                        assert(pre.spec_joint_map().maps_to(e, s2));
                        if s2 == s {
                            crate::table::lemma_solver_unique(
                                pre.spec_joint_map(),
                                e,
                                joint_handle.id,
                                s,
                            );
                        }
                    }
                    assert forall|i: int|
                        0 <= i < self.spec_joints().slot_count_spec()
                            && #[trigger] self.spec_joints().live_at(i) implies self.spec_joint_map().has_solver(
                        self.spec_joints().handle_of(i),
                    ) by {
                        assert(i != s.index as int);
                        assert(pre.spec_joints().live_at(i));
                        let hh = self.spec_joints().handle_of(i);
                        assert(pre.spec_joints().handle_of(i) == hh);
                        assert(pre.spec_joint_map().has_solver(hh));
                        assert((i as u32) as int == i);
                        assert(hh != s);
                    }
                    assert(table_ids_below(self.spec_joint_map(), self.spec_next_id())) by {
                        assert forall|i: int| 0 <= i < self.spec_joint_map()@.len() implies (
                        #[trigger] self.spec_joint_map()@[i]).engine < self.spec_next_id() by {
                            let e = self.spec_joint_map()@[i].engine;
                            assert(self.spec_joint_map().maps_to(e, self.spec_joint_map()@[i].solver));
                            assert(pre.spec_joint_map().maps_to(e, self.spec_joint_map()@[i].solver));
                            let k = choose|k: int|
                                0 <= k < pre.spec_joint_map()@.len() && (
                                #[trigger] pre.spec_joint_map()@[k]).engine == e
                                    && pre.spec_joint_map()@[k].solver == self.spec_joint_map()@[i].solver;
                            assert(pre.spec_joint_map()@[k].engine < pre.spec_next_id());
                        }
                    }
                    assert(self.spec_joint_map().wf());
                    assert(self.spec_joints().wf());
                    assert(table_pool_sync(self.spec_joint_map(), self.spec_joints()));
                    assert(table_pool_sync(self.spec_body_map(), self.spec_bodies()));
                    assert(table_pool_sync(self.spec_collider_map(), self.spec_colliders()));
                    assert(self.colliders_parents_live());
                    assert(self.joints_bodies_live());
                    assert(self.body_collider_lists_wf());
                    assert(j == old(self).spec_joint(*joint_handle));
                    assert(!self.spec_contains_joint(*joint_handle));
                }
                if wake_up {
                    proof {
                        assert(old(self).spec_joints().live_at(s.index as int));
                        assert(old(self).spec_joints().val_at(s.index as int) == j);
                        assert(old(self).spec_bodies().contains(j.body1));
                        assert(old(self).spec_bodies().contains(j.body2));
                        assert(self.spec_bodies().contains(j.body1));
                        assert(self.spec_bodies().contains(j.body2));
                    }
                    let ghost mid = *self;
                    self.wake_body(j.body1);
                    proof {
                        assert(self.spec_bodies().contains(j.body2));
                    }
                    let ghost mid2 = *self;
                    self.wake_body(j.body2);
                    proof {
                        assert(self.spec_joints() == mid.spec_joints());
                        assert(self.spec_joint_map() == mid.spec_joint_map());
                        assert forall|h2: JointHandle|
                            h2 != *joint_handle && old(self).spec_contains_joint(h2) implies (
                        #[trigger] self.spec_joint(h2)) == old(self).spec_joint(h2) by {
                            assert(mid.spec_joint(h2) == old(self).spec_joint(h2));
                            assert(self.spec_joint(h2) == mid.spec_joint(h2));
                        }
                        if j.body1 == j.body2 {
                            assert(self.spec_bodies().value_of(j.body1) == (RigidBody {
                                sleeping: false,
                                ..old(self).spec_bodies().value_of(j.body1)
                            }));
                        } else {
                            assert(self.spec_bodies().value_of(j.body1) == mid2.spec_bodies().value_of(
                                j.body1,
                            ));
                            assert(mid2.spec_bodies().value_of(j.body1) == (RigidBody {
                                sleeping: false,
                                ..mid.spec_bodies().value_of(j.body1)
                            }));
                        }
                    }
                }
                Some(j)
            },
            None => None,
        }
    }

    /// Removes a collider: frees its slot, purges its translation entry, and
    /// detaches it from its owning body's collider list.  An unknown or
    /// stale handle is reported as "not found", not fatal.
    pub fn remove_collider(&mut self, collider_handle: &ColliderHandle) -> (r: Option<Collider>)
        requires
            old(self).wf(),
        ensures
            final(self).wf(),
            match r {
                Some(c) => {
                    &&& old(self).spec_contains_collider(*collider_handle)
                    &&& c == old(self).spec_collider(*collider_handle)
                    &&& !final(self).spec_contains_collider(*collider_handle)
                    &&& final(self).spec_collider_map()@.len() == old(
                        self,
                    ).spec_collider_map()@.len() - 1
                },
                None => !old(self).spec_contains_collider(*collider_handle) && *final(self)
                    == *old(self),
            },
            forall|h2: ColliderHandle|
                h2 != *collider_handle ==> ((#[trigger] final(self).spec_contains_collider(h2))
                    <==> old(self).spec_contains_collider(h2)),
            forall|h2: ColliderHandle|
                h2 != *collider_handle && old(self).spec_contains_collider(h2) ==> (
                #[trigger] final(self).spec_collider(h2)) == old(self).spec_collider(h2),
            forall|h2: RigidBodyHandle|
                (#[trigger] final(self).spec_contains_body(h2)) <==> old(self).spec_contains_body(
                    h2,
                ),
            forall|h2: RigidBodyHandle|
                old(self).spec_contains_body(h2) ==> crate::entities::same_body_state(
                    #[trigger] final(self).spec_body(h2),
                    old(self).spec_body(h2),
                ),
            final(self).spec_joints() == old(self).spec_joints(),
            final(self).spec_body_map() == old(self).spec_body_map(),
            final(self).spec_joint_map() == old(self).spec_joint_map(),
            final(self).spec_next_id() == old(self).spec_next_id(),
            final(self).same_misc(*old(self)),
    {
        let s = match self.collider_handle_map.value_of(collider_handle.id) {
            Some(s) => s,
            None => {
                return None;
            },
        };
        proof {
            old(self).lemma_collider_lookup(*collider_handle, s);
            assert(old(self).spec_colliders().contains(s));
            assert(old(self).spec_colliders().live_at(s.index as int));
        }
        let parent = match self.colliders.get(s) {
            Some(c) => c.parent,
            None => unreached(),
        };
        self.collider_handle_map.remove_by_key(collider_handle.id);
        let c = match self.colliders.free(s) {
            Some(c) => c,
            None => unreached(),
        };
        proof {
            assert(old(self).spec_bodies().contains(parent));
        }
        let filtered = {
            let b = match self.bodies.get(parent) {
                Some(b) => b,
                None => unreached(),
            };
            let n = b.colliders.len();
            let mut filtered: Vec<SolverHandle> = Vec::new();
            let mut i: usize = 0;
            while i < n
                invariant
                    n == b.colliders@.len(),
                    i <= n,
                    forall|k: int|
                        0 <= k < filtered@.len() ==> (#[trigger] filtered@[k]) != s && exists|m: int|
                            0 <= m < i && b.colliders@[m] == filtered@[k],
                decreases n - i,
            {
                let ch = b.colliders[i];
                if !(ch.index == s.index && ch.generation == s.generation) {
                    filtered.push(ch);
                    proof {
                        assert(b.colliders@[i as int] == ch);
                    }
                }
                i += 1;
            }
            filtered
        };
        proof {
            assert(self.spec_bodies().contains(parent));
        }
        let ghost filtered_snap = filtered@;
        let ghost body_pre = self.spec_bodies().value_of(parent);
        let b = self.bodies.borrow_mut(parent);
        b.colliders = filtered;
        proof {
            let pre = *old(self);
            assert(self.spec_bodies().value_of(parent) == (RigidBody {
                colliders: self.spec_bodies().value_of(parent).colliders,
                ..body_pre
            }));
            assert(self.spec_bodies().value_of(parent).colliders@ == filtered_snap);
            assert forall|h2: ColliderHandle|
                h2 != *collider_handle && pre.spec_contains_collider(h2) implies (
            #[trigger] self.spec_collider(h2)) == pre.spec_collider(h2) by {
                let t = pre.spec_collider_map();
                let iw = choose|iw: int| 0 <= iw < t@.len() && (#[trigger] t@[iw]).engine == h2.id;
                assert(t.maps_to(h2.id, t@[iw].solver));
                let s2 = pre.spec_collider_solver(h2);
                assert(t.maps_to(h2.id, s2));
                pre.lemma_collider_lookup(h2, s2);
                assert(self.spec_collider_map().maps_to(h2.id, s2));
                self.lemma_collider_lookup(h2, s2);
                if s2 == s {
                    crate::table::lemma_solver_unique(t, h2.id, collider_handle.id, s);
                }
            }
            assert forall|e: u128, s2: SolverHandle|
                #[trigger] self.spec_collider_map().maps_to(e, s2) implies self.spec_colliders().contains(
                s2,
            ) by {
                assert(pre.spec_collider_map().maps_to(e, s2));
                if s2 == s {
                    crate::table::lemma_solver_unique(
                        pre.spec_collider_map(),
                        e,
                        collider_handle.id,
                        s,
                    );
                }
            }
            assert forall|i: int|
                0 <= i < self.spec_colliders().slot_count_spec()
                    && #[trigger] self.spec_colliders().live_at(i) implies self.spec_collider_map().has_solver(
                self.spec_colliders().handle_of(i),
            ) by {
                assert(i != s.index as int);
                assert(pre.spec_colliders().live_at(i));
                let hh = self.spec_colliders().handle_of(i);
                assert(pre.spec_colliders().handle_of(i) == hh);
                assert(pre.spec_collider_map().has_solver(hh));
                assert((i as u32) as int == i);
                assert(hh != s);
            }
            assert(table_ids_below(self.spec_collider_map(), self.spec_next_id())) by {
                assert forall|i: int| 0 <= i < self.spec_collider_map()@.len() implies (
                #[trigger] self.spec_collider_map()@[i]).engine < self.spec_next_id() by {
                    let e = self.spec_collider_map()@[i].engine;
                    assert(self.spec_collider_map().maps_to(e, self.spec_collider_map()@[i].solver));
                    assert(pre.spec_collider_map().maps_to(
                        e,
                        self.spec_collider_map()@[i].solver,
                    ));
                    let k = choose|k: int|
                        0 <= k < pre.spec_collider_map()@.len() && (
                        #[trigger] pre.spec_collider_map()@[k]).engine == e
                            && pre.spec_collider_map()@[k].solver
                            == self.spec_collider_map()@[i].solver;
                    assert(pre.spec_collider_map()@[k].engine < pre.spec_next_id());
                }
            }
            assert forall|h2: RigidBodyHandle|
                pre.spec_contains_body(h2) implies crate::entities::same_body_state(
                #[trigger] self.spec_body(h2),
                pre.spec_body(h2),
            ) by {
                let t = pre.spec_body_map();
                let iw = choose|iw: int| 0 <= iw < t@.len() && (#[trigger] t@[iw]).engine == h2.id;
                assert(t.maps_to(h2.id, t@[iw].solver));
                let s2 = pre.spec_body_solver(h2);
                assert(t.maps_to(h2.id, s2));
                pre.lemma_body_lookup(h2, s2);
                self.lemma_body_lookup(h2, s2);
                assert(pre.spec_bodies().contains(s2));
            }
            assert(self.body_collider_lists_wf()) by {
                assert forall|i: int, k: int|
                    0 <= i < self.spec_bodies().slot_count_spec() && self.spec_bodies().live_at(i)
                        && 0 <= k < self.spec_bodies().val_at(i).colliders@.len() implies {
                    let ch = #[trigger] self.spec_bodies().val_at(i).colliders@[k];
                    &&& self.spec_colliders().contains(ch)
                    &&& self.spec_colliders().value_of(ch).parent == self.spec_bodies().handle_of(i)
                } by {
                    let ch = self.spec_bodies().val_at(i).colliders@[k];
                    if i == parent.index as int {
                        assert(self.spec_bodies().val_at(i) == self.spec_bodies().value_of(parent));
                        assert(ch != s);
                        let m = choose|m: int|
                            0 <= m < body_pre.colliders@.len() && body_pre.colliders@[m] == ch;
                        assert(pre.spec_bodies().val_at(i).colliders@[m] == ch);
                        assert(pre.spec_colliders().contains(ch));
                        assert(pre.spec_bodies().handle_of(i) == parent);
                    } else {
                        assert(pre.spec_bodies().val_at(i) == self.spec_bodies().val_at(i));
                        assert(pre.spec_bodies().live_at(i));
                        assert(pre.spec_colliders().contains(ch));
                        assert(pre.spec_colliders().value_of(ch).parent == pre.spec_bodies().handle_of(
                            i,
                        ));
                        assert(ch != s) by {
                            if ch == s {
                                assert(pre.spec_colliders().value_of(s).parent == parent);
                                assert(pre.spec_bodies().handle_of(i) == parent);
                                assert((i as u32) as int == i);
                            }
                        }
                    }
                }
            }
            assert(self.colliders_parents_live()) by {
                assert forall|i: int|
                    0 <= i < self.spec_colliders().slot_count_spec()
                        && #[trigger] self.spec_colliders().live_at(i) implies self.spec_bodies().contains(
                    self.spec_colliders().val_at(i).parent,
                ) by {
                    assert(i != s.index as int);
                    assert(pre.spec_colliders().live_at(i));
                    assert(pre.spec_colliders().val_at(i) == self.spec_colliders().val_at(i));
                    assert(pre.spec_bodies().contains(pre.spec_colliders().val_at(i).parent));
                }
            }
            assert(self.joints_bodies_live()) by {
                assert forall|i: int|
                    0 <= i < self.spec_joints().slot_count_spec()
                        && #[trigger] self.spec_joints().live_at(i) implies self.spec_bodies().contains(
                    self.spec_joints().val_at(i).body1,
                ) && self.spec_bodies().contains(self.spec_joints().val_at(i).body2) by {
                    assert(pre.spec_joints().live_at(i));
                    assert(pre.spec_bodies().contains(pre.spec_joints().val_at(i).body1));
                    assert(pre.spec_bodies().contains(pre.spec_joints().val_at(i).body2));
                }
            }
        }
        Some(c)
    }

    /// Removes a rigid body, cascading: every collider it owns and every
    /// joint referencing it are removed first, and all affected entries are
    /// purged from all three translation tables.  An unknown or stale handle
    /// is reported as "not found", not fatal.
    #[verifier::rlimit(60)]
    pub fn remove_body(&mut self, rigid_body: &RigidBodyHandle) -> (r: Option<RigidBody>)
        requires
            old(self).wf(),
        ensures
            final(self).wf(),
            match r {
                Some(b) => {
                    &&& old(self).spec_contains_body(*rigid_body)
                    &&& b == old(self).spec_body(*rigid_body)
                    &&& !final(self).spec_contains_body(*rigid_body)
                    &&& final(self).spec_body_map()@.len() == old(self).spec_body_map()@.len() - 1
                },
                None => !old(self).spec_contains_body(*rigid_body) && *final(self) == *old(self),
            },
            forall|h2: RigidBodyHandle|
                h2 != *rigid_body ==> ((#[trigger] final(self).spec_contains_body(h2)) <==> old(
                    self,
                ).spec_contains_body(h2)),
            forall|h2: RigidBodyHandle|
                h2 != *rigid_body && old(self).spec_contains_body(h2) ==> (#[trigger] final(self).spec_body(
                    h2,
                )) == old(self).spec_body(h2),
            r is Some ==> forall|ch: ColliderHandle|
                (#[trigger] final(self).spec_contains_collider(ch)) <==> old(
                    self,
                ).spec_contains_collider(ch) && old(self).spec_collider(ch).parent != old(
                    self,
                ).spec_body_solver(*rigid_body),
            r is Some ==> forall|ch: ColliderHandle|
                final(self).spec_contains_collider(ch) ==> (#[trigger] final(self).spec_collider(
                    ch,
                )) == old(self).spec_collider(ch),
            r is Some ==> forall|jh: JointHandle|
                (#[trigger] final(self).spec_contains_joint(jh)) <==> old(
                    self,
                ).spec_contains_joint(jh) && old(self).spec_joint(jh).body1 != old(
                    self,
                ).spec_body_solver(*rigid_body) && old(self).spec_joint(jh).body2 != old(
                    self,
                ).spec_body_solver(*rigid_body),
            r is Some ==> forall|jh: JointHandle|
                final(self).spec_contains_joint(jh) ==> (#[trigger] final(self).spec_joint(jh))
                    == old(self).spec_joint(jh),
            final(self).spec_next_id() == old(self).spec_next_id(),
            final(self).same_misc(*old(self)),
    {
        let s = match self.body_handle_map.value_of(rigid_body.id) {
            Some(s) => s,
            None => {
                return None;
            },
        };
        proof {
            old(self).lemma_body_lookup(*rigid_body, s);
            assert(old(self).spec_bodies().contains(s));
            assert(old(self).spec_bodies().live_at(s.index as int));
        }
        // Remove the body's colliders first, purging their table entries.
        let ncol = self.colliders.slot_count();
        let mut i: usize = 0;
        while i < ncol
            invariant
                old(self).wf(),
                old(self).spec_body_map().maps_to(rigid_body.id, s),
                old(self).spec_bodies().contains(s),
                i <= ncol,
                ncol == self.spec_colliders().slot_count_spec(),
                ncol == old(self).spec_colliders().slot_count_spec(),
                self.spec_colliders().wf(),
                self.spec_collider_map().wf(),
                self.spec_bodies() == old(self).spec_bodies(),
                self.spec_joints() == old(self).spec_joints(),
                self.spec_body_map() == old(self).spec_body_map(),
                self.spec_joint_map() == old(self).spec_joint_map(),
                self.spec_next_id() == old(self).spec_next_id(),
                self.same_misc(*old(self)),
                forall|j: int|
                    i <= j < ncol ==> ((#[trigger] self.spec_colliders().live_at(j)) <==> old(
                        self,
                    ).spec_colliders().live_at(j)),
                forall|j: int|
                    i <= j < ncol ==> (#[trigger] self.spec_colliders().gen_at(j)) == old(
                        self,
                    ).spec_colliders().gen_at(j),
                forall|j: int|
                    i <= j < ncol && old(self).spec_colliders().live_at(j) ==> (
                    #[trigger] self.spec_colliders().val_at(j)) == old(self).spec_colliders().val_at(
                        j,
                    ),
                forall|j: int|
                    0 <= j < i ==> !((#[trigger] self.spec_colliders().live_at(j))
                        && self.spec_colliders().val_at(j).parent == s),
                forall|j: int|
                    0 <= j < ncol && (#[trigger] self.spec_colliders().live_at(j)) ==> old(
                        self,
                    ).spec_colliders().live_at(j) && self.spec_colliders().gen_at(j) == old(
                        self,
                    ).spec_colliders().gen_at(j) && self.spec_colliders().val_at(j) == old(
                        self,
                    ).spec_colliders().val_at(j),
                forall|j: int|
                    0 <= j < ncol && old(self).spec_colliders().live_at(j) && old(
                        self,
                    ).spec_colliders().val_at(j).parent != s ==> #[trigger] self.spec_colliders().live_at(
                        j,
                    ),
                forall|e: u128, s2: SolverHandle|
                    (#[trigger] self.spec_collider_map().maps_to(e, s2)) <==> old(
                        self,
                    ).spec_collider_map().maps_to(e, s2) && self.spec_colliders().contains(s2),
                forall|j: int|
                    0 <= j < ncol && (#[trigger] self.spec_colliders().live_at(j))
                        ==> self.spec_collider_map().has_solver(self.spec_colliders().handle_of(j)),
            decreases ncol - i,
        {
            let to_remove = match self.colliders.handle_at(i) {
                Some(ch) => {
                    match self.colliders.get(ch) {
                        Some(c) => {
                            if c.parent.index == s.index && c.parent.generation == s.generation {
                                Some(ch)
                            } else {
                                None
                            }
                        },
                        None => None,
                    }
                },
                None => None,
            };
            match to_remove {
                Some(ch) => {
                    proof {
                        assert(self.spec_colliders().contains(ch));
                        assert(ch.index as int == i as int);
                    }
                    self.collider_handle_map.remove_by_value(ch);
                    let ghost cpool = self.spec_colliders();
                    let freed = self.colliders.free(ch);
                    proof {
                        assert(freed is Some);
                        assert forall|j: int| i as int + 1 <= j < ncol implies {
                            &&& ((#[trigger] self.spec_colliders().live_at(j)) <==> old(
                                self,
                            ).spec_colliders().live_at(j))
                            &&& self.spec_colliders().gen_at(j) == old(self).spec_colliders().gen_at(
                                j,
                            )
                            &&& (old(self).spec_colliders().live_at(j)
                                ==> self.spec_colliders().val_at(j) == old(
                                self,
                            ).spec_colliders().val_at(j))
                        } by {
                            assert(j != ch.index as int);
                            assert(self.spec_colliders().slot_count_spec() == ncol);
                            assert(self.spec_colliders().live_at(j) <==> cpool.live_at(j));
                            assert(self.spec_colliders().gen_at(j) == cpool.gen_at(j));
                            assert(cpool.live_at(j) ==> self.spec_colliders().val_at(j)
                                == cpool.val_at(j));
                            assert(cpool.live_at(j) <==> old(self).spec_colliders().live_at(j));
                            assert(cpool.gen_at(j) == old(self).spec_colliders().gen_at(j));
                            assert(old(self).spec_colliders().live_at(j) ==> cpool.val_at(j)
                                == old(self).spec_colliders().val_at(j));
                        }
                    }
                },
                None => {},
            }
            i += 1;
        }
        // Remove the joints referencing the body, purging their entries.
        let njoint = self.joints.slot_count();
        let ghost mid = *self;
        let mut i2: usize = 0;
        while i2 < njoint
            invariant
                old(self).wf(),
                old(self).spec_body_map().maps_to(rigid_body.id, s),
                old(self).spec_bodies().contains(s),
                i2 <= njoint,
                njoint == self.spec_joints().slot_count_spec(),
                njoint == old(self).spec_joints().slot_count_spec(),
                self.spec_joints().wf(),
                self.spec_joint_map().wf(),
                self.spec_bodies() == mid.spec_bodies(),
                self.spec_colliders() == mid.spec_colliders(),
                self.spec_body_map() == mid.spec_body_map(),
                self.spec_collider_map() == mid.spec_collider_map(),
                self.spec_next_id() == mid.spec_next_id(),
                self.same_misc(mid),
                mid.spec_joints() == old(self).spec_joints(),
                mid.spec_joint_map() == old(self).spec_joint_map(),
                forall|j: int|
                    i2 <= j < njoint ==> ((#[trigger] self.spec_joints().live_at(j)) <==> old(
                        self,
                    ).spec_joints().live_at(j)),
                forall|j: int|
                    i2 <= j < njoint ==> (#[trigger] self.spec_joints().gen_at(j)) == old(
                        self,
                    ).spec_joints().gen_at(j),
                forall|j: int|
                    i2 <= j < njoint && old(self).spec_joints().live_at(j) ==> (
                    #[trigger] self.spec_joints().val_at(j)) == old(self).spec_joints().val_at(j),
                forall|j: int|
                    0 <= j < i2 ==> !((#[trigger] self.spec_joints().live_at(j)) && (
                    self.spec_joints().val_at(j).body1 == s || self.spec_joints().val_at(j).body2
                        == s)),
                forall|j: int|
                    0 <= j < njoint && (#[trigger] self.spec_joints().live_at(j)) ==> old(
                        self,
                    ).spec_joints().live_at(j) && self.spec_joints().gen_at(j) == old(
                        self,
                    ).spec_joints().gen_at(j) && self.spec_joints().val_at(j) == old(
                        self,
                    ).spec_joints().val_at(j),
                forall|j: int|
                    0 <= j < njoint && old(self).spec_joints().live_at(j) && old(
                        self,
                    ).spec_joints().val_at(j).body1 != s && old(self).spec_joints().val_at(
                        j,
                    ).body2 != s ==> #[trigger] self.spec_joints().live_at(j),
                forall|e: u128, s2: SolverHandle|
                    (#[trigger] self.spec_joint_map().maps_to(e, s2)) <==> old(
                        self,
                    ).spec_joint_map().maps_to(e, s2) && self.spec_joints().contains(s2),
                forall|j: int|
                    0 <= j < njoint && (#[trigger] self.spec_joints().live_at(j))
                        ==> self.spec_joint_map().has_solver(self.spec_joints().handle_of(j)),
            decreases njoint - i2,
        {
            let to_remove = match self.joints.handle_at(i2) {
                Some(jh) => {
                    match self.joints.get(jh) {
                        Some(j) => {
                            let hits1 = j.body1.index == s.index && j.body1.generation
                                == s.generation;
                            let hits2 = j.body2.index == s.index && j.body2.generation
                                == s.generation;
                            if hits1 || hits2 {
                                Some(jh)
                            } else {
                                None
                            }
                        },
                        None => None,
                    }
                },
                None => None,
            };
            match to_remove {
                Some(jh) => {
                    proof {
                        assert(self.spec_joints().contains(jh));
                        assert(jh.index as int == i2 as int);
                    }
                    self.joint_handle_map.remove_by_value(jh);
                    let ghost jpool = self.spec_joints();
                    let freed = self.joints.free(jh);
                    proof {
                        assert(freed is Some);
                        assert forall|j: int| i2 as int + 1 <= j < njoint implies {
                            &&& ((#[trigger] self.spec_joints().live_at(j)) <==> old(
                                self,
                            ).spec_joints().live_at(j))
                            &&& self.spec_joints().gen_at(j) == old(self).spec_joints().gen_at(j)
                            &&& (old(self).spec_joints().live_at(j) ==> self.spec_joints().val_at(
                                j,
                            ) == old(self).spec_joints().val_at(j))
                        } by {
                            assert(j != jh.index as int);
                            assert(self.spec_joints().slot_count_spec() == njoint);
                            assert(self.spec_joints().live_at(j) <==> jpool.live_at(j));
                            assert(self.spec_joints().gen_at(j) == jpool.gen_at(j));
                            assert(jpool.live_at(j) ==> self.spec_joints().val_at(j)
                                == jpool.val_at(j));
                            assert(jpool.live_at(j) <==> old(self).spec_joints().live_at(j));
                            assert(jpool.gen_at(j) == old(self).spec_joints().gen_at(j));
                            assert(old(self).spec_joints().live_at(j) ==> jpool.val_at(j) == old(
                                self,
                            ).spec_joints().val_at(j));
                        }
                    }
                },
                None => {},
            }
            i2 += 1;
        }
        // Purge the body's own table entry and free it last.
        let ghost mid2 = *self;
        let removed = self.body_handle_map.remove_by_key(rigid_body.id);
        proof {
            if removed is None {
                assert(false);
            }
            crate::table::lemma_maps_to_unique(
                old(self).spec_body_map(),
                rigid_body.id,
                s,
                removed->Some_0,
            );
        }
        let body = match self.bodies.free(s) {
            Some(b) => b,
            None => unreached(),
        };
        proof {
            let pre = *old(self);
            // The body's own translation and slot are gone; everything else
            // survives exactly as it was.
            assert(body == pre.spec_body(*rigid_body));
            assert forall|h2: RigidBodyHandle|
                h2 != *rigid_body implies ((#[trigger] self.spec_contains_body(h2)) <==> pre.spec_contains_body(
                h2,
            )) by {
                assert(h2.id != rigid_body.id);
            }
            assert forall|h2: RigidBodyHandle|
                h2 != *rigid_body && pre.spec_contains_body(h2) implies (
            #[trigger] self.spec_body(h2)) == pre.spec_body(h2) by {
                let t = pre.spec_body_map();
                let iw = choose|iw: int| 0 <= iw < t@.len() && (#[trigger] t@[iw]).engine == h2.id;
                assert(t.maps_to(h2.id, t@[iw].solver));
                let s2 = pre.spec_body_solver(h2);
                assert(t.maps_to(h2.id, s2));
                pre.lemma_body_lookup(h2, s2);
                if s2 == s {
                    crate::table::lemma_solver_unique(t, h2.id, rigid_body.id, s);
                }
                assert(self.spec_body_map().maps_to(h2.id, s2));
                self.lemma_body_lookup(h2, s2);
                assert(pre.spec_bodies().contains(s2));
            }
            // Collider cascade, both directions.
            assert forall|ch: ColliderHandle| (#[trigger] self.spec_contains_collider(ch))
                <==> pre.spec_contains_collider(ch) && pre.spec_collider(ch).parent != s by {
                if self.spec_contains_collider(ch) {
                    let t = self.spec_collider_map();
                    let iw = choose|iw: int|
                        0 <= iw < t@.len() && (#[trigger] t@[iw]).engine == ch.id;
                    assert(t.maps_to(ch.id, t@[iw].solver));
                    let s2 = t@[iw].solver;
                    assert(pre.spec_collider_map().maps_to(ch.id, s2));
                    pre.lemma_collider_lookup(ch, s2);
                    assert(mid.spec_colliders().contains(s2));
                    assert(mid.spec_colliders().live_at(s2.index as int));
                    assert(pre.spec_colliders().val_at(s2.index as int).parent != s);
                }
                if pre.spec_contains_collider(ch) && pre.spec_collider(ch).parent != s {
                    let t = pre.spec_collider_map();
                    let iw = choose|iw: int|
                        0 <= iw < t@.len() && (#[trigger] t@[iw]).engine == ch.id;
                    assert(t.maps_to(ch.id, t@[iw].solver));
                    let s2 = pre.spec_collider_solver(ch);
                    assert(t.maps_to(ch.id, s2));
                    pre.lemma_collider_lookup(ch, s2);
                    assert(pre.spec_colliders().contains(s2));
                    assert(pre.spec_colliders().live_at(s2.index as int));
                    assert(pre.spec_colliders().val_at(s2.index as int).parent != s);
                    assert(mid.spec_colliders().live_at(s2.index as int));
                    assert(mid.spec_colliders().gen_at(s2.index as int) == pre.spec_colliders().gen_at(
                        s2.index as int,
                    ));
                    assert(mid.spec_colliders().contains(s2));
                    assert(self.spec_collider_map().maps_to(ch.id, s2));
                }
            }
            assert forall|ch: ColliderHandle| self.spec_contains_collider(ch) implies (
            #[trigger] self.spec_collider(ch)) == pre.spec_collider(ch) by {
                let t = self.spec_collider_map();
                let iw = choose|iw: int| 0 <= iw < t@.len() && (#[trigger] t@[iw]).engine == ch.id;
                assert(t.maps_to(ch.id, t@[iw].solver));
                let s2 = t@[iw].solver;
                assert(pre.spec_collider_map().maps_to(ch.id, s2));
                pre.lemma_collider_lookup(ch, s2);
                self.lemma_collider_lookup(ch, s2);
                assert(mid.spec_colliders().contains(s2));
                assert(mid.spec_colliders().live_at(s2.index as int));
            }
            // Joint cascade, both directions.
            assert forall|jh: JointHandle| (#[trigger] self.spec_contains_joint(jh))
                <==> pre.spec_contains_joint(jh) && pre.spec_joint(jh).body1 != s
                && pre.spec_joint(jh).body2 != s by {
                if self.spec_contains_joint(jh) {
                    let t = self.spec_joint_map();
                    let iw = choose|iw: int|
                        0 <= iw < t@.len() && (#[trigger] t@[iw]).engine == jh.id;
                    assert(t.maps_to(jh.id, t@[iw].solver));
                    let s2 = t@[iw].solver;
                    assert(pre.spec_joint_map().maps_to(jh.id, s2));
                    pre.lemma_joint_lookup(jh, s2);
                    assert(mid2.spec_joints().contains(s2));
                    assert(mid2.spec_joints().live_at(s2.index as int));
                    assert(!(pre.spec_joints().val_at(s2.index as int).body1 == s
                        || pre.spec_joints().val_at(s2.index as int).body2 == s));
                }
                if pre.spec_contains_joint(jh) && pre.spec_joint(jh).body1 != s
                    && pre.spec_joint(jh).body2 != s {
                    let t = pre.spec_joint_map();
                    let iw = choose|iw: int|
                        0 <= iw < t@.len() && (#[trigger] t@[iw]).engine == jh.id;
                    assert(t.maps_to(jh.id, t@[iw].solver));
                    let s2 = pre.spec_joint_solver(jh);
                    assert(t.maps_to(jh.id, s2));
                    pre.lemma_joint_lookup(jh, s2);
                    assert(pre.spec_joints().contains(s2));
                    assert(pre.spec_joints().live_at(s2.index as int));
                    assert(pre.spec_joints().val_at(s2.index as int).body1 != s);
                    assert(pre.spec_joints().val_at(s2.index as int).body2 != s);
                    assert(mid2.spec_joints().live_at(s2.index as int));
                    assert(mid2.spec_joints().gen_at(s2.index as int) == pre.spec_joints().gen_at(
                        s2.index as int,
                    ));
                    assert(mid2.spec_joints().contains(s2));
                    assert(self.spec_joint_map().maps_to(jh.id, s2));
                }
            }
            assert forall|jh: JointHandle| self.spec_contains_joint(jh) implies (
            #[trigger] self.spec_joint(jh)) == pre.spec_joint(jh) by {
                let t = self.spec_joint_map();
                let iw = choose|iw: int| 0 <= iw < t@.len() && (#[trigger] t@[iw]).engine == jh.id;
                assert(t.maps_to(jh.id, t@[iw].solver));
                let s2 = t@[iw].solver;
                assert(pre.spec_joint_map().maps_to(jh.id, s2));
                pre.lemma_joint_lookup(jh, s2);
                self.lemma_joint_lookup(jh, s2);
                assert(mid2.spec_joints().contains(s2));
                assert(mid2.spec_joints().live_at(s2.index as int));
            }
            // The invariant, piece by piece.
            assert forall|e: u128, s2: SolverHandle|
                #[trigger] self.spec_body_map().maps_to(e, s2) implies self.spec_bodies().contains(
                s2,
            ) by {
                assert(pre.spec_body_map().maps_to(e, s2));
                assert(e != rigid_body.id);
                if s2 == s {
                    crate::table::lemma_solver_unique(pre.spec_body_map(), e, rigid_body.id, s);
                }
                assert(pre.spec_bodies().contains(s2));
            }
            assert forall|j: int|
                0 <= j < self.spec_bodies().slot_count_spec()
                    && #[trigger] self.spec_bodies().live_at(j) implies self.spec_body_map().has_solver(
                self.spec_bodies().handle_of(j),
            ) by {
                assert(j != s.index as int);
                assert(pre.spec_bodies().live_at(j));
                let hh = self.spec_bodies().handle_of(j);
                assert(pre.spec_bodies().handle_of(j) == hh);
                assert(pre.spec_body_map().has_solver(hh));
                assert((j as u32) as int == j);
                assert(hh != s);
            }
            assert forall|e: u128, s2: SolverHandle|
                #[trigger] self.spec_collider_map().maps_to(e, s2) implies self.spec_colliders().contains(
                s2,
            ) by {
                assert(mid.spec_colliders().contains(s2));
            }
            assert forall|e: u128, s2: SolverHandle|
                #[trigger] self.spec_joint_map().maps_to(e, s2) implies self.spec_joints().contains(
                s2,
            ) by {
                assert(mid2.spec_joints().contains(s2));
            }
            assert(table_ids_below(self.spec_body_map(), self.spec_next_id())) by {
                assert forall|k: int| 0 <= k < self.spec_body_map()@.len() implies (
                #[trigger] self.spec_body_map()@[k]).engine < self.spec_next_id() by {
                    let e = self.spec_body_map()@[k].engine;
                    assert(self.spec_body_map().maps_to(e, self.spec_body_map()@[k].solver));
                    assert(pre.spec_body_map().maps_to(e, self.spec_body_map()@[k].solver));
                    let kk = choose|kk: int|
                        0 <= kk < pre.spec_body_map()@.len() && (
                        #[trigger] pre.spec_body_map()@[kk]).engine == e;
                    assert(pre.spec_body_map()@[kk].engine < pre.spec_next_id());
                }
            }
            assert(table_ids_below(self.spec_collider_map(), self.spec_next_id())) by {
                assert forall|k: int| 0 <= k < self.spec_collider_map()@.len() implies (
                #[trigger] self.spec_collider_map()@[k]).engine < self.spec_next_id() by {
                    let e = self.spec_collider_map()@[k].engine;
                    assert(self.spec_collider_map().maps_to(
                        e,
                        self.spec_collider_map()@[k].solver,
                    ));
                    assert(pre.spec_collider_map().maps_to(
                        e,
                        self.spec_collider_map()@[k].solver,
                    ));
                    let kk = choose|kk: int|
                        0 <= kk < pre.spec_collider_map()@.len() && (
                        #[trigger] pre.spec_collider_map()@[kk]).engine == e;
                    assert(pre.spec_collider_map()@[kk].engine < pre.spec_next_id());
                }
            }
            assert(table_ids_below(self.spec_joint_map(), self.spec_next_id())) by {
                assert forall|k: int| 0 <= k < self.spec_joint_map()@.len() implies (
                #[trigger] self.spec_joint_map()@[k]).engine < self.spec_next_id() by {
                    let e = self.spec_joint_map()@[k].engine;
                    assert(self.spec_joint_map().maps_to(e, self.spec_joint_map()@[k].solver));
                    assert(pre.spec_joint_map().maps_to(e, self.spec_joint_map()@[k].solver));
                    let kk = choose|kk: int|
                        0 <= kk < pre.spec_joint_map()@.len() && (
                        #[trigger] pre.spec_joint_map()@[kk]).engine == e;
                    assert(pre.spec_joint_map()@[kk].engine < pre.spec_next_id());
                }
            }
            assert(self.colliders_parents_live()) by {
                assert forall|j: int|
                    0 <= j < self.spec_colliders().slot_count_spec()
                        && #[trigger] self.spec_colliders().live_at(j) implies self.spec_bodies().contains(
                    self.spec_colliders().val_at(j).parent,
                ) by {
                    assert(pre.spec_colliders().live_at(j));
                    assert(self.spec_colliders().val_at(j) == pre.spec_colliders().val_at(j));
                    let p = pre.spec_colliders().val_at(j).parent;
                    assert(p != s);
                    assert(pre.spec_bodies().contains(p));
                }
            }
            assert(self.joints_bodies_live()) by {
                assert forall|j: int|
                    0 <= j < self.spec_joints().slot_count_spec()
                        && #[trigger] self.spec_joints().live_at(j) implies self.spec_bodies().contains(
                    self.spec_joints().val_at(j).body1,
                ) && self.spec_bodies().contains(self.spec_joints().val_at(j).body2) by {
                    assert(pre.spec_joints().live_at(j));
                    assert(self.spec_joints().val_at(j) == pre.spec_joints().val_at(j));
                    assert(self.spec_joints().val_at(j).body1 != s);
                    assert(self.spec_joints().val_at(j).body2 != s);
                    assert(pre.spec_bodies().contains(pre.spec_joints().val_at(j).body1));
                    assert(pre.spec_bodies().contains(pre.spec_joints().val_at(j).body2));
                }
            }
            assert(self.body_collider_lists_wf()) by {
                assert forall|j: int, k: int|
                    0 <= j < self.spec_bodies().slot_count_spec() && self.spec_bodies().live_at(j)
                        && 0 <= k < self.spec_bodies().val_at(j).colliders@.len() implies {
                    let ch = #[trigger] self.spec_bodies().val_at(j).colliders@[k];
                    &&& self.spec_colliders().contains(ch)
                    &&& self.spec_colliders().value_of(ch).parent == self.spec_bodies().handle_of(j)
                } by {
                    let ch = self.spec_bodies().val_at(j).colliders@[k];
                    assert(j != s.index as int);
                    assert(pre.spec_bodies().live_at(j));
                    assert(self.spec_bodies().val_at(j) == pre.spec_bodies().val_at(j));
                    assert(pre.spec_bodies().val_at(j).colliders@[k] == ch);
                    assert(pre.spec_colliders().contains(ch));
                    assert(pre.spec_colliders().value_of(ch).parent == pre.spec_bodies().handle_of(
                        j,
                    ));
                    assert((j as u32) as int == j);
                    assert(pre.spec_bodies().handle_of(j) != s);
                    assert(pre.spec_colliders().val_at(ch.index as int).parent != s);
                    assert(mid.spec_colliders().live_at(ch.index as int));
                    assert(mid.spec_colliders().gen_at(ch.index as int) == pre.spec_colliders().gen_at(
                        ch.index as int,
                    ));
                    assert(mid.spec_colliders().contains(ch));
                    assert(mid.spec_colliders().val_at(ch.index as int) == pre.spec_colliders().val_at(
                        ch.index as int,
                    ));
                    assert(self.spec_bodies().handle_of(j) == pre.spec_bodies().handle_of(j));
                }
            }
        }
        Some(body)
    }
}

impl Default for Physics {
    /// The default world is a fresh empty world with the stock
    /// configuration.
    fn default() -> (r: Physics)
        ensures
            r.wf(),
            r.spec_bodies().slot_count_spec() == 0,
            r.spec_colliders().slot_count_spec() == 0,
            r.spec_joints().slot_count_spec() == 0,
            (r.spec_desc() is None),
    {
        Physics::new()
    }
}

} // verus!
