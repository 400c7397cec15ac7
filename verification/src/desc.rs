//! Serialization-safe descriptors: plain, engine-handle-referencing value
//! types mirroring one live entity's defining state.  Descriptors are the
//! only representation of the world that is ever persisted.

use vstd::prelude::*;

use crate::entities::{BodyStatusDesc, Collider, Joint, JointParamsDesc, RigidBody};
use crate::handles::{ColliderHandle, RigidBodyHandle, SolverHandle};
use crate::math::{
    spec_identity_rotation, spec_zero_vector, Isometry, Scalar, UnitQuaternion, Vector3, BITS_HALF,
    BITS_NEG_9_81, BITS_ONE, BITS_ZERO,
};
use crate::shape::{desc_of_shape, shape_matches_desc, BallDesc, ColliderShapeDesc};
use crate::table::HandleTable;

verus! {

/// Serializable snapshot of one rigid body.  Attached colliders are recorded
/// as stable engine handles.
#[derive(Clone, PartialEq, Debug)]
pub struct RigidBodyDesc {
    pub position: Vector3,
    pub rotation: UnitQuaternion,
    pub linvel: Vector3,
    pub angvel: Vector3,
    pub sleeping: bool,
    pub status: BodyStatusDesc,
    pub colliders: Vec<ColliderHandle>,
    pub mass: Scalar,
    pub x_rotation_locked: bool,
    pub y_rotation_locked: bool,
    pub z_rotation_locked: bool,
    pub translation_locked: bool,
}

/// The defining state a body descriptor shares with a live body, everything
/// except the collider list, which is rebuilt when colliders materialize.
pub open spec fn body_state_eq_desc(b: RigidBody, d: RigidBodyDesc) -> bool {
    &&& b.position == d.position
    &&& b.rotation == d.rotation
    &&& b.linvel == d.linvel
    &&& b.angvel == d.angvel
    &&& b.sleeping == d.sleeping
    &&& b.status == d.status
    &&& b.mass == d.mass
    &&& b.x_rotation_locked == d.x_rotation_locked
    &&& b.y_rotation_locked == d.y_rotation_locked
    &&& b.z_rotation_locked == d.z_rotation_locked
    &&& b.translation_locked == d.translation_locked
}

impl RigidBodyDesc {
    /// Snapshots a live body, recording its attached colliders as engine
    /// handles through the collider translation table.
    pub fn from_body(body: &RigidBody, handle_map: &HandleTable) -> (r: RigidBodyDesc)
        requires
            forall|i: int|
                0 <= i < body.colliders@.len() ==> handle_map.has_solver(
                    #[trigger] body.colliders@[i],
                ),
        ensures
            body_state_eq_desc(*body, r),
            r.colliders@.len() == body.colliders@.len(),
            forall|i: int|
                0 <= i < r.colliders@.len() ==> handle_map.maps_to(
                    (#[trigger] r.colliders@[i]).id,
                    body.colliders@[i],
                ),
    {
        let mut colliders: Vec<ColliderHandle> = Vec::new();
        let n = body.colliders.len();
        let mut i: usize = 0;
        while i < n
            invariant
                n == body.colliders@.len(),
                i <= n,
                colliders@.len() == i,
                forall|j: int|
                    0 <= j < body.colliders@.len() ==> handle_map.has_solver(
                        #[trigger] body.colliders@[j],
                    ),
                forall|j: int|
                    0 <= j < i ==> handle_map.maps_to(
                        (#[trigger] colliders@[j]).id,
                        body.colliders@[j],
                    ),
            decreases n - i,
        {
            let sh = body.colliders[i];
            match handle_map.key_of(sh) {
                Some(e) => colliders.push(ColliderHandle { id: e }),
                None => {
                    proof {
                        assert(handle_map.has_solver(body.colliders@[i as int]));
                    }
                    unreached()
                },
            }
            i += 1;
        }
        RigidBodyDesc {
            position: body.position,
            rotation: body.rotation,
            linvel: body.linvel,
            angvel: body.angvel,
            sleeping: body.sleeping,
            status: body.status,
            colliders,
            mass: body.mass,
            x_rotation_locked: body.x_rotation_locked,
            y_rotation_locked: body.y_rotation_locked,
            z_rotation_locked: body.z_rotation_locked,
            translation_locked: body.translation_locked,
        }
    }

    /// Materializes the live body this descriptor stands for.  The collider
    /// list starts empty; colliders attach themselves when they materialize.
    pub fn convert_to_body(&self) -> (r: RigidBody)
        ensures
            body_state_eq_desc(r, *self),
            r.colliders@ =~= Seq::<SolverHandle>::empty(),
    {
        RigidBody {
            position: self.position,
            rotation: self.rotation,
            linvel: self.linvel,
            angvel: self.angvel,
            sleeping: self.sleeping,
            status: self.status,
            mass: self.mass,
            x_rotation_locked: self.x_rotation_locked,
            y_rotation_locked: self.y_rotation_locked,
            z_rotation_locked: self.z_rotation_locked,
            translation_locked: self.translation_locked,
            colliders: Vec::new(),
        }
    }

    /// The body's placement as a rigid transform.
    pub fn local_transform(&self) -> (r: Isometry)
        ensures
            r == (Isometry { rotation: self.rotation, translation: self.position }),
    {
        Isometry { rotation: self.rotation, translation: self.position }
    }
}

impl Default for RigidBodyDesc {
    /// An identity-placed, unit-mass dynamic body with no colliders.
    fn default() -> (r: RigidBodyDesc)
        ensures
            r.position == spec_zero_vector(),
            r.rotation == spec_identity_rotation(),
            r.linvel == spec_zero_vector(),
            r.angvel == spec_zero_vector(),
            r.sleeping == false,
            r.status == BodyStatusDesc::Dynamic,
            r.colliders@.len() == 0,
            r.mass == (Scalar { bits: BITS_ONE }),
            r.x_rotation_locked == false,
            r.y_rotation_locked == false,
            r.z_rotation_locked == false,
            r.translation_locked == false,
    {
        RigidBodyDesc {
            position: Vector3::zero(),
            rotation: UnitQuaternion::identity(),
            linvel: Vector3::zero(),
            angvel: Vector3::zero(),
            sleeping: false,
            status: BodyStatusDesc::Dynamic,
            colliders: Vec::new(),
            mass: Scalar::one(),
            x_rotation_locked: false,
            y_rotation_locked: false,
            z_rotation_locked: false,
            translation_locked: false,
        }
    }
}

/// Serializable snapshot of one collider.  The owning body is recorded as a
/// stable engine handle.
#[derive(Clone, Copy, PartialEq, Debug)]
pub struct ColliderDesc {
    pub shape: ColliderShapeDesc,
    pub parent: RigidBodyHandle,
    pub friction: Scalar,
    pub density: Option<Scalar>,
    pub restitution: Scalar,
    pub is_sensor: bool,
    pub translation: Vector3,
    pub rotation: UnitQuaternion,
    pub collision_groups: u32,
    pub solver_groups: u32,
}

/// The defining state a collider descriptor shares with a live collider,
/// everything except the shape and the owning body reference.
pub open spec fn collider_state_eq_desc(c: Collider, d: ColliderDesc) -> bool {
    &&& c.friction == d.friction
    &&& c.density == d.density
    &&& c.restitution == d.restitution
    &&& c.is_sensor == d.is_sensor
    &&& c.translation == d.translation
    &&& c.rotation == d.rotation
    &&& c.collision_groups == d.collision_groups
    &&& c.solver_groups == d.solver_groups
}

impl ColliderDesc {
    /// Snapshots a live collider, recording its owning body as an engine
    /// handle through the body translation table.
    pub fn from_collider(collider: &Collider, handle_map: &HandleTable) -> (r: ColliderDesc)
        requires
            handle_map.has_solver(collider.parent),
        ensures
            collider_state_eq_desc(*collider, r),
            r.shape == desc_of_shape(collider.shape),
            handle_map.maps_to(r.parent.id, collider.parent),
    {
        let parent = match handle_map.key_of(collider.parent) {
            Some(e) => RigidBodyHandle { id: e },
            None => unreached(),
        };
        ColliderDesc {
            shape: ColliderShapeDesc::from_collider_shape(&collider.shape),
            parent,
            friction: collider.friction,
            density: collider.density,
            restitution: collider.restitution,
            is_sensor: collider.is_sensor,
            translation: collider.translation,
            rotation: collider.rotation,
            collision_groups: collider.collision_groups,
            solver_groups: collider.solver_groups,
        }
    }

    /// Materializes the live collider this descriptor stands for, paired
    /// with the engine handle of the body it must attach to.  The solver
    /// handle of the parent is filled in on insertion into a world.
    pub fn convert_to_collider(self) -> (r: (Collider, RigidBodyHandle))
        ensures
            collider_state_eq_desc(r.0, self),
            shape_matches_desc(r.0.shape, self.shape),
            r.1 == self.parent,
    {
        let collider = Collider {
            shape: self.shape.into_collider_shape(),
            parent: SolverHandle { index: 0, generation: 0 },
            friction: self.friction,
            density: self.density,
            restitution: self.restitution,
            is_sensor: self.is_sensor,
            translation: self.translation,
            rotation: self.rotation,
            collision_groups: self.collision_groups,
            solver_groups: self.solver_groups,
        };
        (collider, self.parent)
    }
}

impl Default for ColliderDesc {
    /// A zero-radius ball collider with the stock material parameters.
    fn default() -> (r: ColliderDesc)
        ensures
            r.shape == ColliderShapeDesc::Ball(BallDesc { radius: Scalar { bits: BITS_ZERO } }),
            r.parent == (RigidBodyHandle { id: 0 }),
            r.friction == (Scalar { bits: BITS_HALF }),
            (r.density is None),
            r.restitution == (Scalar { bits: BITS_ZERO }),
            r.is_sensor == false,
            r.translation == spec_zero_vector(),
            r.rotation == spec_identity_rotation(),
            r.collision_groups == u32::MAX,
            r.solver_groups == u32::MAX,
    {
        ColliderDesc {
            shape: ColliderShapeDesc::Ball(BallDesc { radius: Scalar::zero() }),
            parent: RigidBodyHandle { id: 0 },
            friction: Scalar::from_bits(BITS_HALF),
            density: None,
            restitution: Scalar::zero(),
            is_sensor: false,
            translation: Vector3::zero(),
            rotation: UnitQuaternion::identity(),
            collision_groups: u32::MAX,
            solver_groups: u32::MAX,
        }
    }
}

/// Serializable snapshot of one joint: the two bodies it connects, as engine
/// handles, plus its parameters.
#[derive(Clone, Copy, PartialEq, Eq, Structural, Debug)]
pub struct JointDesc {
    pub body1: RigidBodyHandle,
    pub body2: RigidBodyHandle,
    pub params: JointParamsDesc,
}

impl JointDesc {
    /// Snapshots a live joint, recording its endpoint bodies as engine
    /// handles through the body translation table.
    pub fn from_joint(joint: &Joint, handle_map: &HandleTable) -> (r: JointDesc)
        requires
            handle_map.has_solver(joint.body1),
            handle_map.has_solver(joint.body2),
        ensures
            handle_map.maps_to(r.body1.id, joint.body1),
            handle_map.maps_to(r.body2.id, joint.body2),
            r.params == joint.params,
    {
        let body1 = match handle_map.key_of(joint.body1) {
            Some(e) => RigidBodyHandle { id: e },
            None => unreached(),
        };
        let body2 = match handle_map.key_of(joint.body2) {
            Some(e) => RigidBodyHandle { id: e },
            None => unreached(),
        };
        JointDesc { body1, body2, params: joint.params }
    }
}

/// Integration configuration of the solver, mirrored field for field so it
/// can be persisted with the rest of the world.
#[derive(Clone, Copy, PartialEq, Eq, Structural, Debug)]
pub struct IntegrationParametersDesc {
    pub dt: Scalar,
    pub erp: Scalar,
    pub min_ccd_dt: Scalar,
    pub joint_erp: Scalar,
    pub warmstart_coeff: Scalar,
    pub warmstart_correction_slope: Scalar,
    pub velocity_solve_fraction: Scalar,
    pub velocity_based_erp: Scalar,
    pub allowed_linear_error: Scalar,
    pub prediction_distance: Scalar,
    pub allowed_angular_error: Scalar,
    pub max_linear_correction: Scalar,
    pub max_angular_correction: Scalar,
    pub max_velocity_iterations: u32,
    pub max_position_iterations: u32,
    pub min_island_size: u32,
    pub max_ccd_substeps: u32,
}

/// Bit pattern of the default simulation step, one sixtieth of a second.
pub const BITS_DT: u32 = 0x3C88_8889;

/// Bit pattern of the default minimum continuous-collision step, one
/// hundredth of the simulation step.
pub const BITS_MIN_CCD_DT: u32 = 0x392E_C33E;

/// Bit pattern of 0.2, the default error reduction parameter.
pub const BITS_ERP: u32 = 0x3E4C_CCCD;

/// Bit pattern of 10.0, the default warmstart correction slope.
pub const BITS_WARMSTART_SLOPE: u32 = 0x4120_0000;

/// Bit pattern of 0.005, the default allowed linear error.
pub const BITS_ALLOWED_LINEAR_ERROR: u32 = 0x3BA3_D70A;

/// Bit pattern of 0.002, the default prediction distance.
pub const BITS_PREDICTION_DISTANCE: u32 = 0x3B03_126F;

/// Bit pattern of 0.001, the default allowed angular error.
pub const BITS_ALLOWED_ANGULAR_ERROR: u32 = 0x3A83_126F;

impl Default for IntegrationParametersDesc {
    /// The solver's stock integration configuration.
    fn default() -> (r: IntegrationParametersDesc)
        ensures
            r == spec_default_integration_parameters(),
    {
        IntegrationParametersDesc {
            dt: Scalar::from_bits(BITS_DT),
            erp: Scalar::from_bits(BITS_ERP),
            min_ccd_dt: Scalar::from_bits(BITS_MIN_CCD_DT),
            joint_erp: Scalar::from_bits(BITS_ERP),
            warmstart_coeff: Scalar::one(),
            warmstart_correction_slope: Scalar::from_bits(BITS_WARMSTART_SLOPE),
            velocity_solve_fraction: Scalar::one(),
            velocity_based_erp: Scalar::zero(),
            allowed_linear_error: Scalar::from_bits(BITS_ALLOWED_LINEAR_ERROR),
            prediction_distance: Scalar::from_bits(BITS_PREDICTION_DISTANCE),
            allowed_angular_error: Scalar::from_bits(BITS_ALLOWED_ANGULAR_ERROR),
            max_linear_correction: Scalar::from_bits(BITS_ERP),
            max_angular_correction: Scalar::from_bits(BITS_ERP),
            max_velocity_iterations: 4,
            max_position_iterations: 1,
            min_island_size: 128,
            max_ccd_substeps: 1,
        }
    }
}

/// The solver's stock integration configuration.
pub open spec fn spec_default_integration_parameters() -> IntegrationParametersDesc {
    IntegrationParametersDesc {
        dt: Scalar { bits: BITS_DT },
        erp: Scalar { bits: BITS_ERP },
        min_ccd_dt: Scalar { bits: BITS_MIN_CCD_DT },
        joint_erp: Scalar { bits: BITS_ERP },
        warmstart_coeff: Scalar { bits: BITS_ONE },
        warmstart_correction_slope: Scalar { bits: BITS_WARMSTART_SLOPE },
        velocity_solve_fraction: Scalar { bits: BITS_ONE },
        velocity_based_erp: Scalar { bits: BITS_ZERO },
        allowed_linear_error: Scalar { bits: BITS_ALLOWED_LINEAR_ERROR },
        prediction_distance: Scalar { bits: BITS_PREDICTION_DISTANCE },
        allowed_angular_error: Scalar { bits: BITS_ALLOWED_ANGULAR_ERROR },
        max_linear_correction: Scalar { bits: BITS_ERP },
        max_angular_correction: Scalar { bits: BITS_ERP },
        max_velocity_iterations: 4,
        max_position_iterations: 1,
        min_island_size: 128,
        max_ccd_substeps: 1,
    }
}

/// The default gravity vector, straight down at standard strength.
pub open spec fn spec_default_gravity() -> Vector3 {
    Vector3 {
        x: Scalar { bits: BITS_ZERO },
        y: Scalar { bits: BITS_NEG_9_81 },
        z: Scalar { bits: BITS_ZERO },
    }
}

/// A complete serializable snapshot of a physics world: the integration
/// configuration, every entity's descriptor, and the three translation
/// tables with solver handles remapped to a dense save-stable numbering.
#[derive(Clone, PartialEq, Debug)]
pub struct PhysicsDesc {
    pub integration_parameters: IntegrationParametersDesc,
    pub colliders: Vec<ColliderDesc>,
    pub bodies: Vec<RigidBodyDesc>,
    pub gravity: Vector3,
    pub joints: Vec<JointDesc>,
    pub body_handle_map: HandleTable,
    pub collider_handle_map: HandleTable,
    pub joint_handle_map: HandleTable,
}

/// Structural soundness of a descriptor set: injective tables whose dense
/// solver handles all point into the descriptor lists and cover them, and
/// entity cross-references that the tables can translate.  Persisted data
/// that fails this check is malformed and must be rejected on read.
pub open spec fn desc_wf(d: PhysicsDesc) -> bool {
    &&& d.body_handle_map.wf()
    &&& d.collider_handle_map.wf()
    &&& d.joint_handle_map.wf()
    &&& d.bodies@.len() <= u32::MAX
    &&& d.colliders@.len() <= u32::MAX
    &&& d.joints@.len() <= u32::MAX
    &&& forall|k: int|
        0 <= k < d.body_handle_map@.len() ==> (#[trigger] d.body_handle_map@[k]).solver.generation
            == 0 && d.body_handle_map@[k].solver.index < d.bodies@.len()
            && d.body_handle_map@[k].engine < u128::MAX
    &&& forall|k: int|
        0 <= k < d.collider_handle_map@.len() ==> (
        #[trigger] d.collider_handle_map@[k]).solver.generation == 0
            && d.collider_handle_map@[k].solver.index < d.colliders@.len()
            && d.collider_handle_map@[k].engine < u128::MAX
    &&& forall|k: int|
        0 <= k < d.joint_handle_map@.len() ==> (#[trigger] d.joint_handle_map@[k]).solver.generation
            == 0 && d.joint_handle_map@[k].solver.index < d.joints@.len()
            && d.joint_handle_map@[k].engine < u128::MAX
    &&& forall|m: int|
        0 <= m < d.bodies@.len() ==> #[trigger] d.body_handle_map.has_solver(
            SolverHandle { index: m as u32, generation: 0 },
        )
    &&& forall|m: int|
        0 <= m < d.colliders@.len() ==> #[trigger] d.collider_handle_map.has_solver(
            SolverHandle { index: m as u32, generation: 0 },
        )
    &&& forall|m: int|
        0 <= m < d.joints@.len() ==> #[trigger] d.joint_handle_map.has_solver(
            SolverHandle { index: m as u32, generation: 0 },
        )
    &&& forall|k: int|
        0 <= k < d.colliders@.len() ==> d.body_handle_map.has_engine(
            (#[trigger] d.colliders@[k]).parent.id,
        )
    &&& forall|k: int|
        0 <= k < d.joints@.len() ==> d.body_handle_map.has_engine(
            (#[trigger] d.joints@[k]).body1.id,
        ) && d.body_handle_map.has_engine(d.joints@[k].body2.id)
}

impl PhysicsDesc {
    /// Checks the structural soundness that resolve relies on; a read path
    /// rejects a descriptor set that fails it.
    pub fn is_well_formed(&self) -> (r: bool)
        ensures
            r == desc_wf(*self),
    {
        let cap = u32::MAX as usize;
        if self.bodies.len() > cap || self.colliders.len() > cap || self.joints.len() > cap {
            return false;
        }
        if !check_table_injective(&self.body_handle_map) {
            return false;
        }
        if !check_table_injective(&self.collider_handle_map) {
            return false;
        }
        if !check_table_injective(&self.joint_handle_map) {
            return false;
        }
        if !check_table_targets(&self.body_handle_map, self.bodies.len()) {
            return false;
        }
        if !check_table_targets(&self.collider_handle_map, self.colliders.len()) {
            return false;
        }
        if !check_table_targets(&self.joint_handle_map, self.joints.len()) {
            return false;
        }
        if !check_table_covers(&self.body_handle_map, self.bodies.len()) {
            return false;
        }
        if !check_table_covers(&self.collider_handle_map, self.colliders.len()) {
            return false;
        }
        if !check_table_covers(&self.joint_handle_map, self.joints.len()) {
            return false;
        }
        if !self.check_collider_parents() {
            return false;
        }
        if !self.check_joint_bodies() {
            return false;
        }
        true
    }

    /// Every collider's parent body handle is known to the body table.
    fn check_collider_parents(&self) -> (r: bool)
        ensures
            r == forall|k: int|
                0 <= k < self.colliders@.len() ==> self.body_handle_map.has_engine(
                    (#[trigger] self.colliders@[k]).parent.id,
                ),
    {
        let n = self.colliders.len();
        let mut k: usize = 0;
        while k < n
            invariant
                k <= n,
                n == self.colliders@.len(),
                forall|j: int|
                    0 <= j < k ==> self.body_handle_map.has_engine(
                        (#[trigger] self.colliders@[j]).parent.id,
                    ),
            decreases n - k,
        {
            if !self.body_handle_map.contains_engine(self.colliders[k].parent.id) {
                return false;
            }
            k += 1;
        }
        true
    }

    /// Every joint's two body handles are known to the body table.
    fn check_joint_bodies(&self) -> (r: bool)
        ensures
            r == forall|k: int|
                0 <= k < self.joints@.len() ==> self.body_handle_map.has_engine(
                    (#[trigger] self.joints@[k]).body1.id,
                ) && self.body_handle_map.has_engine(self.joints@[k].body2.id),
    {
        let n = self.joints.len();
        let mut k: usize = 0;
        while k < n
            invariant
                k <= n,
                n == self.joints@.len(),
                forall|j: int|
                    0 <= j < k ==> self.body_handle_map.has_engine(
                        (#[trigger] self.joints@[j]).body1.id,
                    ) && self.body_handle_map.has_engine(self.joints@[j].body2.id),
            decreases n - k,
        {
            let ok1 = self.body_handle_map.contains_engine(self.joints[k].body1.id);
            let ok2 = self.body_handle_map.contains_engine(self.joints[k].body2.id);
            if !(ok1 && ok2) {
                return false;
            }
            k += 1;
        }
        true
    }
}

/// Every pair's dense solver handle has generation zero and an index inside
/// the entity list, and its engine identifier leaves room for minting.
fn check_table_targets(t: &HandleTable, len: usize) -> (r: bool)
    ensures
        r == forall|k: int|
            0 <= k < t@.len() ==> (#[trigger] t@[k]).solver.generation == 0 && t@[k].solver.index
                < len && t@[k].engine < u128::MAX,
{
    let n = t.len();
    let mut k: usize = 0;
    while k < n
        invariant
            k <= n,
            n == t@.len(),
            forall|j: int|
                0 <= j < k ==> (#[trigger] t@[j]).solver.generation == 0 && t@[j].solver.index < len
                    && t@[j].engine < u128::MAX,
        decreases n - k,
    {
        let p = t.pair_at(k);
        if !(p.solver.generation == 0 && (p.solver.index as usize) < len && p.engine < u128::MAX) {
            return false;
        }
        k += 1;
    }
    true
}

/// No engine identifier and no solver handle occurs twice in the table.
fn check_table_injective(t: &HandleTable) -> (r: bool)
    ensures
        r == t.wf(),
{
    let n = t.len();
    let mut k: usize = 0;
    while k < n
        invariant
            k <= n,
            n == t@.len(),
            forall|i: int, j: int|
                0 <= i < j < k ==> (#[trigger] t@[i]).engine != (#[trigger] t@[j]).engine
                    && t@[i].solver != t@[j].solver,
        decreases n - k,
    {
        let pk = t.pair_at(k);
        let mut m: usize = 0;
        while m < k
            invariant
                m <= k,
                k < n,
                n == t@.len(),
                pk == t@[k as int],
                forall|i: int|
                    0 <= i < m ==> (#[trigger] t@[i]).engine != pk.engine && t@[i].solver
                        != pk.solver,
            decreases k - m,
        {
            let pm = t.pair_at(m);
            if pm.engine == pk.engine || pm.solver == pk.solver {
                return false;
            }
            m += 1;
        }
        k += 1;
    }
    true
}

/// Every dense position below the entity count is some pair's solver
/// handle.
fn check_table_covers(t: &HandleTable, len: usize) -> (r: bool)
    ensures
        r == forall|m: int|
            0 <= m < len ==> #[trigger] t.has_solver(SolverHandle { index: m as u32, generation: 0 }),
{
    let mut m: usize = 0;
    while m < len
        invariant
            m <= len,
            forall|j: int|
                0 <= j < m ==> #[trigger] t.has_solver(SolverHandle { index: j as u32, generation: 0 }),
        decreases len - m,
    {
        let wanted = SolverHandle { index: m as u32, generation: 0 };
        let mut found = false;
        let n = t.len();
        let mut k: usize = 0;
        while k < n
            invariant
                k <= n,
                n == t@.len(),
                wanted == (SolverHandle { index: m as u32, generation: 0 }),
                found ==> t.has_solver(wanted),
                !found ==> forall|j: int| 0 <= j < k ==> (#[trigger] t@[j]).solver != wanted,
            decreases n - k,
        {
            let p = t.pair_at(k);
            if p.solver.index == wanted.index && p.solver.generation == wanted.generation {
                proof {
                    assert(t@[k as int].solver == wanted);
                }
                found = true;
            }
            k += 1;
        }
        if !found {
            proof {
                assert(!t.has_solver(SolverHandle { index: m as u32, generation: 0 }));
            }
            return false;
        }
        m += 1;
    }
    true
}

impl Default for PhysicsDesc {
    /// An empty snapshot with the stock configuration.
    fn default() -> (r: PhysicsDesc)
        ensures
            r.integration_parameters == spec_default_integration_parameters(),
            r.gravity == spec_default_gravity(),
            r.colliders@.len() == 0,
            r.bodies@.len() == 0,
            r.joints@.len() == 0,
            r.body_handle_map@.len() == 0,
            r.collider_handle_map@.len() == 0,
            r.joint_handle_map@.len() == 0,
    {
        PhysicsDesc {
            integration_parameters: IntegrationParametersDesc::default(),
            colliders: Vec::new(),
            bodies: Vec::new(),
            gravity: Vector3::from_bits(BITS_ZERO, BITS_NEG_9_81, BITS_ZERO),
            joints: Vec::new(),
            body_handle_map: HandleTable::new(),
            collider_handle_map: HandleTable::new(),
            joint_handle_map: HandleTable::new(),
        }
    }
}

} // verus!
