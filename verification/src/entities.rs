//! Live solver entities, owned exclusively by the physics world.
//!
//! A collider references its owning body and a joint references two bodies,
//! all through volatile solver handles.  A collider with a mesh-derived
//! shape carries its triangle data only as a rebuildable cache; the
//! authoritative geometry lives in the scene graph.

use vstd::prelude::*;

use crate::handles::SolverHandle;
use crate::math::{Scalar, UnitQuaternion, Vector3};
use crate::shape::ColliderShape;

verus! {

/// The dynamics role of a body, as the serializable descriptor names it.
#[derive(Clone, Copy, PartialEq, Eq, Structural, Debug)]
pub enum BodyStatusDesc {
    Dynamic,
    Static,
    Kinematic,
}

impl Default for BodyStatusDesc {
    /// The default body status is dynamic.
    fn default() -> (r: BodyStatusDesc)
        ensures
            r == BodyStatusDesc::Dynamic,
    {
        BodyStatusDesc::Dynamic
    }
}

impl BodyStatusDesc {
    /// The stable wire discriminant of this status.
    pub fn id(self) -> (r: u32)
        ensures
            r == body_status_id_spec(self),
    {
        match self {
            BodyStatusDesc::Dynamic => 0,
            BodyStatusDesc::Static => 1,
            BodyStatusDesc::Kinematic => 2,
        }
    }

    /// The status carrying a given wire discriminant; an unknown
    /// discriminant is a hard error.
    pub fn from_id(id: u32) -> (r: Result<BodyStatusDesc, String>)
        ensures
            id <= 2 ==> (r matches Ok(s) && body_status_id_spec(s) == id),
            id > 2 ==> r is Err,
    {
        match id {
            0 => Ok(BodyStatusDesc::Dynamic),
            1 => Ok(BodyStatusDesc::Static),
            2 => Ok(BodyStatusDesc::Kinematic),
            _ => Err(invalid_body_status_message()),
        }
    }
}

/// The stable wire discriminant of each body status.
pub open spec fn body_status_id_spec(s: BodyStatusDesc) -> u32 {
    match s {
        BodyStatusDesc::Dynamic => 0,
        BodyStatusDesc::Static => 1,
        BodyStatusDesc::Kinematic => 2,
    }
}

/// The message reported for an unknown body status discriminant.
fn invalid_body_status_message() -> String {
    "invalid body status id".to_owned()
}

/// A live rigid body.
#[derive(Clone, PartialEq, Debug)]
pub struct RigidBody {
    pub position: Vector3,
    pub rotation: UnitQuaternion,
    pub linvel: Vector3,
    pub angvel: Vector3,
    pub sleeping: bool,
    pub status: BodyStatusDesc,
    pub mass: Scalar,
    pub x_rotation_locked: bool,
    pub y_rotation_locked: bool,
    pub z_rotation_locked: bool,
    pub translation_locked: bool,
    /// Solver handles of the colliders attached to this body; maintained by
    /// the world when colliders are added and removed.
    pub colliders: Vec<SolverHandle>,
}

/// Two live bodies agree on everything but their collider lists.
pub open spec fn same_body_state(a: RigidBody, b: RigidBody) -> bool {
    &&& a.position == b.position
    &&& a.rotation == b.rotation
    &&& a.linvel == b.linvel
    &&& a.angvel == b.angvel
    &&& a.sleeping == b.sleeping
    &&& a.status == b.status
    &&& a.mass == b.mass
    &&& a.x_rotation_locked == b.x_rotation_locked
    &&& a.y_rotation_locked == b.y_rotation_locked
    &&& a.z_rotation_locked == b.z_rotation_locked
    &&& a.translation_locked == b.translation_locked
}

/// A live collider.
#[derive(Clone, PartialEq, Debug)]
pub struct Collider {
    pub shape: ColliderShape,
    /// Solver handle of the owning body; set when the collider is inserted
    /// into a world.
    pub parent: SolverHandle,
    pub friction: Scalar,
    pub density: Option<Scalar>,
    pub restitution: Scalar,
    pub is_sensor: bool,
    pub translation: Vector3,
    pub rotation: UnitQuaternion,
    pub collision_groups: u32,
    pub solver_groups: u32,
}

/// The serializable parameters of a joint; the live joint stores the same
/// value, so the pair converts losslessly.
#[derive(Clone, Copy, PartialEq, Eq, Structural, Debug)]
pub enum JointParamsDesc {
    BallJoint(BallJointDesc),
    FixedJoint(FixedJointDesc),
    PrismaticJoint(PrismaticJointDesc),
    RevoluteJoint(RevoluteJointDesc),
}

/// Ball joint parameters.
#[derive(Clone, Copy, PartialEq, Eq, Structural, Debug)]
pub struct BallJointDesc {
    pub local_anchor1: Vector3,
    pub local_anchor2: Vector3,
}

/// Fixed joint parameters.
#[derive(Clone, Copy, PartialEq, Eq, Structural, Debug)]
pub struct FixedJointDesc {
    pub local_anchor1_translation: Vector3,
    pub local_anchor1_rotation: UnitQuaternion,
    pub local_anchor2_translation: Vector3,
    pub local_anchor2_rotation: UnitQuaternion,
}

/// Prismatic joint parameters.
#[derive(Clone, Copy, PartialEq, Eq, Structural, Debug)]
pub struct PrismaticJointDesc {
    pub local_anchor1: Vector3,
    pub local_axis1: Vector3,
    pub local_anchor2: Vector3,
    pub local_axis2: Vector3,
}

/// Revolute joint parameters.
#[derive(Clone, Copy, PartialEq, Eq, Structural, Debug)]
pub struct RevoluteJointDesc {
    pub local_anchor1: Vector3,
    pub local_axis1: Vector3,
    pub local_anchor2: Vector3,
    pub local_axis2: Vector3,
}

/// The stable wire discriminant of each joint parameter variant.
pub open spec fn joint_id_spec(d: JointParamsDesc) -> u32 {
    match d {
        JointParamsDesc::BallJoint(_) => 0,
        JointParamsDesc::FixedJoint(_) => 1,
        JointParamsDesc::PrismaticJoint(_) => 2,
        JointParamsDesc::RevoluteJoint(_) => 3,
    }
}

impl JointParamsDesc {
    /// The stable wire discriminant of this variant.
    pub fn id(&self) -> (r: u32)
        ensures
            r == joint_id_spec(*self),
    {
        match self {
            JointParamsDesc::BallJoint(_) => 0,
            JointParamsDesc::FixedJoint(_) => 1,
            JointParamsDesc::PrismaticJoint(_) => 2,
            JointParamsDesc::RevoluteJoint(_) => 3,
        }
    }

    /// The default-parameter variant carrying a given wire discriminant; an
    /// unknown discriminant is a hard error.
    pub fn from_id(id: u32) -> (r: Result<JointParamsDesc, String>)
        ensures
            id <= 3 ==> (r matches Ok(d) && joint_id_spec(d) == id),
            id > 3 ==> r is Err,
    {
        match id {
            0 => Ok(
                JointParamsDesc::BallJoint(
                    BallJointDesc {
                        local_anchor1: Vector3::zero(),
                        local_anchor2: Vector3::zero(),
                    },
                ),
            ),
            1 => Ok(
                JointParamsDesc::FixedJoint(
                    FixedJointDesc {
                        local_anchor1_translation: Vector3::zero(),
                        local_anchor1_rotation: UnitQuaternion::identity(),
                        local_anchor2_translation: Vector3::zero(),
                        local_anchor2_rotation: UnitQuaternion::identity(),
                    },
                ),
            ),
            2 => Ok(
                JointParamsDesc::PrismaticJoint(
                    PrismaticJointDesc {
                        local_anchor1: Vector3::zero(),
                        local_axis1: Vector3::zero(),
                        local_anchor2: Vector3::zero(),
                        local_axis2: Vector3::zero(),
                    },
                ),
            ),
            3 => Ok(
                JointParamsDesc::RevoluteJoint(
                    RevoluteJointDesc {
                        local_anchor1: Vector3::zero(),
                        local_axis1: Vector3::zero(),
                        local_anchor2: Vector3::zero(),
                        local_axis2: Vector3::zero(),
                    },
                ),
            ),
            _ => Err(invalid_joint_id_message()),
        }
    }
}

impl Default for JointParamsDesc {
    /// The default joint parameters are a ball joint with zero anchors.
    fn default() -> (r: JointParamsDesc)
        ensures
            r == JointParamsDesc::BallJoint(
                BallJointDesc {
                    local_anchor1: Vector3 {
                        x: Scalar { bits: 0 },
                        y: Scalar { bits: 0 },
                        z: Scalar { bits: 0 },
                    },
                    local_anchor2: Vector3 {
                        x: Scalar { bits: 0 },
                        y: Scalar { bits: 0 },
                        z: Scalar { bits: 0 },
                    },
                },
            ),
    {
        JointParamsDesc::BallJoint(
            BallJointDesc { local_anchor1: Vector3::zero(), local_anchor2: Vector3::zero() },
        )
    }
}

/// The message reported for an unknown joint parameter discriminant.
fn invalid_joint_id_message() -> String {
    "invalid joint params id".to_owned()
}

/// A live joint between two bodies.
#[derive(Clone, Copy, PartialEq, Eq, Structural, Debug)]
pub struct Joint {
    pub body1: SolverHandle,
    pub body2: SolverHandle,
    pub params: JointParamsDesc,
}

} // verus!
