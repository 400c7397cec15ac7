//! Handle types.
//!
//! An engine handle is a stable 128-bit identifier that survives save/load
//! and is never reused.  A solver handle is a volatile generation-tagged
//! index into the solver-side dense storage; its slot may be reused after it
//! is freed, so it is never persisted directly.

use vstd::prelude::*;

verus! {

/// Stable engine handle of a rigid body.
#[derive(Clone, Copy, PartialEq, Eq, Structural, Hash, Debug)]
pub struct RigidBodyHandle {
    pub id: u128,
}

/// Stable engine handle of a collider.
#[derive(Clone, Copy, PartialEq, Eq, Structural, Hash, Debug)]
pub struct ColliderHandle {
    pub id: u128,
}

/// Stable engine handle of a joint.
#[derive(Clone, Copy, PartialEq, Eq, Structural, Hash, Debug)]
pub struct JointHandle {
    pub id: u128,
}

/// Volatile generation-tagged handle into the solver-side storage.
#[derive(Clone, Copy, PartialEq, Eq, Structural, Hash, Debug)]
pub struct SolverHandle {
    pub index: u32,
    pub generation: u32,
}

impl SolverHandle {
    /// Builds a handle from its raw parts.
    pub fn from_raw_parts(index: u32, generation: u32) -> (r: SolverHandle)
        ensures
            r == (SolverHandle { index, generation }),
    {
        SolverHandle { index, generation }
    }
}

/// Handle of a scene-graph node, owned by the scene-graph collaborator.
#[derive(Clone, Copy, PartialEq, Eq, Structural, Hash, Debug)]
pub struct NodeHandle {
    pub index: u32,
    pub generation: u32,
}

} // verus!
