//! Plain-value carriers for the geometric state the physics layer stores.
//!
//! The layer itself never does arithmetic on real numbers: positions,
//! velocities and shape parameters are opaque payload that is created by the
//! host, stored, compared bit-for-bit, serialized and handed back.  Each
//! scalar is therefore kept as the bit pattern of a 32-bit IEEE-754 number.

use vstd::prelude::*;

verus! {

/// A real number carried as its 32-bit IEEE-754 bit pattern.
///
/// For non-negative finite numbers the unsigned order of the bit patterns
/// coincides with the numeric order, which is what ray-cast distances rely
/// on; nothing else in the crate interprets the payload.
#[derive(Clone, Copy, PartialEq, Eq, Structural, Hash, Debug)]
pub struct Scalar {
    pub bits: u32,
}

/// Bit pattern of the number zero.
pub const BITS_ZERO: u32 = 0x0000_0000;

/// Bit pattern of the number one.
pub const BITS_ONE: u32 = 0x3F80_0000;

/// Bit pattern of one half, the default collider friction.
pub const BITS_HALF: u32 = 0x3F00_0000;

/// Bit pattern of -9.81, the default vertical gravity component.
pub const BITS_NEG_9_81: u32 = 0xC11C_F5C3;

impl Scalar {
    /// Wraps a raw bit pattern.
    pub fn from_bits(bits: u32) -> (r: Scalar)
        ensures
            r.bits == bits,
    {
        Scalar { bits }
    }

    /// The bit pattern of zero.
    pub fn zero() -> (r: Scalar)
        ensures
            r.bits == BITS_ZERO,
    {
        Scalar { bits: BITS_ZERO }
    }

    /// The bit pattern of one.
    pub fn one() -> (r: Scalar)
        ensures
            r.bits == BITS_ONE,
    {
        Scalar { bits: BITS_ONE }
    }
}

impl Default for Scalar {
    /// The default scalar is zero.
    fn default() -> (r: Scalar)
        ensures
            r.bits == BITS_ZERO,
    {
        Scalar { bits: BITS_ZERO }
    }
}

/// The zero vector as a value.
pub open spec fn spec_zero_vector() -> Vector3 {
    Vector3 {
        x: Scalar { bits: BITS_ZERO },
        y: Scalar { bits: BITS_ZERO },
        z: Scalar { bits: BITS_ZERO },
    }
}

/// The identity rotation as a value.
pub open spec fn spec_identity_rotation() -> UnitQuaternion {
    UnitQuaternion {
        i: Scalar { bits: BITS_ZERO },
        j: Scalar { bits: BITS_ZERO },
        k: Scalar { bits: BITS_ZERO },
        w: Scalar { bits: BITS_ONE },
    }
}

/// A three-component vector of carried scalars.
#[derive(Clone, Copy, PartialEq, Eq, Structural, Hash, Debug)]
pub struct Vector3 {
    pub x: Scalar,
    pub y: Scalar,
    pub z: Scalar,
}

impl Vector3 {
    /// Builds a vector from three bit patterns.
    pub fn from_bits(x: u32, y: u32, z: u32) -> (r: Vector3)
        ensures
            r.x.bits == x,
            r.y.bits == y,
            r.z.bits == z,
    {
        Vector3 { x: Scalar { bits: x }, y: Scalar { bits: y }, z: Scalar { bits: z } }
    }

    /// The zero vector.
    pub fn zero() -> (r: Vector3)
        ensures
            r == (Vector3 {
                x: Scalar { bits: BITS_ZERO },
                y: Scalar { bits: BITS_ZERO },
                z: Scalar { bits: BITS_ZERO },
            }),
    {
        Vector3 { x: Scalar::zero(), y: Scalar::zero(), z: Scalar::zero() }
    }
}

impl Default for Vector3 {
    /// The default vector is zero.
    fn default() -> (r: Vector3)
        ensures
            r == (Vector3 {
                x: Scalar { bits: BITS_ZERO },
                y: Scalar { bits: BITS_ZERO },
                z: Scalar { bits: BITS_ZERO },
            }),
    {
        Vector3::zero()
    }
}

/// A unit quaternion carried as four scalar bit patterns (i, j, k, w).
#[derive(Clone, Copy, PartialEq, Eq, Structural, Hash, Debug)]
pub struct UnitQuaternion {
    pub i: Scalar,
    pub j: Scalar,
    pub k: Scalar,
    pub w: Scalar,
}

impl UnitQuaternion {
    /// The identity rotation: (0, 0, 0, 1).
    pub fn identity() -> (r: UnitQuaternion)
        ensures
            r == (UnitQuaternion {
                i: Scalar { bits: BITS_ZERO },
                j: Scalar { bits: BITS_ZERO },
                k: Scalar { bits: BITS_ZERO },
                w: Scalar { bits: BITS_ONE },
            }),
    {
        UnitQuaternion {
            i: Scalar::zero(),
            j: Scalar::zero(),
            k: Scalar::zero(),
            w: Scalar::one(),
        }
    }
}

impl Default for UnitQuaternion {
    /// The default rotation is the identity.
    fn default() -> (r: UnitQuaternion)
        ensures
            r == (UnitQuaternion {
                i: Scalar { bits: BITS_ZERO },
                j: Scalar { bits: BITS_ZERO },
                k: Scalar { bits: BITS_ZERO },
                w: Scalar { bits: BITS_ONE },
            }),
    {
        UnitQuaternion::identity()
    }
}

/// A rigid placement: a rotation followed by a translation.
#[derive(Clone, Copy, PartialEq, Eq, Structural, Debug)]
pub struct Isometry {
    pub rotation: UnitQuaternion,
    pub translation: Vector3,
}

} // verus!
