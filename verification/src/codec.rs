//! The wire format of the descriptor set: every descriptor writes its named
//! fields in a fixed order through the visitor protocol, and reads them back
//! strictly.  The reader accepts exactly the writer's bytes, so a descriptor
//! set round-trips byte for byte.

use vstd::prelude::*;
use vstd::bytes::{spec_u128_to_le_bytes, spec_u32_to_le_bytes, spec_u64_to_le_bytes};
use vstd::string::StringSliceAdditionalSpecFns;

use crate::desc::{ColliderDesc, IntegrationParametersDesc, JointDesc, PhysicsDesc, RigidBodyDesc};
use crate::handles::{ColliderHandle, RigidBodyHandle};
use crate::entities::{
    body_status_id_spec, joint_id_spec, BallJointDesc, BodyStatusDesc, FixedJointDesc,
    JointParamsDesc, PrismaticJointDesc, RevoluteJointDesc,
};
use crate::handles::SolverHandle;
use crate::math::{Scalar, UnitQuaternion, Vector3};
use crate::table::{HandleTable, TablePair};
use crate::shape::{
    shape_id_spec, BallDesc, ColliderShapeDesc, ConeDesc, CuboidDesc, CylinderDesc, CapsuleDesc,
    HeightfieldDesc, RoundCylinderDesc, SegmentDesc, TriangleDesc, TrimeshDesc,
};
use crate::visitor::{
    enc_bool, enc_str, lemma_join, lemma_split, put_bool, put_name, put_u128, put_u32, put_u64,
    starts_with, take_bool, take_name, take_u128, take_u32, take_u64, VisitError,
};

verus! {

/// The bytes of a carried scalar.
pub open spec fn enc_scalar(v: Scalar) -> Seq<u8> {
    spec_u32_to_le_bytes(v.bits)
}

/// The bytes of a vector: its three components in order.
pub open spec fn enc_vector(v: Vector3) -> Seq<u8> {
    enc_scalar(v.x) + enc_scalar(v.y) + enc_scalar(v.z)
}

/// The bytes of a rotation: its four components in order.
pub open spec fn enc_rotation(v: UnitQuaternion) -> Seq<u8> {
    enc_scalar(v.i) + enc_scalar(v.j) + enc_scalar(v.k) + enc_scalar(v.w)
}

/// The bytes of a named field.
pub open spec fn enc_field(nm: Seq<u8>, payload: Seq<u8>) -> Seq<u8> {
    enc_str(nm) + payload
}

/// Appends a scalar.
pub fn put_scalar(out: &mut Vec<u8>, v: Scalar)
    ensures
        final(out)@ == old(out)@ + enc_scalar(v),
{
    put_u32(out, v.bits);
}

/// Appends a vector.
pub fn put_vector(out: &mut Vec<u8>, v: Vector3)
    ensures
        final(out)@ == old(out)@ + enc_vector(v),
{
    put_scalar(out, v.x);
    put_scalar(out, v.y);
    put_scalar(out, v.z);
    proof {
        assert(out@ =~= old(out)@ + enc_vector(v));
    }
}

/// Appends a rotation.
pub fn put_rotation(out: &mut Vec<u8>, v: UnitQuaternion)
    ensures
        final(out)@ == old(out)@ + enc_rotation(v),
{
    put_scalar(out, v.i);
    put_scalar(out, v.j);
    put_scalar(out, v.k);
    put_scalar(out, v.w);
    proof {
        assert(out@ =~= old(out)@ + enc_rotation(v));
    }
}

/// Reads a scalar.
pub fn take_scalar(data: &Vec<u8>, pos: &mut usize) -> (r: Result<Scalar, VisitError>)
    ensures
        r matches Ok(v) ==> *final(pos) == *old(pos) + enc_scalar(v).len() && starts_with(
            data@,
            *old(pos) as int,
            enc_scalar(v),
        ),
        r is Err ==> *final(pos) == *old(pos),
        forall|v: Scalar|
            starts_with(data@, *old(pos) as int, enc_scalar(v)) ==> r == Ok::<Scalar, VisitError>(
                v,
            ),
{
    proof {
        vstd::bytes::lemma_auto_spec_u32_to_from_le_bytes();
    }
    match take_u32(data, pos) {
        Ok(bits) => Ok(Scalar { bits }),
        Err(e) => Err(e),
    }
}

/// Reads a vector.
pub fn take_vector(data: &Vec<u8>, pos: &mut usize) -> (r: Result<Vector3, VisitError>)
    ensures
        r matches Ok(v) ==> *final(pos) == *old(pos) + enc_vector(v).len() && starts_with(
            data@,
            *old(pos) as int,
            enc_vector(v),
        ),
        r is Err ==> *final(pos) >= *old(pos),
        forall|v: Vector3|
            starts_with(data@, *old(pos) as int, enc_vector(v)) ==> r == Ok::<Vector3, VisitError>(
                v,
            ),
{
    proof {
        vstd::bytes::lemma_auto_spec_u32_to_from_le_bytes();
    }
    let start = *pos;
    let x = match take_scalar(data, pos) {
        Ok(x) => x,
        Err(e) => {
            proof {
                vec_completeness_split(data@, start as int);
            }
            return Err(e);
        },
    };
    let y = match take_scalar(data, pos) {
        Ok(y) => y,
        Err(e) => {
            proof {
                vec_completeness_split(data@, start as int);
            }
            return Err(e);
        },
    };
    let z = match take_scalar(data, pos) {
        Ok(z) => z,
        Err(e) => {
            proof {
                vec_completeness_split(data@, start as int);
            }
            return Err(e);
        },
    };
    let v = Vector3 { x, y, z };
    proof {
        lemma_join(data@, start as int, enc_scalar(x), enc_scalar(y));
        lemma_join(data@, start as int, enc_scalar(x) + enc_scalar(y), enc_scalar(z));
        assert(enc_scalar(x) + enc_scalar(y) + enc_scalar(z) == enc_vector(v));
        vec_completeness_split(data@, start as int);
    }
    Ok(v)
}

/// Splitting every hypothetical vector encoding at a position into its
/// component encodings, for the reader's completeness.
proof fn vec_completeness_split(data: Seq<u8>, pos: int)
    ensures
        forall|v: Vector3|
            starts_with(data, pos, #[trigger] enc_vector(v)) ==> starts_with(data, pos, enc_scalar(v.x))
                && starts_with(data, pos + 4, enc_scalar(v.y)) && starts_with(
                data,
                pos + 8,
                enc_scalar(v.z),
            ),
{
    assert forall|v: Vector3|
        starts_with(data, pos, #[trigger] enc_vector(v)) implies starts_with(
        data,
        pos,
        enc_scalar(v.x),
    ) && starts_with(data, pos + 4, enc_scalar(v.y)) && starts_with(
        data,
        pos + 8,
        enc_scalar(v.z),
    ) by {
        vstd::bytes::lemma_auto_spec_u32_to_from_le_bytes();
        lemma_split(data, pos, enc_scalar(v.x) + enc_scalar(v.y), enc_scalar(v.z));
        lemma_split(data, pos, enc_scalar(v.x), enc_scalar(v.y));
    }
}

/// Reads a rotation.
pub fn take_rotation(data: &Vec<u8>, pos: &mut usize) -> (r: Result<UnitQuaternion, VisitError>)
    ensures
        r matches Ok(v) ==> *final(pos) == *old(pos) + enc_rotation(v).len() && starts_with(
            data@,
            *old(pos) as int,
            enc_rotation(v),
        ),
        r is Err ==> *final(pos) >= *old(pos),
        forall|v: UnitQuaternion|
            starts_with(data@, *old(pos) as int, enc_rotation(v)) ==> r == Ok::<
                UnitQuaternion,
                VisitError,
            >(v),
{
    proof {
        vstd::bytes::lemma_auto_spec_u32_to_from_le_bytes();
    }
    let start = *pos;
    let i = match take_scalar(data, pos) {
        Ok(c) => c,
        Err(e) => {
            proof {
                rot_completeness_split(data@, start as int);
            }
            return Err(e);
        },
    };
    let j = match take_scalar(data, pos) {
        Ok(c) => c,
        Err(e) => {
            proof {
                rot_completeness_split(data@, start as int);
            }
            return Err(e);
        },
    };
    let k = match take_scalar(data, pos) {
        Ok(c) => c,
        Err(e) => {
            proof {
                rot_completeness_split(data@, start as int);
            }
            return Err(e);
        },
    };
    let w = match take_scalar(data, pos) {
        Ok(c) => c,
        Err(e) => {
            proof {
                rot_completeness_split(data@, start as int);
            }
            return Err(e);
        },
    };
    let v = UnitQuaternion { i, j, k, w };
    proof {
        lemma_join(data@, start as int, enc_scalar(i), enc_scalar(j));
        lemma_join(data@, start as int, enc_scalar(i) + enc_scalar(j), enc_scalar(k));
        lemma_join(
            data@,
            start as int,
            enc_scalar(i) + enc_scalar(j) + enc_scalar(k),
            enc_scalar(w),
        );
        assert(enc_scalar(i) + enc_scalar(j) + enc_scalar(k) + enc_scalar(w) == enc_rotation(v));
        rot_completeness_split(data@, start as int);
    }
    Ok(v)
}

/// Splitting every hypothetical rotation encoding at a position into its
/// component encodings, for the reader's completeness.
proof fn rot_completeness_split(data: Seq<u8>, pos: int)
    ensures
        forall|v: UnitQuaternion|
            starts_with(data, pos, #[trigger] enc_rotation(v)) ==> starts_with(
                data,
                pos,
                enc_scalar(v.i),
            ) && starts_with(data, pos + 4, enc_scalar(v.j)) && starts_with(
                data,
                pos + 8,
                enc_scalar(v.k),
            ) && starts_with(data, pos + 12, enc_scalar(v.w)),
{
    assert forall|v: UnitQuaternion|
        starts_with(data, pos, #[trigger] enc_rotation(v)) implies starts_with(
        data,
        pos,
        enc_scalar(v.i),
    ) && starts_with(data, pos + 4, enc_scalar(v.j)) && starts_with(data, pos + 8, enc_scalar(v.k))
        && starts_with(data, pos + 12, enc_scalar(v.w)) by {
        vstd::bytes::lemma_auto_spec_u32_to_from_le_bytes();
        lemma_split(
            data,
            pos,
            enc_scalar(v.i) + enc_scalar(v.j) + enc_scalar(v.k),
            enc_scalar(v.w),
        );
        lemma_split(data, pos, enc_scalar(v.i) + enc_scalar(v.j), enc_scalar(v.k));
        lemma_split(data, pos, enc_scalar(v.i), enc_scalar(v.j));
    }
}

/// The bytes of an optional scalar: a presence byte, then the value.
pub open spec fn enc_opt_scalar(v: Option<Scalar>) -> Seq<u8> {
    match v {
        None => enc_bool(false),
        Some(s) => enc_bool(true) + enc_scalar(s),
    }
}

/// Appends an optional scalar.
pub fn put_opt_scalar(out: &mut Vec<u8>, v: &Option<Scalar>)
    ensures
        final(out)@ == old(out)@ + enc_opt_scalar(*v),
{
    match v {
        None => {
            put_bool(out, false);
        },
        Some(s) => {
            put_bool(out, true);
            put_scalar(out, *s);
            proof {
                assert(out@ =~= old(out)@ + enc_opt_scalar(*v));
            }
        },
    }
}

/// Reads an optional scalar.
pub fn take_opt_scalar(data: &Vec<u8>, pos: &mut usize) -> (r: Result<
    Option<Scalar>,
    VisitError,
>)
    ensures
        r matches Ok(v) ==> *final(pos) == *old(pos) + enc_opt_scalar(v).len() && starts_with(
            data@,
            *old(pos) as int,
            enc_opt_scalar(v),
        ),
        r is Err ==> *final(pos) >= *old(pos),
        forall|v: Option<Scalar>|
            starts_with(data@, *old(pos) as int, #[trigger] enc_opt_scalar(v)) ==> r == Ok::<
                Option<Scalar>,
                VisitError,
            >(v),
{
    proof {
        vstd::bytes::lemma_auto_spec_u32_to_from_le_bytes();
        opt_scalar_completeness_split(data@, *pos as int);
    }
    let start = *pos;
    let present = match take_bool(data, pos) {
        Ok(p) => p,
        Err(e) => {
            return Err(e);
        },
    };
    if present {
        let sc = match take_scalar(data, pos) {
            Ok(sc) => sc,
            Err(e) => {
                return Err(e);
            },
        };
        proof {
            lemma_join(data@, start as int, enc_bool(true), enc_scalar(sc));
        }
        Ok(Some(sc))
    } else {
        Ok(None)
    }
}

/// Splitting every hypothetical optional-scalar encoding, for completeness.
proof fn opt_scalar_completeness_split(data: Seq<u8>, pos: int)
    ensures
        forall|v: Option<Scalar>|
            starts_with(data, pos, #[trigger] enc_opt_scalar(v)) ==> (match v {
                None => starts_with(data, pos, enc_bool(false)),
                Some(s) => starts_with(data, pos, enc_bool(true)) && starts_with(
                    data,
                    pos + 1,
                    enc_scalar(s),
                ),
            }),
{
    assert forall|v: Option<Scalar>|
        starts_with(data, pos, #[trigger] enc_opt_scalar(v)) implies (match v {
        None => starts_with(data, pos, enc_bool(false)),
        Some(s) => starts_with(data, pos, enc_bool(true)) && starts_with(
            data,
            pos + 1,
            enc_scalar(s),
        ),
    }) by {
        vstd::bytes::lemma_auto_spec_u32_to_from_le_bytes();
        match v {
            None => {},
            Some(s) => {
                lemma_split(data, pos, enc_bool(true), enc_scalar(s));
            },
        }
    }
}

/// The bytes of a shape descriptor: its wire discriminant, then its
/// parameters in fixed order; the two marker variants carry no payload.
pub open spec fn enc_shape(d: ColliderShapeDesc) -> Seq<u8> {
    spec_u32_to_le_bytes(shape_id_spec(d)) + match d {
        ColliderShapeDesc::Ball(v) => enc_scalar(v.radius),
        ColliderShapeDesc::Cylinder(v) => enc_scalar(v.half_height) + enc_scalar(v.radius),
        ColliderShapeDesc::RoundCylinder(v) => enc_scalar(v.half_height) + enc_scalar(v.radius)
            + enc_scalar(v.border_radius),
        ColliderShapeDesc::Cone(v) => enc_scalar(v.half_height) + enc_scalar(v.radius),
        ColliderShapeDesc::Cuboid(v) => enc_vector(v.half_extents),
        ColliderShapeDesc::Capsule(v) => enc_vector(v.begin) + enc_vector(v.end) + enc_scalar(
            v.radius,
        ),
        ColliderShapeDesc::Segment(v) => enc_vector(v.begin) + enc_vector(v.end),
        ColliderShapeDesc::Triangle(v) => enc_vector(v.a) + enc_vector(v.b) + enc_vector(v.c),
        ColliderShapeDesc::Trimesh(_) => Seq::empty(),
        ColliderShapeDesc::Heightfield(_) => Seq::empty(),
    }
}

/// Appends a shape descriptor.
pub fn put_shape(out: &mut Vec<u8>, d: &ColliderShapeDesc)
    ensures
        final(out)@ == old(out)@ + enc_shape(*d),
{
    put_u32(out, d.id());
    match d {
        ColliderShapeDesc::Ball(v) => {
            put_scalar(out, v.radius);
        },
        ColliderShapeDesc::Cylinder(v) => {
            put_scalar(out, v.half_height);
            put_scalar(out, v.radius);
        },
        ColliderShapeDesc::RoundCylinder(v) => {
            put_scalar(out, v.half_height);
            put_scalar(out, v.radius);
            put_scalar(out, v.border_radius);
        },
        ColliderShapeDesc::Cone(v) => {
            put_scalar(out, v.half_height);
            put_scalar(out, v.radius);
        },
        ColliderShapeDesc::Cuboid(v) => {
            put_vector(out, v.half_extents);
        },
        ColliderShapeDesc::Capsule(v) => {
            put_vector(out, v.begin);
            put_vector(out, v.end);
            put_scalar(out, v.radius);
        },
        ColliderShapeDesc::Segment(v) => {
            put_vector(out, v.begin);
            put_vector(out, v.end);
        },
        ColliderShapeDesc::Triangle(v) => {
            put_vector(out, v.a);
            put_vector(out, v.b);
            put_vector(out, v.c);
        },
        ColliderShapeDesc::Trimesh(_) => {},
        ColliderShapeDesc::Heightfield(_) => {},
    }
    proof {
        assert(out@ =~= old(out)@ + enc_shape(*d));
    }
}

/// Reads a shape descriptor; an unknown discriminant is a hard error.
pub fn take_shape(data: &Vec<u8>, pos: &mut usize) -> (r: Result<ColliderShapeDesc, VisitError>)
    ensures
        r matches Ok(v) ==> *final(pos) == *old(pos) + enc_shape(v).len() && starts_with(
            data@,
            *old(pos) as int,
            enc_shape(v),
        ),
        r is Err ==> *final(pos) >= *old(pos),
        forall|v: ColliderShapeDesc|
            starts_with(data@, *old(pos) as int, #[trigger] enc_shape(v)) ==> r == Ok::<
                ColliderShapeDesc,
                VisitError,
            >(v),
{
    proof {
        vstd::bytes::lemma_auto_spec_u32_to_from_le_bytes();
        shape_completeness_split(data@, *pos as int);
    }
    let start = *pos;
    let id = match take_u32(data, pos) {
        Ok(id) => id,
        Err(e) => {
            return Err(e);
        },
    };
    let ghost idb = spec_u32_to_le_bytes(id);
    match id {
        0 => {
            let radius = match take_scalar(data, pos) {
                Ok(v) => v,
                Err(e) => {
                    return Err(e);
                },
            };
            let d = ColliderShapeDesc::Ball(BallDesc { radius });
            proof {
                lemma_join(data@, start as int, idb, enc_scalar(radius));
            }
            Ok(d)
        },
        1 => {
            let half_height = match take_scalar(data, pos) {
                Ok(v) => v,
                Err(e) => {
                    return Err(e);
                },
            };
            let radius = match take_scalar(data, pos) {
                Ok(v) => v,
                Err(e) => {
                    return Err(e);
                },
            };
            let d = ColliderShapeDesc::Cylinder(CylinderDesc { half_height, radius });
            proof {
                lemma_join(data@, start as int + 4, enc_scalar(half_height), enc_scalar(radius));
                lemma_join(data@, start as int, idb, enc_scalar(half_height) + enc_scalar(radius));
            }
            Ok(d)
        },
        2 => {
            let half_height = match take_scalar(data, pos) {
                Ok(v) => v,
                Err(e) => {
                    return Err(e);
                },
            };
            let radius = match take_scalar(data, pos) {
                Ok(v) => v,
                Err(e) => {
                    return Err(e);
                },
            };
            let border_radius = match take_scalar(data, pos) {
                Ok(v) => v,
                Err(e) => {
                    return Err(e);
                },
            };
            let d = ColliderShapeDesc::RoundCylinder(
                RoundCylinderDesc { half_height, radius, border_radius },
            );
            proof {
                lemma_join(data@, start as int + 4, enc_scalar(half_height), enc_scalar(radius));
                lemma_join(
                    data@,
                    start as int + 4,
                    enc_scalar(half_height) + enc_scalar(radius),
                    enc_scalar(border_radius),
                );
                lemma_join(
                    data@,
                    start as int,
                    idb,
                    enc_scalar(half_height) + enc_scalar(radius) + enc_scalar(border_radius),
                );
            }
            Ok(d)
        },
        3 => {
            let half_height = match take_scalar(data, pos) {
                Ok(v) => v,
                Err(e) => {
                    return Err(e);
                },
            };
            let radius = match take_scalar(data, pos) {
                Ok(v) => v,
                Err(e) => {
                    return Err(e);
                },
            };
            let d = ColliderShapeDesc::Cone(ConeDesc { half_height, radius });
            proof {
                lemma_join(data@, start as int + 4, enc_scalar(half_height), enc_scalar(radius));
                lemma_join(data@, start as int, idb, enc_scalar(half_height) + enc_scalar(radius));
            }
            Ok(d)
        },
        4 => {
            let half_extents = match take_vector(data, pos) {
                Ok(v) => v,
                Err(e) => {
                    return Err(e);
                },
            };
            let d = ColliderShapeDesc::Cuboid(CuboidDesc { half_extents });
            proof {
                lemma_join(data@, start as int, idb, enc_vector(half_extents));
            }
            Ok(d)
        },
        5 => {
            let begin = match take_vector(data, pos) {
                Ok(v) => v,
                Err(e) => {
                    return Err(e);
                },
            };
            let end = match take_vector(data, pos) {
                Ok(v) => v,
                Err(e) => {
                    return Err(e);
                },
            };
            let radius = match take_scalar(data, pos) {
                Ok(v) => v,
                Err(e) => {
                    return Err(e);
                },
            };
            let d = ColliderShapeDesc::Capsule(CapsuleDesc { begin, end, radius });
            proof {
                lemma_join(data@, start as int + 4, enc_vector(begin), enc_vector(end));
                lemma_join(
                    data@,
                    start as int + 4,
                    enc_vector(begin) + enc_vector(end),
                    enc_scalar(radius),
                );
                lemma_join(
                    data@,
                    start as int,
                    idb,
                    enc_vector(begin) + enc_vector(end) + enc_scalar(radius),
                );
            }
            Ok(d)
        },
        6 => {
            let begin = match take_vector(data, pos) {
                Ok(v) => v,
                Err(e) => {
                    return Err(e);
                },
            };
            let end = match take_vector(data, pos) {
                Ok(v) => v,
                Err(e) => {
                    return Err(e);
                },
            };
            let d = ColliderShapeDesc::Segment(SegmentDesc { begin, end });
            proof {
                lemma_join(data@, start as int + 4, enc_vector(begin), enc_vector(end));
                lemma_join(data@, start as int, idb, enc_vector(begin) + enc_vector(end));
            }
            Ok(d)
        },
        7 => {
            let a = match take_vector(data, pos) {
                Ok(v) => v,
                Err(e) => {
                    return Err(e);
                },
            };
            let b = match take_vector(data, pos) {
                Ok(v) => v,
                Err(e) => {
                    return Err(e);
                },
            };
            let c = match take_vector(data, pos) {
                Ok(v) => v,
                Err(e) => {
                    return Err(e);
                },
            };
            let d = ColliderShapeDesc::Triangle(TriangleDesc { a, b, c });
            proof {
                lemma_join(data@, start as int + 4, enc_vector(a), enc_vector(b));
                lemma_join(data@, start as int + 4, enc_vector(a) + enc_vector(b), enc_vector(c));
                lemma_join(
                    data@,
                    start as int,
                    idb,
                    enc_vector(a) + enc_vector(b) + enc_vector(c),
                );
            }
            Ok(d)
        },
        8 => {
            let d = ColliderShapeDesc::Trimesh(TrimeshDesc);
            proof {
                assert(data@.subrange(start as int, start as int + 4) =~= idb + Seq::<
                    u8,
                >::empty());
            }
            Ok(d)
        },
        9 => {
            let d = ColliderShapeDesc::Heightfield(HeightfieldDesc);
            proof {
                assert(data@.subrange(start as int, start as int + 4) =~= idb + Seq::<
                    u8,
                >::empty());
            }
            Ok(d)
        },
        _ => {
            *pos = start;
            Err(VisitError)
        },
    }
}

/// Splitting every hypothetical shape encoding into its discriminant and
/// parameter encodings, for the reader's completeness.
proof fn shape_completeness_split(data: Seq<u8>, pos: int)
    ensures
        forall|v: ColliderShapeDesc|
            starts_with(data, pos, #[trigger] enc_shape(v)) ==> starts_with(
                data,
                pos,
                spec_u32_to_le_bytes(shape_id_spec(v)),
            ) && shape_payload_at(data, pos + 4, v),
{
    assert forall|v: ColliderShapeDesc|
        starts_with(data, pos, #[trigger] enc_shape(v)) implies starts_with(
        data,
        pos,
        spec_u32_to_le_bytes(shape_id_spec(v)),
    ) && shape_payload_at(data, pos + 4, v) by {
        vstd::bytes::lemma_auto_spec_u32_to_from_le_bytes();
        let idb = spec_u32_to_le_bytes(shape_id_spec(v));
        match v {
            ColliderShapeDesc::Ball(p) => {
                lemma_split(data, pos, idb, enc_scalar(p.radius));
            },
            ColliderShapeDesc::Cylinder(p) => {
                lemma_split(data, pos, idb, enc_scalar(p.half_height) + enc_scalar(p.radius));
                lemma_split(data, pos + 4, enc_scalar(p.half_height), enc_scalar(p.radius));
            },
            ColliderShapeDesc::RoundCylinder(p) => {
                lemma_split(
                    data,
                    pos,
                    idb,
                    enc_scalar(p.half_height) + enc_scalar(p.radius) + enc_scalar(p.border_radius),
                );
                lemma_split(
                    data,
                    pos + 4,
                    enc_scalar(p.half_height) + enc_scalar(p.radius),
                    enc_scalar(p.border_radius),
                );
                lemma_split(data, pos + 4, enc_scalar(p.half_height), enc_scalar(p.radius));
            },
            ColliderShapeDesc::Cone(p) => {
                lemma_split(data, pos, idb, enc_scalar(p.half_height) + enc_scalar(p.radius));
                lemma_split(data, pos + 4, enc_scalar(p.half_height), enc_scalar(p.radius));
            },
            ColliderShapeDesc::Cuboid(p) => {
                lemma_split(data, pos, idb, enc_vector(p.half_extents));
            },
            ColliderShapeDesc::Capsule(p) => {
                lemma_split(
                    data,
                    pos,
                    idb,
                    enc_vector(p.begin) + enc_vector(p.end) + enc_scalar(p.radius),
                );
                lemma_split(
                    data,
                    pos + 4,
                    enc_vector(p.begin) + enc_vector(p.end),
                    enc_scalar(p.radius),
                );
                lemma_split(data, pos + 4, enc_vector(p.begin), enc_vector(p.end));
            },
            ColliderShapeDesc::Segment(p) => {
                lemma_split(data, pos, idb, enc_vector(p.begin) + enc_vector(p.end));
                lemma_split(data, pos + 4, enc_vector(p.begin), enc_vector(p.end));
            },
            ColliderShapeDesc::Triangle(p) => {
                lemma_split(
                    data,
                    pos,
                    idb,
                    enc_vector(p.a) + enc_vector(p.b) + enc_vector(p.c),
                );
                lemma_split(data, pos + 4, enc_vector(p.a) + enc_vector(p.b), enc_vector(p.c));
                lemma_split(data, pos + 4, enc_vector(p.a), enc_vector(p.b));
            },
            ColliderShapeDesc::Trimesh(_) => {
                assert(starts_with(data, pos, idb)) by {
                    assert(enc_shape(v) =~= idb);
                }
            },
            ColliderShapeDesc::Heightfield(_) => {
                assert(starts_with(data, pos, idb)) by {
                    assert(enc_shape(v) =~= idb);
                }
            },
        }
    }
}

/// Where each shape variant's parameters lie after its discriminant.
pub open spec fn shape_payload_at(data: Seq<u8>, pos: int, v: ColliderShapeDesc) -> bool {
    match v {
        ColliderShapeDesc::Ball(p) => starts_with(data, pos, enc_scalar(p.radius)),
        ColliderShapeDesc::Cylinder(p) => starts_with(data, pos, enc_scalar(p.half_height))
            && starts_with(data, pos + 4, enc_scalar(p.radius)),
        ColliderShapeDesc::RoundCylinder(p) => starts_with(data, pos, enc_scalar(p.half_height))
            && starts_with(data, pos + 4, enc_scalar(p.radius)) && starts_with(
            data,
            pos + 8,
            enc_scalar(p.border_radius),
        ),
        ColliderShapeDesc::Cone(p) => starts_with(data, pos, enc_scalar(p.half_height))
            && starts_with(data, pos + 4, enc_scalar(p.radius)),
        ColliderShapeDesc::Cuboid(p) => starts_with(data, pos, enc_vector(p.half_extents)),
        ColliderShapeDesc::Capsule(p) => starts_with(data, pos, enc_vector(p.begin))
            && starts_with(data, pos + 12, enc_vector(p.end)) && starts_with(
            data,
            pos + 24,
            enc_scalar(p.radius),
        ),
        ColliderShapeDesc::Segment(p) => starts_with(data, pos, enc_vector(p.begin))
            && starts_with(data, pos + 12, enc_vector(p.end)),
        ColliderShapeDesc::Triangle(p) => starts_with(data, pos, enc_vector(p.a)) && starts_with(
            data,
            pos + 12,
            enc_vector(p.b),
        ) && starts_with(data, pos + 24, enc_vector(p.c)),
        ColliderShapeDesc::Trimesh(_) => true,
        ColliderShapeDesc::Heightfield(_) => true,
    }
}

/// The bytes of joint parameters: the wire discriminant, then the anchors
/// and axes in fixed order.
pub open spec fn enc_params(d: JointParamsDesc) -> Seq<u8> {
    spec_u32_to_le_bytes(joint_id_spec(d)) + match d {
        JointParamsDesc::BallJoint(v) => enc_vector(v.local_anchor1) + enc_vector(v.local_anchor2),
        JointParamsDesc::FixedJoint(v) => enc_vector(v.local_anchor1_translation) + enc_rotation(
            v.local_anchor1_rotation,
        ) + enc_vector(v.local_anchor2_translation) + enc_rotation(v.local_anchor2_rotation),
        JointParamsDesc::PrismaticJoint(v) => enc_vector(v.local_anchor1) + enc_vector(
            v.local_axis1,
        ) + enc_vector(v.local_anchor2) + enc_vector(v.local_axis2),
        JointParamsDesc::RevoluteJoint(v) => enc_vector(v.local_anchor1) + enc_vector(
            v.local_axis1,
        ) + enc_vector(v.local_anchor2) + enc_vector(v.local_axis2),
    }
}

/// Appends joint parameters.
pub fn put_params(out: &mut Vec<u8>, d: &JointParamsDesc)
    ensures
        final(out)@ == old(out)@ + enc_params(*d),
{
    put_u32(out, d.id());
    match d {
        JointParamsDesc::BallJoint(v) => {
            put_vector(out, v.local_anchor1);
            put_vector(out, v.local_anchor2);
        },
        JointParamsDesc::FixedJoint(v) => {
            put_vector(out, v.local_anchor1_translation);
            put_rotation(out, v.local_anchor1_rotation);
            put_vector(out, v.local_anchor2_translation);
            put_rotation(out, v.local_anchor2_rotation);
        },
        JointParamsDesc::PrismaticJoint(v) => {
            put_vector(out, v.local_anchor1);
            put_vector(out, v.local_axis1);
            put_vector(out, v.local_anchor2);
            put_vector(out, v.local_axis2);
        },
        JointParamsDesc::RevoluteJoint(v) => {
            put_vector(out, v.local_anchor1);
            put_vector(out, v.local_axis1);
            put_vector(out, v.local_anchor2);
            put_vector(out, v.local_axis2);
        },
    }
    proof {
        assert(out@ =~= old(out)@ + enc_params(*d));
    }
}

/// Where each joint variant's parameters lie after its discriminant.
pub open spec fn params_payload_at(data: Seq<u8>, pos: int, v: JointParamsDesc) -> bool {
    match v {
        JointParamsDesc::BallJoint(p) => starts_with(data, pos, enc_vector(p.local_anchor1))
            && starts_with(data, pos + 12, enc_vector(p.local_anchor2)),
        JointParamsDesc::FixedJoint(p) => starts_with(
            data,
            pos,
            enc_vector(p.local_anchor1_translation),
        ) && starts_with(data, pos + 12, enc_rotation(p.local_anchor1_rotation)) && starts_with(
            data,
            pos + 28,
            enc_vector(p.local_anchor2_translation),
        ) && starts_with(data, pos + 40, enc_rotation(p.local_anchor2_rotation)),
        JointParamsDesc::PrismaticJoint(p) => starts_with(data, pos, enc_vector(p.local_anchor1))
            && starts_with(data, pos + 12, enc_vector(p.local_axis1)) && starts_with(
            data,
            pos + 24,
            enc_vector(p.local_anchor2),
        ) && starts_with(data, pos + 36, enc_vector(p.local_axis2)),
        JointParamsDesc::RevoluteJoint(p) => starts_with(data, pos, enc_vector(p.local_anchor1))
            && starts_with(data, pos + 12, enc_vector(p.local_axis1)) && starts_with(
            data,
            pos + 24,
            enc_vector(p.local_anchor2),
        ) && starts_with(data, pos + 36, enc_vector(p.local_axis2)),
    }
}

/// Splitting every hypothetical joint-parameter encoding, for completeness.
proof fn params_completeness_split(data: Seq<u8>, pos: int)
    ensures
        forall|v: JointParamsDesc|
            starts_with(data, pos, #[trigger] enc_params(v)) ==> starts_with(
                data,
                pos,
                spec_u32_to_le_bytes(joint_id_spec(v)),
            ) && params_payload_at(data, pos + 4, v),
{
    assert forall|v: JointParamsDesc|
        starts_with(data, pos, #[trigger] enc_params(v)) implies starts_with(
        data,
        pos,
        spec_u32_to_le_bytes(joint_id_spec(v)),
    ) && params_payload_at(data, pos + 4, v) by {
        vstd::bytes::lemma_auto_spec_u32_to_from_le_bytes();
        let idb = spec_u32_to_le_bytes(joint_id_spec(v));
        match v {
            JointParamsDesc::BallJoint(p) => {
                lemma_split(
                    data,
                    pos,
                    idb,
                    enc_vector(p.local_anchor1) + enc_vector(p.local_anchor2),
                );
                lemma_split(data, pos + 4, enc_vector(p.local_anchor1), enc_vector(p.local_anchor2));
            },
            JointParamsDesc::FixedJoint(p) => {
                let a = enc_vector(p.local_anchor1_translation);
                let b = enc_rotation(p.local_anchor1_rotation);
                let c = enc_vector(p.local_anchor2_translation);
                let d2 = enc_rotation(p.local_anchor2_rotation);
                lemma_split(data, pos, idb, a + b + c + d2);
                lemma_split(data, pos + 4, a + b + c, d2);
                lemma_split(data, pos + 4, a + b, c);
                lemma_split(data, pos + 4, a, b);
            },
            JointParamsDesc::PrismaticJoint(p) => {
                let a = enc_vector(p.local_anchor1);
                let b = enc_vector(p.local_axis1);
                let c = enc_vector(p.local_anchor2);
                let d2 = enc_vector(p.local_axis2);
                lemma_split(data, pos, idb, a + b + c + d2);
                lemma_split(data, pos + 4, a + b + c, d2);
                lemma_split(data, pos + 4, a + b, c);
                lemma_split(data, pos + 4, a, b);
            },
            JointParamsDesc::RevoluteJoint(p) => {
                let a = enc_vector(p.local_anchor1);
                let b = enc_vector(p.local_axis1);
                let c = enc_vector(p.local_anchor2);
                let d2 = enc_vector(p.local_axis2);
                lemma_split(data, pos, idb, a + b + c + d2);
                lemma_split(data, pos + 4, a + b + c, d2);
                lemma_split(data, pos + 4, a + b, c);
                lemma_split(data, pos + 4, a, b);
            },
        }
    }
}

/// Reads joint parameters; an unknown discriminant is a hard error.
pub fn take_params(data: &Vec<u8>, pos: &mut usize) -> (r: Result<JointParamsDesc, VisitError>)
    ensures
        r matches Ok(v) ==> *final(pos) == *old(pos) + enc_params(v).len() && starts_with(
            data@,
            *old(pos) as int,
            enc_params(v),
        ),
        r is Err ==> *final(pos) >= *old(pos),
        forall|v: JointParamsDesc|
            starts_with(data@, *old(pos) as int, #[trigger] enc_params(v)) ==> r == Ok::<
                JointParamsDesc,
                VisitError,
            >(v),
{
    proof {
        vstd::bytes::lemma_auto_spec_u32_to_from_le_bytes();
        params_completeness_split(data@, *pos as int);
    }
    let start = *pos;
    let id = match take_u32(data, pos) {
        Ok(id) => id,
        Err(e) => {
            return Err(e);
        },
    };
    let ghost idb = spec_u32_to_le_bytes(id);
    match id {
        0 => {
            let local_anchor1 = match take_vector(data, pos) {
                Ok(v) => v,
                Err(e) => {
                    return Err(e);
                },
            };
            let local_anchor2 = match take_vector(data, pos) {
                Ok(v) => v,
                Err(e) => {
                    return Err(e);
                },
            };
            let d = JointParamsDesc::BallJoint(BallJointDesc { local_anchor1, local_anchor2 });
            proof {
                lemma_join(
                    data@,
                    start as int + 4,
                    enc_vector(local_anchor1),
                    enc_vector(local_anchor2),
                );
                lemma_join(
                    data@,
                    start as int,
                    idb,
                    enc_vector(local_anchor1) + enc_vector(local_anchor2),
                );
            }
            Ok(d)
        },
        1 => {
            let local_anchor1_translation = match take_vector(data, pos) {
                Ok(v) => v,
                Err(e) => {
                    return Err(e);
                },
            };
            let local_anchor1_rotation = match take_rotation(data, pos) {
                Ok(v) => v,
                Err(e) => {
                    return Err(e);
                },
            };
            let local_anchor2_translation = match take_vector(data, pos) {
                Ok(v) => v,
                Err(e) => {
                    return Err(e);
                },
            };
            let local_anchor2_rotation = match take_rotation(data, pos) {
                Ok(v) => v,
                Err(e) => {
                    return Err(e);
                },
            };
            let d = JointParamsDesc::FixedJoint(
                FixedJointDesc {
                    local_anchor1_translation,
                    local_anchor1_rotation,
                    local_anchor2_translation,
                    local_anchor2_rotation,
                },
            );
            proof {
                let a = enc_vector(local_anchor1_translation);
                let b = enc_rotation(local_anchor1_rotation);
                let c = enc_vector(local_anchor2_translation);
                let d2 = enc_rotation(local_anchor2_rotation);
                lemma_join(data@, start as int + 4, a, b);
                lemma_join(data@, start as int + 4, a + b, c);
                lemma_join(data@, start as int + 4, a + b + c, d2);
                lemma_join(data@, start as int, idb, a + b + c + d2);
            }
            Ok(d)
        },
        2 => {
            let local_anchor1 = match take_vector(data, pos) {
                Ok(v) => v,
                Err(e) => {
                    return Err(e);
                },
            };
            let local_axis1 = match take_vector(data, pos) {
                Ok(v) => v,
                Err(e) => {
                    return Err(e);
                },
            };
            let local_anchor2 = match take_vector(data, pos) {
                Ok(v) => v,
                Err(e) => {
                    return Err(e);
                },
            };
            let local_axis2 = match take_vector(data, pos) {
                Ok(v) => v,
                Err(e) => {
                    return Err(e);
                },
            };
            let d = JointParamsDesc::PrismaticJoint(
                PrismaticJointDesc { local_anchor1, local_axis1, local_anchor2, local_axis2 },
            );
            proof {
                let a = enc_vector(local_anchor1);
                let b = enc_vector(local_axis1);
                let c = enc_vector(local_anchor2);
                let d2 = enc_vector(local_axis2);
                lemma_join(data@, start as int + 4, a, b);
                lemma_join(data@, start as int + 4, a + b, c);
                lemma_join(data@, start as int + 4, a + b + c, d2);
                lemma_join(data@, start as int, idb, a + b + c + d2);
            }
            Ok(d)
        },
        3 => {
            let local_anchor1 = match take_vector(data, pos) {
                Ok(v) => v,
                Err(e) => {
                    return Err(e);
                },
            };
            let local_axis1 = match take_vector(data, pos) {
                Ok(v) => v,
                Err(e) => {
                    return Err(e);
                },
            };
            let local_anchor2 = match take_vector(data, pos) {
                Ok(v) => v,
                Err(e) => {
                    return Err(e);
                },
            };
            let local_axis2 = match take_vector(data, pos) {
                Ok(v) => v,
                Err(e) => {
                    return Err(e);
                },
            };
            let d = JointParamsDesc::RevoluteJoint(
                RevoluteJointDesc { local_anchor1, local_axis1, local_anchor2, local_axis2 },
            );
            proof {
                let a = enc_vector(local_anchor1);
                let b = enc_vector(local_axis1);
                let c = enc_vector(local_anchor2);
                let d2 = enc_vector(local_axis2);
                lemma_join(data@, start as int + 4, a, b);
                lemma_join(data@, start as int + 4, a + b, c);
                lemma_join(data@, start as int + 4, a + b + c, d2);
                lemma_join(data@, start as int, idb, a + b + c + d2);
            }
            Ok(d)
        },
        _ => {
            *pos = start;
            Err(VisitError)
        },
    }
}

/// The bytes of a body status: its wire discriminant.
pub open spec fn enc_status(v: BodyStatusDesc) -> Seq<u8> {
    spec_u32_to_le_bytes(body_status_id_spec(v))
}

/// Appends a body status.
pub fn put_status(out: &mut Vec<u8>, v: BodyStatusDesc)
    ensures
        final(out)@ == old(out)@ + enc_status(v),
{
    put_u32(out, v.id());
}

/// Reads a body status; an unknown discriminant is a hard error.
pub fn take_status(data: &Vec<u8>, pos: &mut usize) -> (r: Result<BodyStatusDesc, VisitError>)
    ensures
        r matches Ok(v) ==> *final(pos) == *old(pos) + enc_status(v).len() && starts_with(
            data@,
            *old(pos) as int,
            enc_status(v),
        ),
        r is Err ==> *final(pos) >= *old(pos),
        forall|v: BodyStatusDesc|
            starts_with(data@, *old(pos) as int, #[trigger] enc_status(v)) ==> r == Ok::<
                BodyStatusDesc,
                VisitError,
            >(v),
{
    proof {
        vstd::bytes::lemma_auto_spec_u32_to_from_le_bytes();
    }
    let start = *pos;
    let id = match take_u32(data, pos) {
        Ok(id) => id,
        Err(e) => {
            return Err(e);
        },
    };
    match BodyStatusDesc::from_id(id) {
        Ok(v) => Ok(v),
        Err(_) => {
            *pos = start;
            Err(VisitError)
        },
    }
}

/// The bytes of the integration configuration: its thirteen scalars then
/// its four counters, in declaration order.
pub open spec fn enc_iparams(p: IntegrationParametersDesc) -> Seq<u8> {
    enc_scalar(p.dt) + enc_scalar(p.erp) + enc_scalar(p.min_ccd_dt) + enc_scalar(p.joint_erp)
        + enc_scalar(p.warmstart_coeff) + enc_scalar(p.warmstart_correction_slope) + enc_scalar(
        p.velocity_solve_fraction,
    ) + enc_scalar(p.velocity_based_erp) + enc_scalar(p.allowed_linear_error) + enc_scalar(
        p.prediction_distance,
    ) + enc_scalar(p.allowed_angular_error) + enc_scalar(p.max_linear_correction) + enc_scalar(
        p.max_angular_correction,
    ) + spec_u32_to_le_bytes(p.max_velocity_iterations) + spec_u32_to_le_bytes(
        p.max_position_iterations,
    ) + spec_u32_to_le_bytes(p.min_island_size) + spec_u32_to_le_bytes(p.max_ccd_substeps)
}

/// The stock minimum island size that a stored zero is normalized to on
/// read, keeping older saves working.
pub const DEFAULT_MIN_ISLAND_SIZE: u32 = 128;

/// The stored configuration with its minimum island size zeroed; what an
/// older save that carried a zero looked like on disk.
pub open spec fn zero_island(p: IntegrationParametersDesc) -> IntegrationParametersDesc {
    IntegrationParametersDesc { min_island_size: 0, ..p }
}

/// A descriptor set as an older save stored it: the same set with its
/// minimum island size zeroed.
pub open spec fn with_zero_island(d: PhysicsDesc) -> PhysicsDesc {
    PhysicsDesc { integration_parameters: zero_island(d.integration_parameters), ..d }
}

/// The core sections lie at a position either exactly as the value has
/// them, or with the minimum island size stored as zero before the read
/// normalized it.
pub open spec fn core_present(
    data: Seq<u8>,
    pos: int,
    ip: IntegrationParametersDesc,
    g: Vector3,
    cs: Seq<ColliderDesc>,
    bs: Seq<RigidBodyDesc>,
    js: Seq<JointDesc>,
) -> bool {
    starts_with(data, pos, enc_core(ip, g, cs, bs, js)) || (ip.min_island_size
        == DEFAULT_MIN_ISLAND_SIZE && starts_with(data, pos, enc_core(zero_island(ip), g, cs, bs, js)))
}

/// The read-path normalization: a stored minimum island size of zero
/// becomes the stock value; anything else is kept.
pub open spec fn spec_repair_iparams(p: IntegrationParametersDesc) -> IntegrationParametersDesc {
    if p.min_island_size == 0 {
        IntegrationParametersDesc { min_island_size: DEFAULT_MIN_ISLAND_SIZE, ..p }
    } else {
        p
    }
}

/// Appends the integration configuration.
pub fn put_iparams(out: &mut Vec<u8>, p: &IntegrationParametersDesc)
    ensures
        final(out)@ == old(out)@ + enc_iparams(*p),
{
    put_scalar(out, p.dt);
    put_scalar(out, p.erp);
    put_scalar(out, p.min_ccd_dt);
    put_scalar(out, p.joint_erp);
    put_scalar(out, p.warmstart_coeff);
    put_scalar(out, p.warmstart_correction_slope);
    put_scalar(out, p.velocity_solve_fraction);
    put_scalar(out, p.velocity_based_erp);
    put_scalar(out, p.allowed_linear_error);
    put_scalar(out, p.prediction_distance);
    put_scalar(out, p.allowed_angular_error);
    put_scalar(out, p.max_linear_correction);
    put_scalar(out, p.max_angular_correction);
    put_u32(out, p.max_velocity_iterations);
    put_u32(out, p.max_position_iterations);
    put_u32(out, p.min_island_size);
    put_u32(out, p.max_ccd_substeps);
    proof {
        assert(out@ =~= old(out)@ + enc_iparams(*p));
    }
}

/// Reads the integration configuration, normalizing a stored minimum
/// island size of zero to the stock value.
pub fn take_iparams(data: &Vec<u8>, pos: &mut usize) -> (r: Result<
    IntegrationParametersDesc,
    VisitError,
>)
    ensures
        r matches Ok(v) ==> v.min_island_size != 0 && *final(pos) == *old(pos) + enc_iparams(
            v,
        ).len() && (starts_with(data@, *old(pos) as int, enc_iparams(v)) || (v.min_island_size
            == DEFAULT_MIN_ISLAND_SIZE && starts_with(
            data@,
            *old(pos) as int,
            enc_iparams(zero_island(v)),
        ))),
        r is Err ==> *final(pos) >= *old(pos),
        forall|v: IntegrationParametersDesc|
            starts_with(data@, *old(pos) as int, #[trigger] enc_iparams(v)) ==> r == Ok::<
                IntegrationParametersDesc,
                VisitError,
            >(spec_repair_iparams(v)),
{
    proof {
        vstd::bytes::lemma_auto_spec_u32_to_from_le_bytes();
        iparams_completeness_split(data@, *pos as int);
    }
    let start = *pos;
    let mut fields: [u32; 17] = [0; 17];
    let mut i: usize = 0;
    while i < 17
        invariant
            i <= 17,
            start == *old(pos),
            *pos == start + 4 * i,
            forall|j: int|
                0 <= j < i ==> starts_with(
                    data@,
                    start as int + 4 * j,
                    spec_u32_to_le_bytes(#[trigger] fields@[j]),
                ),
        decreases 17 - i,
    {
        let v = match take_u32(data, pos) {
            Ok(v) => v,
            Err(e) => {
                proof {
                    assert forall|v2: IntegrationParametersDesc|
                        !starts_with(data@, start as int, #[trigger] enc_iparams(v2)) by {
                        if starts_with(data@, start as int, enc_iparams(v2)) {
                            iparams_completeness_split(data@, start as int);
                            assert(starts_with(
                                data@,
                                start as int + 4 * (i as int),
                                spec_u32_to_le_bytes(iparams_words(v2)[i as int]),
                            ));
                        }
                    }
                }
                return Err(e);
            },
        };
        fields.set(i, v);
        proof {
            vstd::bytes::lemma_auto_spec_u32_to_from_le_bytes();
            assert forall|j: int|
                0 <= j < i + 1 implies starts_with(
                data@,
                start as int + 4 * j,
                spec_u32_to_le_bytes(#[trigger] fields@[j]),
            ) by {}
        }
        i += 1;
    }
    let stored_island = fields[15];
    let repaired_island = if stored_island == 0 {
        DEFAULT_MIN_ISLAND_SIZE
    } else {
        stored_island
    };
    let p = IntegrationParametersDesc {
        dt: Scalar { bits: fields[0] },
        erp: Scalar { bits: fields[1] },
        min_ccd_dt: Scalar { bits: fields[2] },
        joint_erp: Scalar { bits: fields[3] },
        warmstart_coeff: Scalar { bits: fields[4] },
        warmstart_correction_slope: Scalar { bits: fields[5] },
        velocity_solve_fraction: Scalar { bits: fields[6] },
        velocity_based_erp: Scalar { bits: fields[7] },
        allowed_linear_error: Scalar { bits: fields[8] },
        prediction_distance: Scalar { bits: fields[9] },
        allowed_angular_error: Scalar { bits: fields[10] },
        max_linear_correction: Scalar { bits: fields[11] },
        max_angular_correction: Scalar { bits: fields[12] },
        max_velocity_iterations: fields[13],
        max_position_iterations: fields[14],
        min_island_size: repaired_island,
        max_ccd_substeps: fields[16],
    };
    let ghost stored = IntegrationParametersDesc { min_island_size: stored_island, ..p };
    proof {
        assert(p == spec_repair_iparams(stored));
        assert(iparams_words(stored) =~= fields@);
        lemma_iparams_parts(data@, start as int, stored);
        assert forall|v2: IntegrationParametersDesc|
            starts_with(data@, start as int, #[trigger] enc_iparams(v2)) implies stored == v2 by {
            iparams_completeness_split(data@, start as int);
            assert forall|j: int| 0 <= j < 17 implies fields@[j] == iparams_words(v2)[j] by {
                vstd::bytes::lemma_auto_spec_u32_to_from_le_bytes();
                assert(starts_with(
                    data@,
                    start as int + 4 * j,
                    spec_u32_to_le_bytes(iparams_words(v2)[j]),
                ));
                assert(starts_with(
                    data@,
                    start as int + 4 * j,
                    spec_u32_to_le_bytes(fields@[j]),
                ));
                assert(spec_u32_to_le_bytes(fields@[j]) == spec_u32_to_le_bytes(
                    iparams_words(v2)[j],
                ));
            }
            assert(fields@[0] == iparams_words(v2)[0]);
            assert(fields@[1] == iparams_words(v2)[1]);
            assert(fields@[2] == iparams_words(v2)[2]);
            assert(fields@[3] == iparams_words(v2)[3]);
            assert(fields@[4] == iparams_words(v2)[4]);
            assert(fields@[5] == iparams_words(v2)[5]);
            assert(fields@[6] == iparams_words(v2)[6]);
            assert(fields@[7] == iparams_words(v2)[7]);
            assert(fields@[8] == iparams_words(v2)[8]);
            assert(fields@[9] == iparams_words(v2)[9]);
            assert(fields@[10] == iparams_words(v2)[10]);
            assert(fields@[11] == iparams_words(v2)[11]);
            assert(fields@[12] == iparams_words(v2)[12]);
            assert(fields@[13] == iparams_words(v2)[13]);
            assert(fields@[14] == iparams_words(v2)[14]);
            assert(fields@[15] == iparams_words(v2)[15]);
            assert(fields@[16] == iparams_words(v2)[16]);
            assert(stored == v2);
        }
    }
    Ok(p)
}

/// The integration configuration always occupies the same number of bytes.
proof fn lemma_enc_iparams_len(p: IntegrationParametersDesc)
    ensures
        enc_iparams(p).len() == 68,
{
    vstd::bytes::lemma_auto_spec_u32_to_from_le_bytes();
}

/// Two core sections differing only in the stored configuration have the
/// same byte length.
proof fn lemma_enc_core_len_eq(
    a: IntegrationParametersDesc,
    b: IntegrationParametersDesc,
    g: Vector3,
    cs: Seq<ColliderDesc>,
    bs: Seq<RigidBodyDesc>,
    js: Seq<JointDesc>,
)
    ensures
        enc_core(a, g, cs, bs, js).len() == enc_core(b, g, cs, bs, js).len(),
{
    lemma_enc_iparams_len(a);
    lemma_enc_iparams_len(b);
}

/// The seventeen raw little-endian words of an integration configuration.
pub open spec fn iparams_words(p: IntegrationParametersDesc) -> Seq<u32> {
    seq![
        p.dt.bits,
        p.erp.bits,
        p.min_ccd_dt.bits,
        p.joint_erp.bits,
        p.warmstart_coeff.bits,
        p.warmstart_correction_slope.bits,
        p.velocity_solve_fraction.bits,
        p.velocity_based_erp.bits,
        p.allowed_linear_error.bits,
        p.prediction_distance.bits,
        p.allowed_angular_error.bits,
        p.max_linear_correction.bits,
        p.max_angular_correction.bits,
        p.max_velocity_iterations,
        p.max_position_iterations,
        p.min_island_size,
        p.max_ccd_substeps,
    ]
}

/// If each of seventeen words lies at its offset, the configuration built
/// from them lies there whole; and conversely the whole splits into words.
proof fn lemma_iparams_parts(data: Seq<u8>, pos: int, p: IntegrationParametersDesc)
    requires
        forall|j: int|
            0 <= j < 17 ==> starts_with(
                data,
                pos + 4 * j,
                spec_u32_to_le_bytes(#[trigger] iparams_words(p)[j]),
            ),
    ensures
        starts_with(data, pos, enc_iparams(p)),
{
    vstd::bytes::lemma_auto_spec_u32_to_from_le_bytes();
    let w = iparams_words(p);
    assert(starts_with(data, pos, spec_u32_to_le_bytes(w[0])));
    let acc = spec_u32_to_le_bytes(w[0]);
    assert(starts_with(data, pos, acc));
    let a1 = acc + spec_u32_to_le_bytes(w[1]);
    lemma_join(data, pos, acc, spec_u32_to_le_bytes(w[1]));
    let a2 = a1 + spec_u32_to_le_bytes(w[2]);
    lemma_join(data, pos, a1, spec_u32_to_le_bytes(w[2]));
    let a3 = a2 + spec_u32_to_le_bytes(w[3]);
    lemma_join(data, pos, a2, spec_u32_to_le_bytes(w[3]));
    let a4 = a3 + spec_u32_to_le_bytes(w[4]);
    lemma_join(data, pos, a3, spec_u32_to_le_bytes(w[4]));
    let a5 = a4 + spec_u32_to_le_bytes(w[5]);
    lemma_join(data, pos, a4, spec_u32_to_le_bytes(w[5]));
    let a6 = a5 + spec_u32_to_le_bytes(w[6]);
    lemma_join(data, pos, a5, spec_u32_to_le_bytes(w[6]));
    let a7 = a6 + spec_u32_to_le_bytes(w[7]);
    lemma_join(data, pos, a6, spec_u32_to_le_bytes(w[7]));
    let a8 = a7 + spec_u32_to_le_bytes(w[8]);
    lemma_join(data, pos, a7, spec_u32_to_le_bytes(w[8]));
    let a9 = a8 + spec_u32_to_le_bytes(w[9]);
    lemma_join(data, pos, a8, spec_u32_to_le_bytes(w[9]));
    let a10 = a9 + spec_u32_to_le_bytes(w[10]);
    lemma_join(data, pos, a9, spec_u32_to_le_bytes(w[10]));
    let a11 = a10 + spec_u32_to_le_bytes(w[11]);
    lemma_join(data, pos, a10, spec_u32_to_le_bytes(w[11]));
    let a12 = a11 + spec_u32_to_le_bytes(w[12]);
    lemma_join(data, pos, a11, spec_u32_to_le_bytes(w[12]));
    let a13 = a12 + spec_u32_to_le_bytes(w[13]);
    lemma_join(data, pos, a12, spec_u32_to_le_bytes(w[13]));
    let a14 = a13 + spec_u32_to_le_bytes(w[14]);
    lemma_join(data, pos, a13, spec_u32_to_le_bytes(w[14]));
    let a15 = a14 + spec_u32_to_le_bytes(w[15]);
    lemma_join(data, pos, a14, spec_u32_to_le_bytes(w[15]));
    let a16 = a15 + spec_u32_to_le_bytes(w[16]);
    lemma_join(data, pos, a15, spec_u32_to_le_bytes(w[16]));
    assert(a16 =~= enc_iparams(p));
}

/// Splitting every hypothetical configuration encoding into its words, for
/// completeness.
proof fn iparams_completeness_split(data: Seq<u8>, pos: int)
    ensures
        forall|p: IntegrationParametersDesc|
            starts_with(data, pos, #[trigger] enc_iparams(p)) ==> forall|j: int|
                0 <= j < 17 ==> starts_with(
                    data,
                    pos + 4 * j,
                    spec_u32_to_le_bytes(#[trigger] iparams_words(p)[j]),
                ),
{
    assert forall|p: IntegrationParametersDesc|
        starts_with(data, pos, #[trigger] enc_iparams(p)) implies forall|j: int|
        0 <= j < 17 ==> starts_with(
            data,
            pos + 4 * j,
            spec_u32_to_le_bytes(#[trigger] iparams_words(p)[j]),
        ) by {
        vstd::bytes::lemma_auto_spec_u32_to_from_le_bytes();
        let w = iparams_words(p);
        let e16 = spec_u32_to_le_bytes(w[16]);
        let p15 = enc_iparams(p).subrange(0, 64);
        assert(enc_iparams(p) =~= p15 + e16);
        lemma_split(data, pos, p15, e16);
        let e15 = spec_u32_to_le_bytes(w[15]);
        let p14 = p15.subrange(0, 60);
        assert(p15 =~= p14 + e15);
        lemma_split(data, pos, p14, e15);
        let e14 = spec_u32_to_le_bytes(w[14]);
        let p13 = p14.subrange(0, 56);
        assert(p14 =~= p13 + e14);
        lemma_split(data, pos, p13, e14);
        let e13 = spec_u32_to_le_bytes(w[13]);
        let p12 = p13.subrange(0, 52);
        assert(p13 =~= p12 + e13);
        lemma_split(data, pos, p12, e13);
        let e12 = spec_u32_to_le_bytes(w[12]);
        let p11 = p12.subrange(0, 48);
        assert(p12 =~= p11 + e12);
        lemma_split(data, pos, p11, e12);
        let e11 = spec_u32_to_le_bytes(w[11]);
        let p10 = p11.subrange(0, 44);
        assert(p11 =~= p10 + e11);
        lemma_split(data, pos, p10, e11);
        let e10 = spec_u32_to_le_bytes(w[10]);
        let p9 = p10.subrange(0, 40);
        assert(p10 =~= p9 + e10);
        lemma_split(data, pos, p9, e10);
        let e9 = spec_u32_to_le_bytes(w[9]);
        let p8 = p9.subrange(0, 36);
        assert(p9 =~= p8 + e9);
        lemma_split(data, pos, p8, e9);
        let e8 = spec_u32_to_le_bytes(w[8]);
        let p7 = p8.subrange(0, 32);
        assert(p8 =~= p7 + e8);
        lemma_split(data, pos, p7, e8);
        let e7 = spec_u32_to_le_bytes(w[7]);
        let p6 = p7.subrange(0, 28);
        assert(p7 =~= p6 + e7);
        lemma_split(data, pos, p6, e7);
        let e6 = spec_u32_to_le_bytes(w[6]);
        let p5 = p6.subrange(0, 24);
        assert(p6 =~= p5 + e6);
        lemma_split(data, pos, p5, e6);
        let e5 = spec_u32_to_le_bytes(w[5]);
        let p4 = p5.subrange(0, 20);
        assert(p5 =~= p4 + e5);
        lemma_split(data, pos, p4, e5);
        let e4 = spec_u32_to_le_bytes(w[4]);
        let p3 = p4.subrange(0, 16);
        assert(p4 =~= p3 + e4);
        lemma_split(data, pos, p3, e4);
        let e3 = spec_u32_to_le_bytes(w[3]);
        let p2 = p3.subrange(0, 12);
        assert(p3 =~= p2 + e3);
        lemma_split(data, pos, p2, e3);
        let e2 = spec_u32_to_le_bytes(w[2]);
        let p1 = p2.subrange(0, 8);
        assert(p2 =~= p1 + e2);
        lemma_split(data, pos, p1, e2);
        let e1 = spec_u32_to_le_bytes(w[1]);
        let p0 = p1.subrange(0, 4);
        assert(p1 =~= p0 + e1);
        lemma_split(data, pos, p0, e1);
        assert(p0 =~= spec_u32_to_le_bytes(w[0]));
        assert forall|j: int| 0 <= j < 17 implies starts_with(
            data,
            pos + 4 * j,
            spec_u32_to_le_bytes(#[trigger] iparams_words(p)[j]),
        ) by {}
    }
}

/// The bytes of a sequence of encoded elements, in order.
pub open spec fn enc_list_of<T>(s: Seq<T>, f: spec_fn(T) -> Seq<u8>) -> Seq<u8>
    decreases s.len(),
{
    if s.len() == 0 {
        Seq::empty()
    } else {
        enc_list_of(s.drop_last(), f) + f(s.last())
    }
}

/// A nonempty element sequence's bytes start with its first element's.
pub proof fn lemma_enc_list_front<T>(s: Seq<T>, f: spec_fn(T) -> Seq<u8>)
    requires
        s.len() > 0,
    ensures
        enc_list_of(s, f) == f(s[0]) + enc_list_of(s.drop_first(), f),
    decreases s.len(),
{
    if s.len() == 1 {
        assert(s.drop_last() =~= Seq::<T>::empty());
        assert(s.drop_first() =~= Seq::<T>::empty());
        assert(enc_list_of(s, f) =~= f(s[0]) + enc_list_of(s.drop_first(), f));
    } else {
        lemma_enc_list_front(s.drop_last(), f);
        assert(s.drop_last()[0] == s[0]);
        assert(s.drop_first().drop_last() =~= s.drop_last().drop_first());
        assert(s.drop_first().last() == s.last());
        assert(enc_list_of(s.drop_first(), f) == enc_list_of(s.drop_first().drop_last(), f) + f(
            s.drop_first().last(),
        ));
        assert(enc_list_of(s, f) =~= f(s[0]) + enc_list_of(s.drop_first(), f));
    }
}

/// The bytes of one translation pair: engine identifier, slot index, slot
/// generation.
pub open spec fn enc_pair(p: TablePair) -> Seq<u8> {
    spec_u128_to_le_bytes(p.engine) + spec_u32_to_le_bytes(p.solver.index) + spec_u32_to_le_bytes(
        p.solver.generation,
    )
}

/// The bytes of a translation table: its pair count, then its pairs in
/// insertion order.
pub open spec fn enc_table(t: HandleTable) -> Seq<u8> {
    spec_u64_to_le_bytes(t@.len() as u64) + enc_list_of(t@, |p: TablePair| enc_pair(p))
}

/// Appends a translation table.
pub fn put_table(out: &mut Vec<u8>, t: &HandleTable)
    ensures
        final(out)@ == old(out)@ + enc_table(*t),
{
    let n = t.len();
    put_u64(out, n as u64);
    let ghost f = |p: TablePair| enc_pair(p);
    let mut i: usize = 0;
    while i < n
        invariant
            i <= n,
            n == t@.len(),
            f == (|p: TablePair| enc_pair(p)),
            out@ == old(out)@ + spec_u64_to_le_bytes(n as u64) + enc_list_of(t@.take(i as int), f),
        decreases n - i,
    {
        let p = t.pair_at(i);
        put_u128(out, p.engine);
        put_u32(out, p.solver.index);
        put_u32(out, p.solver.generation);
        proof {
            assert(t@.take(i + 1).drop_last() =~= t@.take(i as int));
            assert(t@.take(i + 1).last() == t@[i as int]);
            assert(enc_list_of(t@.take(i + 1), f) == enc_list_of(t@.take(i as int), f) + enc_pair(
                p,
            ));
            assert(out@ =~= old(out)@ + spec_u64_to_le_bytes(n as u64) + enc_list_of(
                t@.take(i + 1),
                f,
            ));
        }
        i += 1;
    }
    proof {
        assert(t@.take(n as int) =~= t@);
        assert(out@ =~= old(out)@ + enc_table(*t));
    }
}

/// Reads a translation table.
pub fn take_table(data: &Vec<u8>, pos: &mut usize) -> (r: Result<HandleTable, VisitError>)
    ensures
        r matches Ok(t) ==> *final(pos) == *old(pos) + enc_table(t).len() && starts_with(
            data@,
            *old(pos) as int,
            enc_table(t),
        ),
        r is Err ==> *final(pos) >= *old(pos),
        forall|t: HandleTable|
            starts_with(data@, *old(pos) as int, #[trigger] enc_table(t)) ==> (r matches Ok(t2)
                && t2@ == t@),
{
    proof {
        vstd::bytes::lemma_auto_spec_u32_to_from_le_bytes();
        vstd::bytes::lemma_auto_spec_u64_to_from_le_bytes();
        vstd::bytes::lemma_auto_spec_u128_to_from_le_bytes();
    }
    let ghost f = |p: TablePair| enc_pair(p);
    let start = *pos;
    let count = match take_u64(data, pos) {
        Ok(v) => v,
        Err(e) => {
            proof {
                assert forall|t: HandleTable|
                    !starts_with(data@, start as int, #[trigger] enc_table(t)) by {
                    if starts_with(data@, start as int, enc_table(t)) {
                        lemma_split(
                            data@,
                            start as int,
                            spec_u64_to_le_bytes(t@.len() as u64),
                            enc_list_of(t@, f),
                        );
                    }
                }
            }
            return Err(e);
        },
    };
    let mut pairs: Vec<TablePair> = Vec::new();
    proof {
        assert(data@.subrange(start as int + 8, start as int + 8) =~= enc_list_of(pairs@, f));
    }
    let mut i: u64 = 0;
    while i < count
        invariant
            i <= count,
            start == *old(pos),
            pairs@.len() == i,
            *pos == start + 8 + 24 * i,
            *pos <= data@.len(),
            start + 8 <= data@.len(),
            f == (|p: TablePair| enc_pair(p)),
            data@.subrange(start as int, start as int + 8) == spec_u64_to_le_bytes(count),
            starts_with(data@, start as int + 8, enc_list_of(pairs@, f)),
            enc_list_of(pairs@, f).len() == 24 * i,
        decreases count - i,
    {
        proof {
            vstd::bytes::lemma_auto_spec_u32_to_from_le_bytes();
            vstd::bytes::lemma_auto_spec_u64_to_from_le_bytes();
            vstd::bytes::lemma_auto_spec_u128_to_from_le_bytes();
        }
        let ghost mid = *pos;
        let engine = match take_u128(data, pos) {
            Ok(v) => v,
            Err(e) => {
                proof {
                    table_reader_stuck(data@, start as int, count, pairs@, i as int);
                }
                return Err(e);
            },
        };
        let index = match take_u32(data, pos) {
            Ok(v) => v,
            Err(e) => {
                proof {
                    table_reader_stuck(data@, start as int, count, pairs@, i as int);
                }
                return Err(e);
            },
        };
        let generation = match take_u32(data, pos) {
            Ok(v) => v,
            Err(e) => {
                proof {
                    table_reader_stuck(data@, start as int, count, pairs@, i as int);
                }
                return Err(e);
            },
        };
        let p = TablePair { engine, solver: SolverHandle { index, generation } };
        let ghost prev = pairs@;
        pairs.push(p);
        proof {
            lemma_join(
                data@,
                mid as int,
                spec_u128_to_le_bytes(engine),
                spec_u32_to_le_bytes(index),
            );
            lemma_join(
                data@,
                mid as int,
                spec_u128_to_le_bytes(engine) + spec_u32_to_le_bytes(index),
                spec_u32_to_le_bytes(generation),
            );
            assert(data@.subrange(mid as int, mid as int + 24) =~= enc_pair(p));
            assert(starts_with(data@, mid as int, enc_pair(p)));
            assert(pairs@.drop_last() =~= prev);
            assert(pairs@.last() == p);
            assert(enc_list_of(pairs@, f) == enc_list_of(prev, f) + enc_pair(p));
            lemma_join(data@, start as int + 8, enc_list_of(prev, f), enc_pair(p));
        }
        i += 1;
    }
    let t = HandleTable::from_pairs(pairs);
    proof {
        assert(enc_table(t) =~= spec_u64_to_le_bytes(count) + enc_list_of(t@, f));
        lemma_join(data@, start as int, spec_u64_to_le_bytes(count), enc_list_of(t@, f));
        assert forall|t2: HandleTable|
            starts_with(data@, start as int, #[trigger] enc_table(t2)) implies t@ == t2@ by {
            lemma_split(
                data@,
                start as int,
                spec_u64_to_le_bytes(t2@.len() as u64),
                enc_list_of(t2@, f),
            );
            assert(data@.subrange(start as int, start as int + 8) == spec_u64_to_le_bytes(
                t2@.len() as u64,
            ));
            assert(t2@.len() as u64 == count);
            assert forall|x: TablePair| (#[trigger] f(x)).len() == 24 by {
                assert(f(x) == enc_pair(x));
            }
            lemma_enc_list_len(t2@, f, 24);
            assert(24 * t2@.len() <= data@.len());
            vstd::std_specs::vec::axiom_spec_len(data);
            assert(data@.len() <= usize::MAX);
            assert(t2@.len() < 0x1_0000_0000_0000_0000) by (nonlinear_arith)
                requires 24 * t2@.len() <= data@.len(), data@.len() < 0x1_0000_0000_0000_0000;
            assert(t2@.len() == count);
            lemma_list_pinned(data@, start as int + 8, pairs@, t2@, f);
        }
    }
    Ok(t)
}

/// Fixed-size elements make a list's byte length proportional to its count.
pub proof fn lemma_enc_list_len<T>(s: Seq<T>, f: spec_fn(T) -> Seq<u8>, k: int)
    requires
        forall|x: T| (#[trigger] f(x)).len() == k,
    ensures
        enc_list_of(s, f).len() == k * s.len(),
    decreases s.len(),
{
    if s.len() > 0 {
        lemma_enc_list_len(s.drop_last(), f, k);
        assert(k * s.len() == k * (s.len() - 1) + k) by (nonlinear_arith);
    }
}

/// If the stream cannot yield another pair, no hypothetical table whose
/// prefix matched so far can encode here.
proof fn table_reader_stuck(
    data: Seq<u8>,
    start: int,
    count: u64,
    sofar: Seq<TablePair>,
    i: int,
)
    requires
        0 <= start,
        start + 8 <= data.len(),
        data.subrange(start, start + 8) == spec_u64_to_le_bytes(count),
        sofar.len() == i,
        enc_list_of(sofar, |p: TablePair| enc_pair(p)).len() == 24 * i,
        i < count,
        data.len() < start + 8 + 24 * i + 24,
    ensures
        forall|t: HandleTable| !starts_with(data, start, #[trigger] enc_table(t)),
{
    let f = |p: TablePair| enc_pair(p);
    assert forall|t: HandleTable| !starts_with(data, start, #[trigger] enc_table(t)) by {
        if starts_with(data, start, enc_table(t)) {
            vstd::bytes::lemma_auto_spec_u64_to_from_le_bytes();
            vstd::bytes::lemma_auto_spec_u128_to_from_le_bytes();
            vstd::bytes::lemma_auto_spec_u32_to_from_le_bytes();
            lemma_split(data, start, spec_u64_to_le_bytes(t@.len() as u64), enc_list_of(t@, f));
            assert(t@.len() as u64 == count);
            assert forall|x: TablePair| (#[trigger] f(x)).len() == 24 by {
                assert(f(x) == enc_pair(x));
            }
            lemma_enc_list_len(t@, f, 24);
            assert(count <= u64::MAX);
            assert(t@.len() >= i + 1);
            assert(enc_list_of(t@, f).len() == 24 * t@.len());
            assert(24 * t@.len() >= 24 * (i + 1)) by (nonlinear_arith)
                requires t@.len() >= i + 1, i >= 0;
            assert(data.len() >= start + 8 + 24 * (i + 1));
        }
    }
}

/// Two pair lists that encode the same bytes at the same position, where
/// one is complete, are the same list.
proof fn lemma_list_pinned(
    data: Seq<u8>,
    pos: int,
    a: Seq<TablePair>,
    b: Seq<TablePair>,
    f: spec_fn(TablePair) -> Seq<u8>,
)
    requires
        f == (|p: TablePair| enc_pair(p)),
        a.len() == b.len(),
        starts_with(data, pos, enc_list_of(a, f)),
        starts_with(data, pos, enc_list_of(b, f)),
    ensures
        a == b,
    decreases a.len(),
{
    vstd::bytes::lemma_auto_spec_u64_to_from_le_bytes();
    vstd::bytes::lemma_auto_spec_u128_to_from_le_bytes();
    vstd::bytes::lemma_auto_spec_u32_to_from_le_bytes();
    if a.len() == 0 {
        assert(a =~= b);
    } else {
        lemma_enc_list_front(a, f);
        lemma_enc_list_front(b, f);
        assert(f(a[0]) == enc_pair(a[0]));
        assert(f(b[0]) == enc_pair(b[0]));
        lemma_split(data, pos, enc_pair(a[0]), enc_list_of(a.drop_first(), f));
        lemma_split(data, pos, enc_pair(b[0]), enc_list_of(b.drop_first(), f));
        let ea = enc_pair(a[0]);
        let eb = enc_pair(b[0]);
        assert(ea == data.subrange(pos, pos + 24));
        assert(eb == data.subrange(pos, pos + 24));
        assert(ea == eb);
        lemma_pair_injective(a[0], b[0]);
        lemma_list_pinned(data, pos + 24, a.drop_first(), b.drop_first(), f);
        assert(a =~= b) by {
            assert(a[0] == b[0]);
            assert forall|m: int| 0 <= m < a.len() implies a[m] == b[m] by {
                if m > 0 {
                    assert(a.drop_first()[m - 1] == b.drop_first()[m - 1]);
                }
            }
        }
    }
}

/// Pair encoding is injective.
proof fn lemma_pair_injective(a: TablePair, b: TablePair)
    requires
        enc_pair(a) == enc_pair(b),
    ensures
        a == b,
{
    vstd::bytes::lemma_auto_spec_u128_to_from_le_bytes();
    vstd::bytes::lemma_auto_spec_u32_to_from_le_bytes();
    let ea = enc_pair(a);
    let eb = enc_pair(b);
    assert(ea.subrange(0, 16) =~= spec_u128_to_le_bytes(a.engine));
    assert(eb.subrange(0, 16) =~= spec_u128_to_le_bytes(b.engine));
    assert(ea.subrange(16, 20) =~= spec_u32_to_le_bytes(a.solver.index));
    assert(eb.subrange(16, 20) =~= spec_u32_to_le_bytes(b.solver.index));
    assert(ea.subrange(20, 24) =~= spec_u32_to_le_bytes(a.solver.generation));
    assert(eb.subrange(20, 24) =~= spec_u32_to_le_bytes(b.solver.generation));
}

/// The bytes of one body descriptor: placement, velocities, flags, status,
/// attached collider handles, then mass and the lock flags, in fixed order.
pub open spec fn enc_body(d: RigidBodyDesc) -> Seq<u8> {
    enc_vector(d.position) + enc_rotation(d.rotation) + enc_vector(d.linvel) + enc_vector(d.angvel)
        + enc_bool(d.sleeping) + enc_status(d.status) + spec_u64_to_le_bytes(
        d.colliders@.len() as u64,
    ) + enc_list_of(d.colliders@, |h: ColliderHandle| spec_u128_to_le_bytes(h.id)) + enc_scalar(
        d.mass,
    ) + enc_bool(d.x_rotation_locked) + enc_bool(d.y_rotation_locked) + enc_bool(
        d.z_rotation_locked,
    ) + enc_bool(d.translation_locked)
}

/// Appending one more piece to a built prefix regroups freely.
pub proof fn lemma_prefix_concat(base: Seq<u8>, a: Seq<u8>, b: Seq<u8>)
    ensures
        (base + a) + b == base + (a + b),
{
    assert((base + a) + b =~= base + (a + b));
}

/// Appends one body descriptor.
#[verifier::rlimit(100)]
pub fn put_body(out: &mut Vec<u8>, d: &RigidBodyDesc)
    ensures
        final(out)@ == old(out)@ + enc_body(*d),
{
    let ghost f = |h: ColliderHandle| spec_u128_to_le_bytes(h.id);
    let ghost base = out@;
    put_vector(out, d.position);
    let ghost q1 = enc_vector(d.position);
    put_rotation(out, d.rotation);
    let ghost q2 = q1 + enc_rotation(d.rotation);
    proof {
        lemma_prefix_concat(base, q1, enc_rotation(d.rotation));
    }
    put_vector(out, d.linvel);
    let ghost q3 = q2 + enc_vector(d.linvel);
    proof {
        lemma_prefix_concat(base, q2, enc_vector(d.linvel));
    }
    put_vector(out, d.angvel);
    let ghost q4 = q3 + enc_vector(d.angvel);
    proof {
        lemma_prefix_concat(base, q3, enc_vector(d.angvel));
    }
    put_bool(out, d.sleeping);
    let ghost q5 = q4 + enc_bool(d.sleeping);
    proof {
        lemma_prefix_concat(base, q4, enc_bool(d.sleeping));
    }
    put_status(out, d.status);
    let ghost q6 = q5 + enc_status(d.status);
    proof {
        lemma_prefix_concat(base, q5, enc_status(d.status));
    }
    let n = d.colliders.len();
    put_u64(out, n as u64);
    let ghost q7 = q6 + spec_u64_to_le_bytes(n as u64);
    proof {
        lemma_prefix_concat(base, q6, spec_u64_to_le_bytes(n as u64));
        assert(out@ == base + q7);
    }
    let ghost head = out@;
    let mut i: usize = 0;
    while i < n
        invariant
            i <= n,
            n == d.colliders@.len(),
            f == (|h: ColliderHandle| spec_u128_to_le_bytes(h.id)),
            out@ == head + enc_list_of(d.colliders@.take(i as int), f),
        decreases n - i,
    {
        put_u128(out, d.colliders[i].id);
        proof {
            assert(d.colliders@.take(i + 1).drop_last() =~= d.colliders@.take(i as int));
            assert(d.colliders@.take(i + 1).last() == d.colliders@[i as int]);
            assert(out@ =~= head + enc_list_of(d.colliders@.take(i + 1), f));
        }
        i += 1;
    }
    let ghost q8 = q7 + enc_list_of(d.colliders@, f);
    proof {
        assert(d.colliders@.take(n as int) =~= d.colliders@);
        assert(out@ == head + enc_list_of(d.colliders@, f));
        lemma_prefix_concat(base, q7, enc_list_of(d.colliders@, f));
        assert(out@ == base + q8);
    }
    put_scalar(out, d.mass);
    let ghost q9 = q8 + enc_scalar(d.mass);
    proof {
        lemma_prefix_concat(base, q8, enc_scalar(d.mass));
    }
    put_bool(out, d.x_rotation_locked);
    let ghost q10 = q9 + enc_bool(d.x_rotation_locked);
    proof {
        lemma_prefix_concat(base, q9, enc_bool(d.x_rotation_locked));
    }
    put_bool(out, d.y_rotation_locked);
    let ghost q11 = q10 + enc_bool(d.y_rotation_locked);
    proof {
        lemma_prefix_concat(base, q10, enc_bool(d.y_rotation_locked));
    }
    put_bool(out, d.z_rotation_locked);
    let ghost q12 = q11 + enc_bool(d.z_rotation_locked);
    proof {
        lemma_prefix_concat(base, q11, enc_bool(d.z_rotation_locked));
    }
    put_bool(out, d.translation_locked);
    let ghost q13 = q12 + enc_bool(d.translation_locked);
    proof {
        lemma_prefix_concat(base, q12, enc_bool(d.translation_locked));
        assert(out@ == base + q13);
        assert(q13 == enc_body(*d));
    }
}

/// Reads one body descriptor.
#[verifier::rlimit(100)]
pub fn take_body(data: &Vec<u8>, pos: &mut usize) -> (r: Result<RigidBodyDesc, VisitError>)
    ensures
        r matches Ok(v) ==> *final(pos) == *old(pos) + enc_body(v).len() && starts_with(
            data@,
            *old(pos) as int,
            enc_body(v),
        ),
        r is Err ==> *final(pos) >= *old(pos),
{
    proof {
        vstd::bytes::lemma_auto_spec_u32_to_from_le_bytes();
        vstd::bytes::lemma_auto_spec_u64_to_from_le_bytes();
        vstd::bytes::lemma_auto_spec_u128_to_from_le_bytes();
    }
    let ghost f = |h: ColliderHandle| spec_u128_to_le_bytes(h.id);
    let start = *pos;
    let position = match take_vector(data, pos) {
        Ok(v) => v,
        Err(e) => {
            return Err(e);
        },
    };
    let rotation = match take_rotation(data, pos) {
        Ok(v) => v,
        Err(e) => {
            return Err(e);
        },
    };
    let linvel = match take_vector(data, pos) {
        Ok(v) => v,
        Err(e) => {
            return Err(e);
        },
    };
    let angvel = match take_vector(data, pos) {
        Ok(v) => v,
        Err(e) => {
            return Err(e);
        },
    };
    let sleeping = match take_bool(data, pos) {
        Ok(v) => v,
        Err(e) => {
            return Err(e);
        },
    };
    let status = match take_status(data, pos) {
        Ok(v) => v,
        Err(e) => {
            return Err(e);
        },
    };
    let count = match take_u64(data, pos) {
        Ok(v) => v,
        Err(e) => {
            return Err(e);
        },
    };
    let ghost list_start = *pos;
    let mut colliders: Vec<ColliderHandle> = Vec::new();
    proof {
        assert(data@.subrange(list_start as int, list_start as int) =~= enc_list_of(
            colliders@,
            f,
        ));
    }
    let mut i: u64 = 0;
    while i < count
        invariant
            i <= count,
            colliders@.len() == i,
            f == (|h: ColliderHandle| spec_u128_to_le_bytes(h.id)),
            *pos == list_start + 16 * i,
            *pos <= data@.len(),
            list_start <= data@.len(),
            *old(pos) <= list_start,
            starts_with(data@, list_start as int, enc_list_of(colliders@, f)),
            enc_list_of(colliders@, f).len() == 16 * i,
        decreases count - i,
    {
        proof {
            vstd::bytes::lemma_auto_spec_u128_to_from_le_bytes();
        }
        let ghost mid = *pos;
        let id = match take_u128(data, pos) {
            Ok(v) => v,
            Err(e) => {
                return Err(e);
            },
        };
        let ghost prev = colliders@;
        colliders.push(ColliderHandle { id });
        proof {
            assert(colliders@.drop_last() =~= prev);
            assert(enc_list_of(colliders@, f) == enc_list_of(prev, f) + spec_u128_to_le_bytes(id));
            lemma_join(data@, list_start as int, enc_list_of(prev, f), spec_u128_to_le_bytes(id));
        }
        i += 1;
    }
    let mass = match take_scalar(data, pos) {
        Ok(v) => v,
        Err(e) => {
            return Err(e);
        },
    };
    let x_rotation_locked = match take_bool(data, pos) {
        Ok(v) => v,
        Err(e) => {
            return Err(e);
        },
    };
    let y_rotation_locked = match take_bool(data, pos) {
        Ok(v) => v,
        Err(e) => {
            return Err(e);
        },
    };
    let z_rotation_locked = match take_bool(data, pos) {
        Ok(v) => v,
        Err(e) => {
            return Err(e);
        },
    };
    let translation_locked = match take_bool(data, pos) {
        Ok(v) => v,
        Err(e) => {
            return Err(e);
        },
    };
    let d = RigidBodyDesc {
        position,
        rotation,
        linvel,
        angvel,
        sleeping,
        status,
        colliders,
        mass,
        x_rotation_locked,
        y_rotation_locked,
        z_rotation_locked,
        translation_locked,
    };
    proof {
        let a1 = enc_vector(position);
        let a2 = a1 + enc_rotation(rotation);
        lemma_join(data@, start as int, a1, enc_rotation(rotation));
        let a3 = a2 + enc_vector(linvel);
        lemma_join(data@, start as int, a2, enc_vector(linvel));
        let a4 = a3 + enc_vector(angvel);
        lemma_join(data@, start as int, a3, enc_vector(angvel));
        let a5 = a4 + enc_bool(sleeping);
        lemma_join(data@, start as int, a4, enc_bool(sleeping));
        let a6 = a5 + enc_status(status);
        lemma_join(data@, start as int, a5, enc_status(status));
        let a7 = a6 + spec_u64_to_le_bytes(count);
        lemma_join(data@, start as int, a6, spec_u64_to_le_bytes(count));
        let a8 = a7 + enc_list_of(d.colliders@, f);
        lemma_join(data@, start as int, a7, enc_list_of(d.colliders@, f));
        let a9 = a8 + enc_scalar(mass);
        lemma_join(data@, start as int, a8, enc_scalar(mass));
        let a10 = a9 + enc_bool(x_rotation_locked);
        lemma_join(data@, start as int, a9, enc_bool(x_rotation_locked));
        let a11 = a10 + enc_bool(y_rotation_locked);
        lemma_join(data@, start as int, a10, enc_bool(y_rotation_locked));
        let a12 = a11 + enc_bool(z_rotation_locked);
        lemma_join(data@, start as int, a11, enc_bool(z_rotation_locked));
        let a13 = a12 + enc_bool(translation_locked);
        lemma_join(data@, start as int, a12, enc_bool(translation_locked));
        assert(a13 =~= enc_body(d));
    }
    Ok(d)
}

/// The bytes of one collider descriptor: shape, owning body, material and
/// placement parameters, groups, then the optional density, in fixed order.
pub open spec fn enc_collider(d: ColliderDesc) -> Seq<u8> {
    enc_shape(d.shape) + spec_u128_to_le_bytes(d.parent.id) + enc_scalar(d.friction) + enc_scalar(
        d.restitution,
    ) + enc_bool(d.is_sensor) + enc_vector(d.translation) + enc_rotation(d.rotation)
        + spec_u32_to_le_bytes(d.collision_groups) + spec_u32_to_le_bytes(d.solver_groups)
        + enc_opt_scalar(d.density)
}

/// Appends one collider descriptor.
#[verifier::rlimit(100)]
pub fn put_collider(out: &mut Vec<u8>, d: &ColliderDesc)
    ensures
        final(out)@ == old(out)@ + enc_collider(*d),
{
    put_shape(out, &d.shape);
    put_u128(out, d.parent.id);
    put_scalar(out, d.friction);
    put_scalar(out, d.restitution);
    put_bool(out, d.is_sensor);
    put_vector(out, d.translation);
    put_rotation(out, d.rotation);
    put_u32(out, d.collision_groups);
    put_u32(out, d.solver_groups);
    put_opt_scalar(out, &d.density);
    proof {
        assert(out@ =~= old(out)@ + enc_collider(*d));
    }
}

/// Reads one collider descriptor.
#[verifier::rlimit(100)]
pub fn take_collider(data: &Vec<u8>, pos: &mut usize) -> (r: Result<ColliderDesc, VisitError>)
    ensures
        r matches Ok(v) ==> *final(pos) == *old(pos) + enc_collider(v).len() && starts_with(
            data@,
            *old(pos) as int,
            enc_collider(v),
        ),
        r is Err ==> *final(pos) >= *old(pos),
{
    proof {
        vstd::bytes::lemma_auto_spec_u32_to_from_le_bytes();
        vstd::bytes::lemma_auto_spec_u64_to_from_le_bytes();
        vstd::bytes::lemma_auto_spec_u128_to_from_le_bytes();
    }
    let start = *pos;
    let shape = match take_shape(data, pos) {
        Ok(v) => v,
        Err(e) => {
            return Err(e);
        },
    };
    let parent_id = match take_u128(data, pos) {
        Ok(v) => v,
        Err(e) => {
            return Err(e);
        },
    };
    let friction = match take_scalar(data, pos) {
        Ok(v) => v,
        Err(e) => {
            return Err(e);
        },
    };
    let restitution = match take_scalar(data, pos) {
        Ok(v) => v,
        Err(e) => {
            return Err(e);
        },
    };
    let is_sensor = match take_bool(data, pos) {
        Ok(v) => v,
        Err(e) => {
            return Err(e);
        },
    };
    let translation = match take_vector(data, pos) {
        Ok(v) => v,
        Err(e) => {
            return Err(e);
        },
    };
    let rotation = match take_rotation(data, pos) {
        Ok(v) => v,
        Err(e) => {
            return Err(e);
        },
    };
    let collision_groups = match take_u32(data, pos) {
        Ok(v) => v,
        Err(e) => {
            return Err(e);
        },
    };
    let solver_groups = match take_u32(data, pos) {
        Ok(v) => v,
        Err(e) => {
            return Err(e);
        },
    };
    let density = match take_opt_scalar(data, pos) {
        Ok(v) => v,
        Err(e) => {
            return Err(e);
        },
    };
    let d = ColliderDesc {
        shape,
        parent: RigidBodyHandle { id: parent_id },
        friction,
        density,
        restitution,
        is_sensor,
        translation,
        rotation,
        collision_groups,
        solver_groups,
    };
    proof {
        let a1 = enc_shape(shape);
        let a2 = a1 + spec_u128_to_le_bytes(parent_id);
        lemma_join(data@, start as int, a1, spec_u128_to_le_bytes(parent_id));
        let a3 = a2 + enc_scalar(friction);
        lemma_join(data@, start as int, a2, enc_scalar(friction));
        let a4 = a3 + enc_scalar(restitution);
        lemma_join(data@, start as int, a3, enc_scalar(restitution));
        let a5 = a4 + enc_bool(is_sensor);
        lemma_join(data@, start as int, a4, enc_bool(is_sensor));
        let a6 = a5 + enc_vector(translation);
        lemma_join(data@, start as int, a5, enc_vector(translation));
        let a7 = a6 + enc_rotation(rotation);
        lemma_join(data@, start as int, a6, enc_rotation(rotation));
        let a8 = a7 + spec_u32_to_le_bytes(collision_groups);
        lemma_join(data@, start as int, a7, spec_u32_to_le_bytes(collision_groups));
        let a9 = a8 + spec_u32_to_le_bytes(solver_groups);
        lemma_join(data@, start as int, a8, spec_u32_to_le_bytes(solver_groups));
        let a10 = a9 + enc_opt_scalar(density);
        lemma_join(data@, start as int, a9, enc_opt_scalar(density));
        assert(a10 =~= enc_collider(d));
    }
    Ok(d)
}

/// The bytes of one joint descriptor: the two body handles, then the joint
/// parameters.
pub open spec fn enc_joint(d: JointDesc) -> Seq<u8> {
    spec_u128_to_le_bytes(d.body1.id) + spec_u128_to_le_bytes(d.body2.id) + enc_params(d.params)
}

/// Appends one joint descriptor.
pub fn put_joint(out: &mut Vec<u8>, d: &JointDesc)
    ensures
        final(out)@ == old(out)@ + enc_joint(*d),
{
    put_u128(out, d.body1.id);
    put_u128(out, d.body2.id);
    put_params(out, &d.params);
    proof {
        assert(out@ =~= old(out)@ + enc_joint(*d));
    }
}

/// Reads one joint descriptor.
pub fn take_joint(data: &Vec<u8>, pos: &mut usize) -> (r: Result<JointDesc, VisitError>)
    ensures
        r matches Ok(v) ==> *final(pos) == *old(pos) + enc_joint(v).len() && starts_with(
            data@,
            *old(pos) as int,
            enc_joint(v),
        ),
        r is Err ==> *final(pos) >= *old(pos),
{
    proof {
        vstd::bytes::lemma_auto_spec_u128_to_from_le_bytes();
    }
    let start = *pos;
    let b1 = match take_u128(data, pos) {
        Ok(v) => v,
        Err(e) => {
            return Err(e);
        },
    };
    let b2 = match take_u128(data, pos) {
        Ok(v) => v,
        Err(e) => {
            return Err(e);
        },
    };
    let params = match take_params(data, pos) {
        Ok(v) => v,
        Err(e) => {
            return Err(e);
        },
    };
    let d = JointDesc {
        body1: RigidBodyHandle { id: b1 },
        body2: RigidBodyHandle { id: b2 },
        params,
    };
    proof {
        lemma_join(data@, start as int, spec_u128_to_le_bytes(b1), spec_u128_to_le_bytes(b2));
        lemma_join(
            data@,
            start as int,
            spec_u128_to_le_bytes(b1) + spec_u128_to_le_bytes(b2),
            enc_params(params),
        );
        assert(spec_u128_to_le_bytes(b1) + spec_u128_to_le_bytes(b2) + enc_params(params)
            =~= enc_joint(d));
    }
    Ok(d)
}

/// Current schema version of the persisted descriptor set.
pub const FORMAT_VERSION: u32 = 1;

/// Schema version of older saves that carried no handle maps.
pub const LEGACY_FORMAT_VERSION: u32 = 0;

/// The bytes of the core sections: configuration, gravity, and the three
/// entity lists, each under its region name.
pub open spec fn enc_core(
    ip: IntegrationParametersDesc,
    g: Vector3,
    cs: Seq<ColliderDesc>,
    bs: Seq<RigidBodyDesc>,
    js: Seq<JointDesc>,
) -> Seq<u8> {
    enc_str(("IntegrationParameters").spec_bytes()) + enc_iparams(ip) + enc_str(
        ("Gravity").spec_bytes(),
    ) + enc_vector(g) + enc_str(("Colliders").spec_bytes()) + spec_u64_to_le_bytes(cs.len() as u64)
        + enc_list_of(cs, |c: ColliderDesc| enc_collider(c)) + enc_str(("Bodies").spec_bytes())
        + spec_u64_to_le_bytes(bs.len() as u64) + enc_list_of(bs, |b: RigidBodyDesc| enc_body(b))
        + enc_str(("Joints").spec_bytes()) + spec_u64_to_le_bytes(js.len() as u64) + enc_list_of(
        js,
        |j: JointDesc| enc_joint(j),
    )
}

/// The bytes of the three handle maps, each under its region name.
pub open spec fn enc_maps(bt: HandleTable, ct: HandleTable, jt: HandleTable) -> Seq<u8> {
    enc_str(("BodyHandleMap").spec_bytes()) + enc_table(bt) + enc_str(
        ("ColliderHandleMap").spec_bytes(),
    ) + enc_table(ct) + enc_str(("JointHandleMap").spec_bytes()) + enc_table(jt)
}

/// The complete bytes of a persisted descriptor set: the schema version,
/// the payload length, then the named core sections and the handle maps.
pub open spec fn spec_encode_desc(d: PhysicsDesc) -> Seq<u8> {
    spec_u32_to_le_bytes(FORMAT_VERSION) + spec_u64_to_le_bytes(
        (enc_core(d.integration_parameters, d.gravity, d.colliders@, d.bodies@, d.joints@)
            + enc_maps(d.body_handle_map, d.collider_handle_map, d.joint_handle_map)).len() as u64,
    ) + enc_core(d.integration_parameters, d.gravity, d.colliders@, d.bodies@, d.joints@)
        + enc_maps(d.body_handle_map, d.collider_handle_map, d.joint_handle_map)
}

/// What a load from an old save without handle maps yields: the stream is a
/// legacy-version stream, and the maps are the sequential fallback handles
/// synthesized from array positions.
pub open spec fn legacy_loaded(bytes: Seq<u8>, d: PhysicsDesc) -> bool {
    &&& bytes.len() >= 4
    &&& bytes.subrange(0, 4) == spec_u32_to_le_bytes(LEGACY_FORMAT_VERSION)
    &&& d.body_handle_map@ == Seq::new(
        d.bodies@.len(),
        |k: int|
            TablePair {
                engine: k as u128,
                solver: SolverHandle { index: k as u32, generation: 0 },
            },
    )
    &&& d.collider_handle_map@ == Seq::new(
        d.colliders@.len(),
        |k: int|
            TablePair {
                engine: k as u128,
                solver: SolverHandle { index: k as u32, generation: 0 },
            },
    )
    &&& d.joint_handle_map@ == Seq::new(
        d.joints@.len(),
        |k: int|
            TablePair {
                engine: k as u128,
                solver: SolverHandle { index: k as u32, generation: 0 },
            },
    )
}

impl PhysicsDesc {
    /// Serializes the descriptor set.
    pub fn save_bytes(&self) -> (r: Vec<u8>)
        ensures
            r@ == spec_encode_desc(*self),
    {
        let mut payload: Vec<u8> = Vec::new();
        self.write_core(&mut payload);
        self.write_maps(&mut payload);
        let mut out: Vec<u8> = Vec::new();
        put_u32(&mut out, FORMAT_VERSION);
        put_u64(&mut out, payload.len() as u64);
        out.append(&mut payload);
        proof {
            assert(out@ =~= spec_encode_desc(*self));
        }
        out
    }

    /// Writes the named core sections.
    fn write_core(&self, out: &mut Vec<u8>)
        ensures
            final(out)@ == old(out)@ + enc_core(
                self.integration_parameters,
                self.gravity,
                self.colliders@,
                self.bodies@,
                self.joints@,
            ),
    {
        let ghost base = out@;
        let ghost fc = |c: ColliderDesc| enc_collider(c);
        let ghost fb = |b: RigidBodyDesc| enc_body(b);
        let ghost fj = |j: JointDesc| enc_joint(j);
        put_name(out, "IntegrationParameters");
        let ghost q1 = enc_str(("IntegrationParameters").spec_bytes());
        put_iparams(out, &self.integration_parameters);
        let ghost q2 = q1 + enc_iparams(self.integration_parameters);
        proof {
            lemma_prefix_concat(base, q1, enc_iparams(self.integration_parameters));
        }
        put_name(out, "Gravity");
        let ghost q3 = q2 + enc_str(("Gravity").spec_bytes());
        proof {
            lemma_prefix_concat(base, q2, enc_str(("Gravity").spec_bytes()));
        }
        put_vector(out, self.gravity);
        let ghost q4 = q3 + enc_vector(self.gravity);
        proof {
            lemma_prefix_concat(base, q3, enc_vector(self.gravity));
        }
        put_name(out, "Colliders");
        let ghost q5 = q4 + enc_str(("Colliders").spec_bytes());
        proof {
            lemma_prefix_concat(base, q4, enc_str(("Colliders").spec_bytes()));
        }
        let nc = self.colliders.len();
        put_u64(out, nc as u64);
        let ghost q6 = q5 + spec_u64_to_le_bytes(nc as u64);
        proof {
            lemma_prefix_concat(base, q5, spec_u64_to_le_bytes(nc as u64));
        }
        let ghost chead = out@;
        let mut i: usize = 0;
        while i < nc
            invariant
                i <= nc,
                nc == self.colliders@.len(),
                fc == (|c: ColliderDesc| enc_collider(c)),
                out@ == chead + enc_list_of(self.colliders@.take(i as int), fc),
            decreases nc - i,
        {
            put_collider(out, &self.colliders[i]);
            proof {
                assert(self.colliders@.take(i + 1).drop_last() =~= self.colliders@.take(i as int));
                assert(self.colliders@.take(i + 1).last() == self.colliders@[i as int]);
                lemma_prefix_concat(
                    chead,
                    enc_list_of(self.colliders@.take(i as int), fc),
                    enc_collider(self.colliders@[i as int]),
                );
            }
            i += 1;
        }
        let ghost q7 = q6 + enc_list_of(self.colliders@, fc);
        proof {
            assert(self.colliders@.take(nc as int) =~= self.colliders@);
            lemma_prefix_concat(base, q6, enc_list_of(self.colliders@, fc));
            assert(out@ == base + q7);
        }
        put_name(out, "Bodies");
        let ghost q8 = q7 + enc_str(("Bodies").spec_bytes());
        proof {
            lemma_prefix_concat(base, q7, enc_str(("Bodies").spec_bytes()));
        }
        let nb = self.bodies.len();
        put_u64(out, nb as u64);
        let ghost q9 = q8 + spec_u64_to_le_bytes(nb as u64);
        proof {
            lemma_prefix_concat(base, q8, spec_u64_to_le_bytes(nb as u64));
        }
        let ghost bhead = out@;
        let mut i2: usize = 0;
        while i2 < nb
            invariant
                i2 <= nb,
                nb == self.bodies@.len(),
                fb == (|b: RigidBodyDesc| enc_body(b)),
                out@ == bhead + enc_list_of(self.bodies@.take(i2 as int), fb),
            decreases nb - i2,
        {
            put_body(out, &self.bodies[i2]);
            proof {
                assert(self.bodies@.take(i2 + 1).drop_last() =~= self.bodies@.take(i2 as int));
                assert(self.bodies@.take(i2 + 1).last() == self.bodies@[i2 as int]);
                lemma_prefix_concat(
                    bhead,
                    enc_list_of(self.bodies@.take(i2 as int), fb),
                    enc_body(self.bodies@[i2 as int]),
                );
            }
            i2 += 1;
        }
        let ghost q10 = q9 + enc_list_of(self.bodies@, fb);
        proof {
            assert(self.bodies@.take(nb as int) =~= self.bodies@);
            lemma_prefix_concat(base, q9, enc_list_of(self.bodies@, fb));
            assert(out@ == base + q10);
        }
        put_name(out, "Joints");
        let ghost q11 = q10 + enc_str(("Joints").spec_bytes());
        proof {
            lemma_prefix_concat(base, q10, enc_str(("Joints").spec_bytes()));
        }
        let nj = self.joints.len();
        put_u64(out, nj as u64);
        let ghost q12 = q11 + spec_u64_to_le_bytes(nj as u64);
        proof {
            lemma_prefix_concat(base, q11, spec_u64_to_le_bytes(nj as u64));
        }
        let ghost jhead = out@;
        let mut i3: usize = 0;
        while i3 < nj
            invariant
                i3 <= nj,
                nj == self.joints@.len(),
                fj == (|j: JointDesc| enc_joint(j)),
                out@ == jhead + enc_list_of(self.joints@.take(i3 as int), fj),
            decreases nj - i3,
        {
            put_joint(out, &self.joints[i3]);
            proof {
                assert(self.joints@.take(i3 + 1).drop_last() =~= self.joints@.take(i3 as int));
                assert(self.joints@.take(i3 + 1).last() == self.joints@[i3 as int]);
                lemma_prefix_concat(
                    jhead,
                    enc_list_of(self.joints@.take(i3 as int), fj),
                    enc_joint(self.joints@[i3 as int]),
                );
            }
            i3 += 1;
        }
        let ghost q13 = q12 + enc_list_of(self.joints@, fj);
        proof {
            assert(self.joints@.take(nj as int) =~= self.joints@);
            lemma_prefix_concat(base, q12, enc_list_of(self.joints@, fj));
            assert(out@ == base + q13);
            assert(q13 == enc_core(
                self.integration_parameters,
                self.gravity,
                self.colliders@,
                self.bodies@,
                self.joints@,
            ));
        }
    }

    /// Writes the three named handle maps.
    fn write_maps(&self, out: &mut Vec<u8>)
        ensures
            final(out)@ == old(out)@ + enc_maps(
                self.body_handle_map,
                self.collider_handle_map,
                self.joint_handle_map,
            ),
    {
        let ghost base = out@;
        put_name(out, "BodyHandleMap");
        let ghost q1 = enc_str(("BodyHandleMap").spec_bytes());
        put_table(out, &self.body_handle_map);
        let ghost q2 = q1 + enc_table(self.body_handle_map);
        proof {
            lemma_prefix_concat(base, q1, enc_table(self.body_handle_map));
        }
        put_name(out, "ColliderHandleMap");
        let ghost q3 = q2 + enc_str(("ColliderHandleMap").spec_bytes());
        proof {
            lemma_prefix_concat(base, q2, enc_str(("ColliderHandleMap").spec_bytes()));
        }
        put_table(out, &self.collider_handle_map);
        let ghost q4 = q3 + enc_table(self.collider_handle_map);
        proof {
            lemma_prefix_concat(base, q3, enc_table(self.collider_handle_map));
        }
        put_name(out, "JointHandleMap");
        let ghost q5 = q4 + enc_str(("JointHandleMap").spec_bytes());
        proof {
            lemma_prefix_concat(base, q4, enc_str(("JointHandleMap").spec_bytes()));
        }
        put_table(out, &self.joint_handle_map);
        let ghost q6 = q5 + enc_table(self.joint_handle_map);
        proof {
            lemma_prefix_concat(base, q5, enc_table(self.joint_handle_map));
            assert(out@ == base + q6);
            assert(q6 == enc_maps(
                self.body_handle_map,
                self.collider_handle_map,
                self.joint_handle_map,
            ));
        }
    }

    /// Deserializes a descriptor set.  The reader is strict: it yields
    /// exactly a value whose re-serialization is the input, or, for a
    /// legacy-version stream without handle maps, a value whose maps are the
    /// sequential fallback handles; anything else is a hard error, and so is
    /// a structurally unsound descriptor set.
    #[verifier::rlimit(100)]
    pub fn load_bytes(data: &Vec<u8>) -> (r: Result<PhysicsDesc, VisitError>)
        ensures
            r matches Ok(d) ==> crate::desc::desc_wf(d)
                && d.integration_parameters.min_island_size != 0 && (data@ == spec_encode_desc(d)
                || (d.integration_parameters.min_island_size == DEFAULT_MIN_ISLAND_SIZE && data@
                == spec_encode_desc(with_zero_island(d))) || legacy_loaded(data@, d)),
    {
        proof {
            vstd::bytes::lemma_auto_spec_u32_to_from_le_bytes();
            vstd::bytes::lemma_auto_spec_u64_to_from_le_bytes();
        }
        let mut pos: usize = 0;
        let version = match take_u32(data, &mut pos) {
            Ok(v) => v,
            Err(e) => {
                return Err(e);
            },
        };
        if version != FORMAT_VERSION && version != LEGACY_FORMAT_VERSION {
            return Err(VisitError);
        }
        let payload_len = match take_u64(data, &mut pos) {
            Ok(v) => v,
            Err(e) => {
                return Err(e);
            },
        };
        let core = match Self::read_core(data, &mut pos) {
            Ok(c) => c,
            Err(e) => {
                return Err(e);
            },
        };
        let (integration_parameters, gravity, colliders, bodies, joints) = core;
        Self::finish_load(
            data,
            &mut pos,
            version,
            payload_len,
            integration_parameters,
            gravity,
            colliders,
            bodies,
            joints,
        )
    }

    /// Finishes a load after the core sections: reads or synthesizes the
    /// handle maps, checks the stream is fully consumed and the descriptor
    /// set is structurally sound.
    #[verifier::rlimit(100)]
    fn finish_load(
        data: &Vec<u8>,
        pos: &mut usize,
        version: u32,
        payload_len: u64,
        integration_parameters: IntegrationParametersDesc,
        gravity: Vector3,
        colliders: Vec<ColliderDesc>,
        bodies: Vec<RigidBodyDesc>,
        joints: Vec<JointDesc>,
    ) -> (r: Result<PhysicsDesc, VisitError>)
        requires
            version == FORMAT_VERSION || version == LEGACY_FORMAT_VERSION,
            integration_parameters.min_island_size != 0,
            starts_with(data@, 0, spec_u32_to_le_bytes(version)),
            starts_with(data@, 4, spec_u64_to_le_bytes(payload_len)),
            core_present(data@, 12, integration_parameters, gravity, colliders@, bodies@, joints@),
            *old(pos) == 12 + enc_core(
                integration_parameters,
                gravity,
                colliders@,
                bodies@,
                joints@,
            ).len(),
            *old(pos) <= data@.len(),
        ensures
            r matches Ok(d) ==> crate::desc::desc_wf(d)
                && d.integration_parameters.min_island_size != 0 && (data@ == spec_encode_desc(d)
                || (d.integration_parameters.min_island_size == DEFAULT_MIN_ISLAND_SIZE && data@
                == spec_encode_desc(with_zero_island(d))) || legacy_loaded(data@, d)),
    {
        let ghost ip_stored = if starts_with(
            data@,
            12,
            enc_core(integration_parameters, gravity, colliders@, bodies@, joints@),
        ) {
            integration_parameters
        } else {
            zero_island(integration_parameters)
        };
        let ghost core_enc = enc_core(ip_stored, gravity, colliders@, bodies@, joints@);
        proof {
            lemma_enc_core_len_eq(
                integration_parameters,
                ip_stored,
                gravity,
                colliders@,
                bodies@,
                joints@,
            );
            assert(starts_with(data@, 12, core_enc));
            assert(*old(pos) == 12 + core_enc.len());
        }
        let d = if version == FORMAT_VERSION {
            let ghost mid = *pos;
            let body_handle_map = match Self::read_named_table(data, pos, "BodyHandleMap") {
                Ok(t) => t,
                Err(e) => {
                    return Err(e);
                },
            };
            let collider_handle_map = match Self::read_named_table(
                data,
                pos,
                "ColliderHandleMap",
            ) {
                Ok(t) => t,
                Err(e) => {
                    return Err(e);
                },
            };
            let joint_handle_map = match Self::read_named_table(data, pos, "JointHandleMap") {
                Ok(t) => t,
                Err(e) => {
                    return Err(e);
                },
            };
            let d = PhysicsDesc {
                integration_parameters,
                colliders,
                bodies,
                gravity,
                joints,
                body_handle_map,
                collider_handle_map,
                joint_handle_map,
            };
            proof {
                lemma_maps_assembled(
                    data@,
                    mid as int,
                    d.body_handle_map,
                    d.collider_handle_map,
                    d.joint_handle_map,
                );
            }
            d
        } else {
            let cap = u32::MAX as usize;
            if bodies.len() > cap || colliders.len() > cap || joints.len() > cap {
                return Err(VisitError);
            }
            let body_handle_map = synth_table(bodies.len());
            let collider_handle_map = synth_table(colliders.len());
            let joint_handle_map = synth_table(joints.len());
            PhysicsDesc {
                integration_parameters,
                colliders,
                bodies,
                gravity,
                joints,
                body_handle_map,
                collider_handle_map,
                joint_handle_map,
            }
        };
        if *pos != data.len() {
            return Err(VisitError);
        }
        let expected = (data.len() - 12) as u64;
        if payload_len != expected {
            return Err(VisitError);
        }
        if !d.is_well_formed() {
            return Err(VisitError);
        }
        proof {
            vstd::bytes::lemma_auto_spec_u32_to_from_le_bytes();
            if version == FORMAT_VERSION {
                let d_stored = PhysicsDesc { integration_parameters: ip_stored, ..d };
                lemma_enc_core_len_eq(
                    d.integration_parameters,
                    ip_stored,
                    gravity,
                    colliders@,
                    bodies@,
                    joints@,
                );
                lemma_desc_assembled(data@, d_stored, payload_len);
                if ip_stored == integration_parameters {
                    assert(d_stored == d);
                    assert(data@ == spec_encode_desc(d));
                } else {
                    assert(integration_parameters.min_island_size == DEFAULT_MIN_ISLAND_SIZE);
                    assert(zero_island(d.integration_parameters) == ip_stored);
                    assert(with_zero_island(d) == d_stored);
                    assert(data@ == spec_encode_desc(with_zero_island(d)));
                }
            } else {
                assert(data@.subrange(0, 4) == spec_u32_to_le_bytes(LEGACY_FORMAT_VERSION));
                assert(legacy_loaded(data@, d));
            }
        }
        Ok(d)
    }

    /// Reads the named core sections.
    #[verifier::rlimit(100)]
    fn read_core(data: &Vec<u8>, pos: &mut usize) -> (r: Result<
        (IntegrationParametersDesc, Vector3, Vec<ColliderDesc>, Vec<RigidBodyDesc>, Vec<JointDesc>),
        VisitError,
    >)
        ensures
            r matches Ok(c) ==> c.0.min_island_size != 0 && *final(pos) >= *old(pos) && *final(pos)
                == *old(pos) + enc_core(c.0, c.1, c.2@, c.3@, c.4@).len() && core_present(
                data@,
                *old(pos) as int,
                c.0,
                c.1,
                c.2@,
                c.3@,
                c.4@,
            ),
            r is Err ==> *final(pos) >= *old(pos),
    {
        proof {
            vstd::bytes::lemma_auto_spec_u32_to_from_le_bytes();
            vstd::bytes::lemma_auto_spec_u64_to_from_le_bytes();
        }
        let ghost fc = |c: ColliderDesc| enc_collider(c);
        let ghost fb = |b: RigidBodyDesc| enc_body(b);
        let ghost fj = |j: JointDesc| enc_joint(j);
        let start = *pos;
        let ghost base = *pos as int;
        if take_name(data, pos, "IntegrationParameters").is_err() {
            return Err(VisitError);
        }
        let ghost q1 = enc_str(("IntegrationParameters").spec_bytes());
        let ip = match take_iparams(data, pos) {
            Ok(v) => v,
            Err(e) => {
                return Err(e);
            },
        };
        let ghost ip_stored = if starts_with(data@, base + q1.len(), enc_iparams(ip)) {
            ip
        } else {
            zero_island(ip)
        };
        proof {
            lemma_enc_iparams_len(ip);
            lemma_enc_iparams_len(ip_stored);
            assert(starts_with(data@, base + q1.len(), enc_iparams(ip_stored)));
        }
        let ghost q2 = q1 + enc_iparams(ip_stored);
        proof {
            lemma_join(data@, base, q1, enc_iparams(ip_stored));
        }
        if take_name(data, pos, "Gravity").is_err() {
            return Err(VisitError);
        }
        let ghost q3 = q2 + enc_str(("Gravity").spec_bytes());
        proof {
            lemma_join(data@, base, q2, enc_str(("Gravity").spec_bytes()));
        }
        let gravity = match take_vector(data, pos) {
            Ok(v) => v,
            Err(e) => {
                return Err(e);
            },
        };
        let ghost q4 = q3 + enc_vector(gravity);
        proof {
            lemma_join(data@, base, q3, enc_vector(gravity));
        }
        if take_name(data, pos, "Colliders").is_err() {
            return Err(VisitError);
        }
        let ghost q5 = q4 + enc_str(("Colliders").spec_bytes());
        proof {
            lemma_join(data@, base, q4, enc_str(("Colliders").spec_bytes()));
        }
        let ncol = match take_u64(data, pos) {
            Ok(v) => v,
            Err(e) => {
                return Err(e);
            },
        };
        let ghost q6 = q5 + spec_u64_to_le_bytes(ncol);
        proof {
            lemma_join(data@, base, q5, spec_u64_to_le_bytes(ncol));
        }
        let ghost chead = *pos as int;
        let mut colliders: Vec<ColliderDesc> = Vec::new();
        proof {
            assert(data@.subrange(chead, chead) =~= enc_list_of(colliders@, fc));
        }
        let mut i: u64 = 0;
        while i < ncol
            invariant
                i <= ncol,
                colliders@.len() == i,
                fc == (|c: ColliderDesc| enc_collider(c)),
                0 <= chead <= *pos,
                *pos <= data@.len(),
                *pos == chead + enc_list_of(colliders@, fc).len(),
                starts_with(data@, chead, enc_list_of(colliders@, fc)),
                *old(pos) <= chead,
            decreases ncol - i,
        {
            let c = match take_collider(data, pos) {
                Ok(v) => v,
                Err(e) => {
                    return Err(e);
                },
            };
            let ghost prev = colliders@;
            colliders.push(c);
            proof {
                assert(colliders@.drop_last() =~= prev);
                assert(enc_list_of(colliders@, fc) == enc_list_of(prev, fc) + enc_collider(c));
                lemma_join(data@, chead, enc_list_of(prev, fc), enc_collider(c));
            }
            i += 1;
        }
        let ghost q7 = q6 + enc_list_of(colliders@, fc);
        proof {
            lemma_join(data@, base, q6, enc_list_of(colliders@, fc));
        }
        if take_name(data, pos, "Bodies").is_err() {
            return Err(VisitError);
        }
        let ghost q8 = q7 + enc_str(("Bodies").spec_bytes());
        proof {
            lemma_join(data@, base, q7, enc_str(("Bodies").spec_bytes()));
        }
        let nbod = match take_u64(data, pos) {
            Ok(v) => v,
            Err(e) => {
                return Err(e);
            },
        };
        let ghost q9 = q8 + spec_u64_to_le_bytes(nbod);
        proof {
            lemma_join(data@, base, q8, spec_u64_to_le_bytes(nbod));
        }
        let ghost bhead = *pos as int;
        let mut bodies: Vec<RigidBodyDesc> = Vec::new();
        proof {
            assert(data@.subrange(bhead, bhead) =~= enc_list_of(bodies@, fb));
        }
        let mut i2: u64 = 0;
        while i2 < nbod
            invariant
                i2 <= nbod,
                bodies@.len() == i2,
                fb == (|b: RigidBodyDesc| enc_body(b)),
                0 <= bhead <= *pos,
                *pos <= data@.len(),
                *pos == bhead + enc_list_of(bodies@, fb).len(),
                starts_with(data@, bhead, enc_list_of(bodies@, fb)),
                *old(pos) <= bhead,
            decreases nbod - i2,
        {
            let b = match take_body(data, pos) {
                Ok(v) => v,
                Err(e) => {
                    return Err(e);
                },
            };
            let ghost prev = bodies@;
            bodies.push(b);
            proof {
                assert(bodies@.drop_last() =~= prev);
                assert(enc_list_of(bodies@, fb) == enc_list_of(prev, fb) + enc_body(b));
                lemma_join(data@, bhead, enc_list_of(prev, fb), enc_body(b));
            }
            i2 += 1;
        }
        let ghost q10 = q9 + enc_list_of(bodies@, fb);
        proof {
            lemma_join(data@, base, q9, enc_list_of(bodies@, fb));
        }
        if take_name(data, pos, "Joints").is_err() {
            return Err(VisitError);
        }
        let ghost q11 = q10 + enc_str(("Joints").spec_bytes());
        proof {
            lemma_join(data@, base, q10, enc_str(("Joints").spec_bytes()));
        }
        let njoi = match take_u64(data, pos) {
            Ok(v) => v,
            Err(e) => {
                return Err(e);
            },
        };
        let ghost q12 = q11 + spec_u64_to_le_bytes(njoi);
        proof {
            lemma_join(data@, base, q11, spec_u64_to_le_bytes(njoi));
        }
        let ghost jhead = *pos as int;
        let mut joints: Vec<JointDesc> = Vec::new();
        proof {
            assert(data@.subrange(jhead, jhead) =~= enc_list_of(joints@, fj));
        }
        let mut i3: u64 = 0;
        while i3 < njoi
            invariant
                i3 <= njoi,
                joints@.len() == i3,
                fj == (|j: JointDesc| enc_joint(j)),
                0 <= jhead <= *pos,
                *pos <= data@.len(),
                *pos == jhead + enc_list_of(joints@, fj).len(),
                starts_with(data@, jhead, enc_list_of(joints@, fj)),
                *old(pos) <= jhead,
            decreases njoi - i3,
        {
            let j = match take_joint(data, pos) {
                Ok(v) => v,
                Err(e) => {
                    return Err(e);
                },
            };
            let ghost prev = joints@;
            joints.push(j);
            proof {
                assert(joints@.drop_last() =~= prev);
                assert(enc_list_of(joints@, fj) == enc_list_of(prev, fj) + enc_joint(j));
                lemma_join(data@, jhead, enc_list_of(prev, fj), enc_joint(j));
            }
            i3 += 1;
        }
        let ghost q13 = q12 + enc_list_of(joints@, fj);
        proof {
            lemma_join(data@, base, q12, enc_list_of(joints@, fj));
            assert(q13 == enc_core(ip_stored, gravity, colliders@, bodies@, joints@));
            lemma_enc_core_len_eq(ip, ip_stored, gravity, colliders@, bodies@, joints@);
        }
        Ok((ip, gravity, colliders, bodies, joints))
    }

    /// Reads one handle map under its region name.
    fn read_named_table(data: &Vec<u8>, pos: &mut usize, name: &str) -> (r: Result<
        HandleTable,
        VisitError,
    >)
        ensures
            r matches Ok(t) ==> starts_with(
                data@,
                *old(pos) as int,
                enc_str(name.spec_bytes()) + enc_table(t),
            ) && *final(pos) == *old(pos) + (enc_str(name.spec_bytes()) + enc_table(t)).len(),
            r is Err ==> *final(pos) >= *old(pos),
    {
        let ghost base = *pos as int;
        if take_name(data, pos, name).is_err() {
            return Err(VisitError);
        }
        let t = match take_table(data, pos) {
            Ok(t) => t,
            Err(e) => {
                return Err(e);
            },
        };
        proof {
            lemma_join(data@, base, enc_str(name.spec_bytes()), enc_table(t));
        }
        Ok(t)
    }
}


/// Three adjacent named maps assemble into the maps section.
proof fn lemma_maps_assembled(
    data: Seq<u8>,
    mid: int,
    bt: HandleTable,
    ct: HandleTable,
    jt: HandleTable,
)
    requires
        starts_with(data, mid, enc_str(("BodyHandleMap").spec_bytes()) + enc_table(bt)),
        starts_with(
            data,
            mid + (enc_str(("BodyHandleMap").spec_bytes()) + enc_table(bt)).len(),
            enc_str(("ColliderHandleMap").spec_bytes()) + enc_table(ct),
        ),
        starts_with(
            data,
            mid + (enc_str(("BodyHandleMap").spec_bytes()) + enc_table(bt)).len() + (enc_str(
                ("ColliderHandleMap").spec_bytes(),
            ) + enc_table(ct)).len(),
            enc_str(("JointHandleMap").spec_bytes()) + enc_table(jt),
        ),
    ensures
        starts_with(data, mid, enc_maps(bt, ct, jt)),
{
    vstd::bytes::lemma_auto_spec_u64_to_from_le_bytes();
    let m1 = enc_str(("BodyHandleMap").spec_bytes()) + enc_table(bt);
    let m2 = enc_str(("ColliderHandleMap").spec_bytes()) + enc_table(ct);
    let m3 = enc_str(("JointHandleMap").spec_bytes()) + enc_table(jt);
    lemma_join(data, mid, m1, m2);
    lemma_join(data, mid, m1 + m2, m3);
    assert(m1 + m2 + m3 =~= enc_maps(bt, ct, jt));
}

/// A version header, a length header, the core and the maps, filling the
/// whole stream, assemble into the canonical encoding.
proof fn lemma_desc_assembled(data: Seq<u8>, d: PhysicsDesc, payload_len: u64)
    requires
        starts_with(data, 0, spec_u32_to_le_bytes(FORMAT_VERSION)),
        starts_with(data, 4, spec_u64_to_le_bytes(payload_len)),
        starts_with(
            data,
            12,
            enc_core(d.integration_parameters, d.gravity, d.colliders@, d.bodies@, d.joints@),
        ),
        starts_with(
            data,
            12 + enc_core(
                d.integration_parameters,
                d.gravity,
                d.colliders@,
                d.bodies@,
                d.joints@,
            ).len() as int,
            enc_maps(d.body_handle_map, d.collider_handle_map, d.joint_handle_map),
        ),
        data.len() == 12 + enc_core(
            d.integration_parameters,
            d.gravity,
            d.colliders@,
            d.bodies@,
            d.joints@,
        ).len() + enc_maps(d.body_handle_map, d.collider_handle_map, d.joint_handle_map).len(),
        payload_len == (enc_core(
            d.integration_parameters,
            d.gravity,
            d.colliders@,
            d.bodies@,
            d.joints@,
        ) + enc_maps(d.body_handle_map, d.collider_handle_map, d.joint_handle_map)).len() as u64,
    ensures
        data == spec_encode_desc(d),
{
    vstd::bytes::lemma_auto_spec_u32_to_from_le_bytes();
    vstd::bytes::lemma_auto_spec_u64_to_from_le_bytes();
    let core = enc_core(d.integration_parameters, d.gravity, d.colliders@, d.bodies@, d.joints@);
    let maps = enc_maps(d.body_handle_map, d.collider_handle_map, d.joint_handle_map);
    lemma_join(data, 12, core, maps);
    lemma_join(data, 4, spec_u64_to_le_bytes(payload_len), core + maps);
    lemma_join(
        data,
        0,
        spec_u32_to_le_bytes(FORMAT_VERSION),
        spec_u64_to_le_bytes(payload_len) + (core + maps),
    );
    assert(data.subrange(0, data.len() as int) =~= data);
    assert(spec_encode_desc(d) =~= spec_u32_to_le_bytes(FORMAT_VERSION) + (spec_u64_to_le_bytes(
        payload_len,
    ) + (core + maps)));
    assert(data =~= spec_encode_desc(d));
}

/// Builds the sequential fallback handle map: position `k` gets engine
/// identifier `k` and the dense solver handle at index `k`.
fn synth_table(len: usize) -> (r: HandleTable)
    requires
        len <= u32::MAX,
    ensures
        r@ == Seq::new(
            len as nat,
            |k: int|
                TablePair {
                    engine: k as u128,
                    solver: SolverHandle { index: k as u32, generation: 0 },
                },
        ),
{
    let mut pairs: Vec<TablePair> = Vec::new();
    let mut k: usize = 0;
    while k < len
        invariant
            k <= len,
            len <= u32::MAX,
            pairs@.len() == k,
            forall|m: int|
                0 <= m < k ==> (#[trigger] pairs@[m]) == (TablePair {
                    engine: m as u128,
                    solver: SolverHandle { index: m as u32, generation: 0 },
                }),
        decreases len - k,
    {
        pairs.push(
            TablePair {
                engine: k as u128,
                solver: SolverHandle { index: k as u32, generation: 0 },
            },
        );
        k += 1;
    }
    let t = HandleTable::from_pairs(pairs);
    proof {
        assert(t@ =~= Seq::new(
            len as nat,
            |k2: int|
                TablePair {
                    engine: k2 as u128,
                    solver: SolverHandle { index: k2 as u32, generation: 0 },
                },
        ));
    }
    t
}

/// Two descriptor sets that serialize to the same bytes agree on the
/// stored minimum island size: the configuration words sit at a fixed
/// place after the shared headers.
#[verifier::rlimit(100)]
proof fn lemma_min_island_pinned(bytes: Seq<u8>, a: PhysicsDesc, b: PhysicsDesc)
    requires
        bytes == spec_encode_desc(a),
        bytes == spec_encode_desc(b),
    ensures
        a.integration_parameters.min_island_size == b.integration_parameters.min_island_size,
{
    vstd::bytes::lemma_auto_spec_u32_to_from_le_bytes();
    vstd::bytes::lemma_auto_spec_u64_to_from_le_bytes();
    let p0 = lemma_iparams_position(bytes, a);
    let p1 = lemma_iparams_position(bytes, b);
    assert(p0 == p1);
    iparams_completeness_split(bytes, p0);
    let wa = iparams_words(a.integration_parameters);
    let wb = iparams_words(b.integration_parameters);
    assert(starts_with(bytes, p0 + 60, spec_u32_to_le_bytes(wa[15])));
    assert(starts_with(bytes, p0 + 60, spec_u32_to_le_bytes(wb[15])));
    assert(spec_u32_to_le_bytes(wa[15]) == spec_u32_to_le_bytes(wb[15]));
}

/// Where the configuration words of an encoded descriptor set lie: right
/// after the schema version, the payload length and the first region name.
#[verifier::rlimit(100)]
proof fn lemma_iparams_position(bytes: Seq<u8>, d: PhysicsDesc) -> (p: int)
    requires
        bytes == spec_encode_desc(d),
    ensures
        p == 12 + enc_str(("IntegrationParameters").spec_bytes()).len(),
        starts_with(bytes, p, enc_iparams(d.integration_parameters)),
{
    vstd::bytes::lemma_auto_spec_u32_to_from_le_bytes();
    vstd::bytes::lemma_auto_spec_u64_to_from_le_bytes();
    let core = enc_core(d.integration_parameters, d.gravity, d.colliders@, d.bodies@, d.joints@);
    let maps = enc_maps(d.body_handle_map, d.collider_handle_map, d.joint_handle_map);
    let ver = spec_u32_to_le_bytes(FORMAT_VERSION);
    let len = spec_u64_to_le_bytes((core + maps).len() as u64);
    assert(bytes == ((ver + len) + core) + maps);
    assert(starts_with(bytes, 0, ((ver + len) + core) + maps)) by {
        assert(bytes.subrange(0, bytes.len() as int) =~= bytes);
    }
    lemma_split(bytes, 0, (ver + len) + core, maps);
    lemma_split(bytes, 0, ver + len, core);
    assert(starts_with(bytes, 12, core));
    // Regroup the core so the first region name and the configuration form
    // one prefix, then split them off.
    let nm = enc_str(("IntegrationParameters").spec_bytes());
    let ip = enc_iparams(d.integration_parameters);
    let fc = |c: ColliderDesc| enc_collider(c);
    let fb = |b2: RigidBodyDesc| enc_body(b2);
    let fj = |j: JointDesc| enc_joint(j);
    let t1 = enc_str(("Gravity").spec_bytes());
    let t2 = enc_vector(d.gravity);
    let t3 = enc_str(("Colliders").spec_bytes());
    let t4 = spec_u64_to_le_bytes(d.colliders@.len() as u64);
    let t5 = enc_list_of(d.colliders@, fc);
    let t6 = enc_str(("Bodies").spec_bytes());
    let t7 = spec_u64_to_le_bytes(d.bodies@.len() as u64);
    let t8 = enc_list_of(d.bodies@, fb);
    let t9 = enc_str(("Joints").spec_bytes());
    let t10 = spec_u64_to_le_bytes(d.joints@.len() as u64);
    let t11 = enc_list_of(d.joints@, fj);
    let h = nm + ip;
    let r2 = t1 + t2;
    lemma_prefix_concat(h, t1, t2);
    let r3 = r2 + t3;
    lemma_prefix_concat(h, r2, t3);
    let r4 = r3 + t4;
    lemma_prefix_concat(h, r3, t4);
    let r5 = r4 + t5;
    lemma_prefix_concat(h, r4, t5);
    let r6 = r5 + t6;
    lemma_prefix_concat(h, r5, t6);
    let r7 = r6 + t7;
    lemma_prefix_concat(h, r6, t7);
    let r8 = r7 + t8;
    lemma_prefix_concat(h, r7, t8);
    let r9 = r8 + t9;
    lemma_prefix_concat(h, r8, t9);
    let r10 = r9 + t10;
    lemma_prefix_concat(h, r9, t10);
    let r11 = r10 + t11;
    lemma_prefix_concat(h, r10, t11);
    assert(core == h + r11);
    lemma_split(bytes, 12, h, r11);
    lemma_split(bytes, 12, nm, ip);
    12 + nm.len() as int
}

/// Round-trip idempotence of the persisted form: serializing a descriptor
/// set, deserializing those bytes, and serializing the result again yields
/// byte-identical output.  The first hypothesis is what `save_bytes` says
/// of its output; the second is what `load_bytes` says of its accepted
/// value.  A current save can never be taken for a legacy stream, because
/// the two schema versions differ in the header.
pub proof fn lemma_round_trip_idempotent(d: PhysicsDesc, bytes: Seq<u8>, d2: PhysicsDesc)
    requires
        d.integration_parameters.min_island_size != 0,
        bytes == spec_encode_desc(d),
        bytes == spec_encode_desc(d2) || (d2.integration_parameters.min_island_size
            == DEFAULT_MIN_ISLAND_SIZE && bytes == spec_encode_desc(with_zero_island(d2)))
            || legacy_loaded(bytes, d2),
    ensures
        spec_encode_desc(d2) == bytes,
{
    vstd::bytes::lemma_auto_spec_u32_to_from_le_bytes();
    if legacy_loaded(bytes, d2) && bytes != spec_encode_desc(d2) {
        assert(bytes.subrange(0, 4) =~= spec_u32_to_le_bytes(FORMAT_VERSION));
        assert(spec_u32_to_le_bytes(FORMAT_VERSION) == spec_u32_to_le_bytes(
            LEGACY_FORMAT_VERSION,
        ));
        assert(false);
    }
    if bytes == spec_encode_desc(with_zero_island(d2)) && bytes != spec_encode_desc(d2) {
        lemma_min_island_pinned(bytes, d, with_zero_island(d2));
        assert(with_zero_island(d2).integration_parameters.min_island_size == 0);
        assert(false);
    }
}

} // verus!
