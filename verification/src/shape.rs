//! Collider shapes: live forms and their serializable descriptors.
//!
//! Every descriptor converts losslessly to and from the live form except the
//! triangle mesh and the heightfield, whose bulk geometry is deliberately not
//! persisted: the descriptor is a marker, and the live geometry is re-derived
//! from the bound mesh node on resolve.

use vstd::prelude::*;

use crate::math::{Scalar, Vector3, BITS_ONE, BITS_ZERO};

verus! {

/// Ball shape parameters.
#[derive(Clone, Copy, PartialEq, Eq, Structural, Debug)]
pub struct BallDesc {
    pub radius: Scalar,
}

/// Cylinder shape parameters.
#[derive(Clone, Copy, PartialEq, Eq, Structural, Debug)]
pub struct CylinderDesc {
    pub half_height: Scalar,
    pub radius: Scalar,
}

/// Rounded cylinder shape parameters.
#[derive(Clone, Copy, PartialEq, Eq, Structural, Debug)]
pub struct RoundCylinderDesc {
    pub half_height: Scalar,
    pub radius: Scalar,
    pub border_radius: Scalar,
}

/// Cone shape parameters.
#[derive(Clone, Copy, PartialEq, Eq, Structural, Debug)]
pub struct ConeDesc {
    pub half_height: Scalar,
    pub radius: Scalar,
}

/// Cuboid shape parameters.
#[derive(Clone, Copy, PartialEq, Eq, Structural, Debug)]
pub struct CuboidDesc {
    pub half_extents: Vector3,
}

/// Capsule shape parameters.
#[derive(Clone, Copy, PartialEq, Eq, Structural, Debug)]
pub struct CapsuleDesc {
    pub begin: Vector3,
    pub end: Vector3,
    pub radius: Scalar,
}

/// Segment shape parameters.
#[derive(Clone, Copy, PartialEq, Eq, Structural, Debug)]
pub struct SegmentDesc {
    pub begin: Vector3,
    pub end: Vector3,
}

/// Triangle shape parameters.
#[derive(Clone, Copy, PartialEq, Eq, Structural, Debug)]
pub struct TriangleDesc {
    pub a: Vector3,
    pub b: Vector3,
    pub c: Vector3,
}

/// Marker descriptor of a triangle mesh whose geometry is re-derived from a
/// bound mesh node rather than read from storage.
#[derive(Clone, Copy, PartialEq, Eq, Structural, Debug, Default)]
pub struct TrimeshDesc;

/// Marker descriptor of a heightfield whose bulk data is not persisted.
#[derive(Clone, Copy, PartialEq, Eq, Structural, Debug, Default)]
pub struct HeightfieldDesc;

/// One triangle of a mesh, as indices into a vertex list.
#[derive(Clone, Copy, PartialEq, Eq, Structural, Debug)]
pub struct IndexTriangle {
    pub a: u32,
    pub b: u32,
    pub c: u32,
}

/// Live triangle-mesh geometry: welded vertices plus index triangles.
#[derive(Clone, PartialEq, Eq, Debug)]
pub struct TrimeshShape {
    pub vertices: Vec<Vector3>,
    pub triangles: Vec<IndexTriangle>,
}

/// Live heightfield geometry: a rows-by-columns grid of heights.
#[derive(Clone, PartialEq, Eq, Debug)]
pub struct HeightfieldShape {
    pub rows: u32,
    pub columns: u32,
    pub heights: Vec<Scalar>,
}

/// A live collider shape, as the solver side of this layer stores it.
#[derive(Clone, PartialEq, Eq, Debug)]
pub enum ColliderShape {
    Ball(BallDesc),
    Cylinder(CylinderDesc),
    RoundCylinder(RoundCylinderDesc),
    Cone(ConeDesc),
    Cuboid(CuboidDesc),
    Capsule(CapsuleDesc),
    Segment(SegmentDesc),
    Triangle(TriangleDesc),
    Trimesh(TrimeshShape),
    Heightfield(HeightfieldShape),
}

/// A serializable collider shape descriptor.  Each variant carries a stable
/// small-integer discriminant on the wire; an unknown discriminant on read is
/// a hard deserialization error.
#[derive(Clone, Copy, PartialEq, Eq, Structural, Debug)]
pub enum ColliderShapeDesc {
    Ball(BallDesc),
    Cylinder(CylinderDesc),
    RoundCylinder(RoundCylinderDesc),
    Cone(ConeDesc),
    Cuboid(CuboidDesc),
    Capsule(CapsuleDesc),
    Segment(SegmentDesc),
    Triangle(TriangleDesc),
    Trimesh(TrimeshDesc),
    Heightfield(HeightfieldDesc),
}

/// The stable wire discriminant of each shape descriptor variant; kept in
/// one place so the read and write paths cannot drift apart.
pub open spec fn shape_id_spec(d: ColliderShapeDesc) -> u32 {
    match d {
        ColliderShapeDesc::Ball(_) => 0,
        ColliderShapeDesc::Cylinder(_) => 1,
        ColliderShapeDesc::RoundCylinder(_) => 2,
        ColliderShapeDesc::Cone(_) => 3,
        ColliderShapeDesc::Cuboid(_) => 4,
        ColliderShapeDesc::Capsule(_) => 5,
        ColliderShapeDesc::Segment(_) => 6,
        ColliderShapeDesc::Triangle(_) => 7,
        ColliderShapeDesc::Trimesh(_) => 8,
        ColliderShapeDesc::Heightfield(_) => 9,
    }
}

/// The descriptor a live shape snapshots to: parameters are copied, while
/// triangle-mesh and heightfield geometry collapses to its marker.
pub open spec fn desc_of_shape(s: ColliderShape) -> ColliderShapeDesc {
    match s {
        ColliderShape::Ball(v) => ColliderShapeDesc::Ball(v),
        ColliderShape::Cylinder(v) => ColliderShapeDesc::Cylinder(v),
        ColliderShape::RoundCylinder(v) => ColliderShapeDesc::RoundCylinder(v),
        ColliderShape::Cone(v) => ColliderShapeDesc::Cone(v),
        ColliderShape::Cuboid(v) => ColliderShapeDesc::Cuboid(v),
        ColliderShape::Capsule(v) => ColliderShapeDesc::Capsule(v),
        ColliderShape::Segment(v) => ColliderShapeDesc::Segment(v),
        ColliderShape::Triangle(v) => ColliderShapeDesc::Triangle(v),
        ColliderShape::Trimesh(_) => ColliderShapeDesc::Trimesh(TrimeshDesc),
        ColliderShape::Heightfield(_) => ColliderShapeDesc::Heightfield(HeightfieldDesc),
    }
}

impl ColliderShape {
    /// The placeholder mesh a trimesh descriptor materializes to before the
    /// real geometry is re-derived on resolve: one flat triangle.
    pub fn placeholder_trimesh() -> (r: ColliderShape)
        ensures
            is_placeholder_trimesh(r),
    {
        let vertices = vec![
            Vector3::from_bits(BITS_ZERO, BITS_ZERO, BITS_ONE),
            Vector3::from_bits(BITS_ONE, BITS_ZERO, BITS_ONE),
            Vector3::from_bits(BITS_ONE, BITS_ZERO, BITS_ZERO),
        ];
        let triangles = vec![IndexTriangle { a: 0, b: 1, c: 2 }];
        proof {
            assert(vertices@ =~= spec_placeholder_trimesh_vertices());
            assert(triangles@ =~= seq![IndexTriangle { a: 0, b: 1, c: 2 }]);
        }
        ColliderShape::Trimesh(TrimeshShape { vertices, triangles })
    }

    /// The placeholder heightfield a heightfield descriptor materializes to:
    /// a two-by-two grid with a single raised corner.
    pub fn placeholder_heightfield() -> (r: ColliderShape)
        ensures
            is_placeholder_heightfield(r),
    {
        let heights = vec![
            Scalar::from_bits(BITS_ZERO),
            Scalar::from_bits(BITS_ONE),
            Scalar::from_bits(BITS_ZERO),
            Scalar::from_bits(BITS_ZERO),
        ];
        proof {
            assert(heights@ =~= spec_placeholder_heights());
        }
        ColliderShape::Heightfield(HeightfieldShape { rows: 2, columns: 2, heights })
    }
}

/// Vertices of the placeholder trimesh.
pub open spec fn spec_placeholder_trimesh_vertices() -> Seq<Vector3> {
    seq![
        Vector3 {
            x: Scalar { bits: BITS_ZERO },
            y: Scalar { bits: BITS_ZERO },
            z: Scalar { bits: BITS_ONE },
        },
        Vector3 {
            x: Scalar { bits: BITS_ONE },
            y: Scalar { bits: BITS_ZERO },
            z: Scalar { bits: BITS_ONE },
        },
        Vector3 {
            x: Scalar { bits: BITS_ONE },
            y: Scalar { bits: BITS_ZERO },
            z: Scalar { bits: BITS_ZERO },
        },
    ]
}

/// Whether a shape is exactly the placeholder trimesh.
pub open spec fn is_placeholder_trimesh(s: ColliderShape) -> bool {
    &&& s matches ColliderShape::Trimesh(t)
    &&& t.vertices@ =~= spec_placeholder_trimesh_vertices()
    &&& t.triangles@ =~= seq![IndexTriangle { a: 0, b: 1, c: 2 }]
}

/// Heights of the placeholder heightfield.
pub open spec fn spec_placeholder_heights() -> Seq<Scalar> {
    seq![
        Scalar { bits: BITS_ZERO },
        Scalar { bits: BITS_ONE },
        Scalar { bits: BITS_ZERO },
        Scalar { bits: BITS_ZERO },
    ]
}

/// Whether a shape is exactly the placeholder heightfield.
pub open spec fn is_placeholder_heightfield(s: ColliderShape) -> bool {
    &&& s matches ColliderShape::Heightfield(h)
    &&& h.rows == 2
    &&& h.columns == 2
    &&& h.heights@ =~= spec_placeholder_heights()
}

/// Relates a descriptor to the live shape it materializes to: parameters
/// carry over directly, and the two marker variants come back as their
/// placeholder geometry.
pub open spec fn shape_matches_desc(s: ColliderShape, d: ColliderShapeDesc) -> bool {
    match d {
        ColliderShapeDesc::Ball(v) => s == ColliderShape::Ball(v),
        ColliderShapeDesc::Cylinder(v) => s == ColliderShape::Cylinder(v),
        ColliderShapeDesc::RoundCylinder(v) => s == ColliderShape::RoundCylinder(v),
        ColliderShapeDesc::Cone(v) => s == ColliderShape::Cone(v),
        ColliderShapeDesc::Cuboid(v) => s == ColliderShape::Cuboid(v),
        ColliderShapeDesc::Capsule(v) => s == ColliderShape::Capsule(v),
        ColliderShapeDesc::Segment(v) => s == ColliderShape::Segment(v),
        ColliderShapeDesc::Triangle(v) => s == ColliderShape::Triangle(v),
        ColliderShapeDesc::Trimesh(_) => is_placeholder_trimesh(s),
        ColliderShapeDesc::Heightfield(_) => is_placeholder_heightfield(s),
    }
}

impl ColliderShapeDesc {
    /// The stable wire discriminant of this variant.
    pub fn id(&self) -> (r: u32)
        ensures
            r == shape_id_spec(*self),
    {
        match self {
            ColliderShapeDesc::Ball(_) => 0,
            ColliderShapeDesc::Cylinder(_) => 1,
            ColliderShapeDesc::RoundCylinder(_) => 2,
            ColliderShapeDesc::Cone(_) => 3,
            ColliderShapeDesc::Cuboid(_) => 4,
            ColliderShapeDesc::Capsule(_) => 5,
            ColliderShapeDesc::Segment(_) => 6,
            ColliderShapeDesc::Triangle(_) => 7,
            ColliderShapeDesc::Trimesh(_) => 8,
            ColliderShapeDesc::Heightfield(_) => 9,
        }
    }

    /// The default-parameter descriptor carrying a given wire discriminant;
    /// an unknown discriminant is a hard error.
    pub fn from_id(id: u32) -> (r: Result<ColliderShapeDesc, String>)
        ensures
            id <= 9 ==> (r matches Ok(d) && shape_id_spec(d) == id),
            id > 9 ==> r is Err,
    {
        match id {
            0 => Ok(ColliderShapeDesc::Ball(BallDesc { radius: Scalar::zero() })),
            1 => Ok(
                ColliderShapeDesc::Cylinder(
                    CylinderDesc { half_height: Scalar::zero(), radius: Scalar::zero() },
                ),
            ),
            2 => Ok(
                ColliderShapeDesc::RoundCylinder(
                    RoundCylinderDesc {
                        half_height: Scalar::zero(),
                        radius: Scalar::zero(),
                        border_radius: Scalar::zero(),
                    },
                ),
            ),
            3 => Ok(
                ColliderShapeDesc::Cone(
                    ConeDesc { half_height: Scalar::zero(), radius: Scalar::zero() },
                ),
            ),
            4 => Ok(ColliderShapeDesc::Cuboid(CuboidDesc { half_extents: Vector3::zero() })),
            5 => Ok(
                ColliderShapeDesc::Capsule(
                    CapsuleDesc {
                        begin: Vector3::zero(),
                        end: Vector3::zero(),
                        radius: Scalar::zero(),
                    },
                ),
            ),
            6 => Ok(
                ColliderShapeDesc::Segment(
                    SegmentDesc { begin: Vector3::zero(), end: Vector3::zero() },
                ),
            ),
            7 => Ok(
                ColliderShapeDesc::Triangle(
                    TriangleDesc { a: Vector3::zero(), b: Vector3::zero(), c: Vector3::zero() },
                ),
            ),
            8 => Ok(ColliderShapeDesc::Trimesh(TrimeshDesc)),
            9 => Ok(ColliderShapeDesc::Heightfield(HeightfieldDesc)),
            _ => Err(invalid_shape_id_message()),
        }
    }

    /// Snapshots a live shape; the geometry of a triangle mesh or a
    /// heightfield collapses to its marker and is never persisted.
    pub fn from_collider_shape(shape: &ColliderShape) -> (r: ColliderShapeDesc)
        ensures
            r == desc_of_shape(*shape),
    {
        match shape {
            ColliderShape::Ball(v) => ColliderShapeDesc::Ball(*v),
            ColliderShape::Cylinder(v) => ColliderShapeDesc::Cylinder(*v),
            ColliderShape::RoundCylinder(v) => ColliderShapeDesc::RoundCylinder(*v),
            ColliderShape::Cone(v) => ColliderShapeDesc::Cone(*v),
            ColliderShape::Cuboid(v) => ColliderShapeDesc::Cuboid(*v),
            ColliderShape::Capsule(v) => ColliderShapeDesc::Capsule(*v),
            ColliderShape::Segment(v) => ColliderShapeDesc::Segment(*v),
            ColliderShape::Triangle(v) => ColliderShapeDesc::Triangle(*v),
            ColliderShape::Trimesh(_) => ColliderShapeDesc::Trimesh(TrimeshDesc),
            ColliderShape::Heightfield(_) => ColliderShapeDesc::Heightfield(HeightfieldDesc),
        }
    }

    /// Materializes the live shape this descriptor stands for.  The two
    /// marker variants come back as placeholder geometry that the resolve
    /// stage replaces with data re-derived from the scene.
    pub fn into_collider_shape(self) -> (r: ColliderShape)
        ensures
            shape_matches_desc(r, self),
            desc_of_shape(r) == self,
    {
        match self {
            ColliderShapeDesc::Ball(v) => ColliderShape::Ball(v),
            ColliderShapeDesc::Cylinder(v) => ColliderShape::Cylinder(v),
            ColliderShapeDesc::RoundCylinder(v) => ColliderShape::RoundCylinder(v),
            ColliderShapeDesc::Cone(v) => ColliderShape::Cone(v),
            ColliderShapeDesc::Cuboid(v) => ColliderShape::Cuboid(v),
            ColliderShapeDesc::Capsule(v) => ColliderShape::Capsule(v),
            ColliderShapeDesc::Segment(v) => ColliderShape::Segment(v),
            ColliderShapeDesc::Triangle(v) => ColliderShape::Triangle(v),
            ColliderShapeDesc::Trimesh(_) => ColliderShape::placeholder_trimesh(),
            ColliderShapeDesc::Heightfield(_) => ColliderShape::placeholder_heightfield(),
        }
    }
}

impl Default for ColliderShapeDesc {
    /// The default shape descriptor is a ball of radius zero.
    fn default() -> (r: ColliderShapeDesc)
        ensures
            r == ColliderShapeDesc::Ball(BallDesc { radius: Scalar { bits: BITS_ZERO } }),
    {
        ColliderShapeDesc::Ball(BallDesc { radius: Scalar::zero() })
    }
}

/// The message reported for an unknown shape discriminant.
fn invalid_shape_id_message() -> String {
    "invalid collider shape id".to_owned()
}

} // verus!
