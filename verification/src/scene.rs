//! The narrow query interface onto the scene-graph collaborator.
//!
//! The scene graph itself is out of scope: the host walks each bound
//! subtree, bakes every mesh's relative transform (the global transform of
//! the mesh composed with the inverse of the root's rotation-and-translation
//! transform, scale preserved) into its vertices, and hands this layer the
//! result as plain values.  This layer only reads them.

use vstd::prelude::*;

use crate::handles::NodeHandle;
use crate::math::{UnitQuaternion, Vector3};

verus! {

/// One baked triangle, in the space of the subtree root.
#[derive(Clone, Copy, PartialEq, Eq, Structural, Debug)]
pub struct Triangle {
    pub a: Vector3,
    pub b: Vector3,
    pub c: Vector3,
}

/// What the scene graph reports about one valid node: its placement and the
/// baked triangles of the meshes in its subtree.
#[derive(Clone, PartialEq, Debug)]
pub struct SceneNodeGeometry {
    /// The node this entry describes.
    pub handle: NodeHandle,
    /// Rotation part of the node's isometric global transform.
    pub global_rotation: UnitQuaternion,
    /// Translation part of the node's isometric global transform.
    pub global_position: Vector3,
    /// Baked triangles of every mesh in the node's subtree, in walk order;
    /// empty when the subtree holds no mesh geometry.
    pub triangles: Vec<Triangle>,
}

/// A read-only snapshot of the scene graph, listing every valid node that
/// resolve or embed may ask about.
#[derive(Clone, PartialEq, Debug)]
pub struct SceneSnapshot {
    nodes: Vec<SceneNodeGeometry>,
}

impl SceneSnapshot {
    /// The entries of the snapshot.
    pub closed spec fn view(self) -> Seq<SceneNodeGeometry> {
        self.nodes@
    }

    /// Whether a node handle is valid in this snapshot.
    pub open spec fn spec_is_valid(self, h: NodeHandle) -> bool {
        exists|i: int| 0 <= i < self@.len() && (#[trigger] self@[i]).handle == h
    }

    /// The entry for a valid node; with distinct handles it is unique.
    pub open spec fn spec_node(self, h: NodeHandle) -> SceneNodeGeometry {
        self@[choose|i: int| 0 <= i < self@.len() && (#[trigger] self@[i]).handle == h]
    }

    /// No node is listed twice.
    pub open spec fn wf(self) -> bool {
        forall|i: int, j: int|
            0 <= i < j < self@.len() ==> (#[trigger] self@[i]).handle != (
            #[trigger] self@[j]).handle
    }

    /// Creates a snapshot from the entries the host baked.
    pub fn new(nodes: Vec<SceneNodeGeometry>) -> (r: SceneSnapshot)
        ensures
            r@ == nodes@,
    {
        SceneSnapshot { nodes }
    }

    /// Whether a node handle is valid in this snapshot.
    pub fn is_valid_handle(&self, h: NodeHandle) -> (r: bool)
        ensures
            r == self.spec_is_valid(h),
    {
        let n = self.nodes.len();
        let mut i: usize = 0;
        while i < n
            invariant
                n == self@.len(),
                i <= n,
                forall|j: int| 0 <= j < i ==> (#[trigger] self@[j]).handle != h,
            decreases n - i,
        {
            if self.nodes[i].handle == h {
                return true;
            }
            i += 1;
        }
        false
    }

    /// The entry of a valid node.
    pub fn node(&self, h: NodeHandle) -> (r: &SceneNodeGeometry)
        requires
            self.wf(),
            self.spec_is_valid(h),
        ensures
            *r == self.spec_node(h),
            r.handle == h,
    {
        let n = self.nodes.len();
        let mut i: usize = 0;
        while i < n
            invariant
                n == self@.len(),
                i <= n,
                self.wf(),
                self.spec_is_valid(h),
                forall|j: int| 0 <= j < i ==> (#[trigger] self@[j]).handle != h,
            decreases n - i,
        {
            if self.nodes[i].handle == h {
                proof {
                    let k = choose|k: int|
                        0 <= k < self@.len() && (#[trigger] self@[k]).handle == h;
                    assert(k == i as int);
                }
                return &self.nodes[i];
            }
            i += 1;
        }
        proof {
            let k = choose|k: int| 0 <= k < self@.len() && (#[trigger] self@[k]).handle == h;
        }
        unreached()
    }
}

/// One entry of a node remap: a node of the source resource's scene and the
/// node it was cloned to in the host scene.
#[derive(Clone, Copy, PartialEq, Eq, Structural, Debug)]
pub struct RemapEntry {
    pub from: NodeHandle,
    pub to: NodeHandle,
}

/// The caller-supplied old-node-to-new-node remap used when a resource's
/// subtree has been cloned into a host scene.
#[derive(Clone, PartialEq, Debug)]
pub struct NodeRemap {
    entries: Vec<RemapEntry>,
}

impl NodeRemap {
    /// The entries of the remap.
    pub closed spec fn view(self) -> Seq<RemapEntry> {
        self.entries@
    }

    /// The remap sends this source node to this host node.
    pub open spec fn maps(self, from: NodeHandle, to: NodeHandle) -> bool {
        exists|i: int|
            0 <= i < self@.len() && (#[trigger] self@[i]).from == from && self@[i].to == to
    }

    /// The remap covers this source node.
    pub open spec fn has_from(self, from: NodeHandle) -> bool {
        exists|i: int| 0 <= i < self@.len() && (#[trigger] self@[i]).from == from
    }

    /// Builds a remap from the host's clone records.
    pub fn new(entries: Vec<RemapEntry>) -> (r: NodeRemap)
        ensures
            r@ == entries@,
    {
        NodeRemap { entries }
    }

    /// Looks a source node up; the earliest entry wins.
    pub fn get(&self, from: NodeHandle) -> (r: Option<NodeHandle>)
        ensures
            match r {
                Some(to) => self.maps(from, to),
                None => !self.has_from(from),
            },
    {
        let n = self.entries.len();
        let mut i: usize = 0;
        while i < n
            invariant
                n == self@.len(),
                i <= n,
                forall|j: int| 0 <= j < i ==> (#[trigger] self@[j]).from != from,
            decreases n - i,
        {
            if self.entries[i].from == from {
                return Some(self.entries[i].to);
            }
            i += 1;
        }
        None
    }
}

} // verus!
