//! The node binding collaborator: a bidirectional association between scene
//! nodes and the engine handles of the bodies that drive them.  The core
//! queries it during resolve and embed to find which node supplies trimesh
//! geometry for a body, and rebinds nodes to newly created bodies.

use vstd::prelude::*;
use vstd::pervasive::VecAdditionalExecFns;

use crate::handles::NodeHandle;

verus! {

/// One node-to-body association.
#[derive(Clone, Copy, PartialEq, Eq, Structural, Debug)]
pub struct Binding {
    /// The scene node.
    pub node: NodeHandle,
    /// Engine identifier of the body bound to it.
    pub body: u128,
}

/// The node-to-body bindings of one scene, in insertion order, with at most
/// one binding per node.
#[derive(Clone, PartialEq, Debug)]
pub struct PhysicsBinder {
    bindings: Vec<Binding>,
}

impl PhysicsBinder {
    /// The bindings, in insertion order.
    pub closed spec fn view(self) -> Seq<Binding> {
        self.bindings@
    }

    /// Some binding associates this node with this body.
    pub open spec fn binds(self, node: NodeHandle, body: u128) -> bool {
        exists|i: int|
            0 <= i < self@.len() && (#[trigger] self@[i]).node == node && self@[i].body == body
    }

    /// Some binding mentions this node.
    pub open spec fn has_node(self, node: NodeHandle) -> bool {
        exists|i: int| 0 <= i < self@.len() && (#[trigger] self@[i]).node == node
    }

    /// Some binding mentions this body.
    pub open spec fn has_body(self, body: u128) -> bool {
        exists|i: int| 0 <= i < self@.len() && (#[trigger] self@[i]).body == body
    }

    /// No node is bound twice.
    pub open spec fn wf(self) -> bool {
        forall|i: int, j: int|
            0 <= i < j < self@.len() ==> (#[trigger] self@[i]).node != (#[trigger] self@[j]).node
    }

    /// Creates an empty binder.
    pub fn new() -> (r: PhysicsBinder)
        ensures
            r@ =~= Seq::<Binding>::empty(),
            r.wf(),
    {
        PhysicsBinder { bindings: Vec::new() }
    }

    /// Number of bindings.
    pub fn len(&self) -> (r: usize)
        ensures
            r == self@.len(),
    {
        self.bindings.len()
    }

    /// The binding at the given position, in insertion order.
    pub fn binding_at(&self, i: usize) -> (r: Binding)
        requires
            i < self@.len(),
        ensures
            r == self@[i as int],
    {
        self.bindings[i]
    }

    /// Binds a node to a body, replacing the node's previous binding if it
    /// had one.
    pub fn bind(&mut self, node: NodeHandle, body: u128)
        requires
            old(self).wf(),
        ensures
            final(self).wf(),
            final(self).binds(node, body),
            forall|n2: NodeHandle, b2: u128|
                n2 != node ==> (#[trigger] final(self).binds(n2, b2) <==> old(self).binds(n2, b2)),
            forall|b2: u128| final(self).binds(node, b2) ==> b2 == body,
    {
        let n = self.bindings.len();
        let mut i: usize = 0;
        while i < n
            invariant
                n == self@.len(),
                i <= n,
                self.wf(),
                *self == *old(self),
                forall|j: int| 0 <= j < i ==> (#[trigger] self@[j]).node != node,
            decreases n - i,
        {
            if self.bindings[i].node == node {
                self.bindings.set(i, Binding { node, body });
                proof {
                    let pre = old(self)@;
                    let post = self@;
                    let ii = i as int;
                    assert forall|j: int, k: int| 0 <= j < k < post.len() implies (
                    #[trigger] post[j]).node != (#[trigger] post[k]).node by {
                        assert(post[j] == if j == ii {
                            Binding { node, body }
                        } else {
                            pre[j]
                        });
                        assert(post[k] == if k == ii {
                            Binding { node, body }
                        } else {
                            pre[k]
                        });
                    }
                    assert(post[ii].node == node && post[ii].body == body);
                    assert forall|n2: NodeHandle, b2: u128| n2 != node implies (#[trigger] self.binds(
                        n2,
                        b2,
                    ) <==> old(self).binds(n2, b2)) by {
                        if self.binds(n2, b2) {
                            let j = choose|j: int|
                                0 <= j < post.len() && (#[trigger] post[j]).node == n2
                                    && post[j].body == b2;
                            assert(pre[j] == post[j]);
                        }
                        if old(self).binds(n2, b2) {
                            let j = choose|j: int|
                                0 <= j < pre.len() && (#[trigger] pre[j]).node == n2 && pre[j].body
                                    == b2;
                            assert(post[j] == pre[j]);
                        }
                    }
                    assert forall|b2: u128| self.binds(node, b2) implies b2 == body by {
                        let j = choose|j: int|
                            0 <= j < post.len() && (#[trigger] post[j]).node == node && post[j].body
                                == b2;
                        if j != ii {
                            assert(pre[j] == post[j]);
                            assert(pre[j].node != pre[ii].node);
                        }
                    }
                }
                return ;
            }
            i += 1;
        }
        self.bindings.push(Binding { node, body });
        proof {
            let pre = old(self)@;
            let post = self@;
            let m = post.len() - 1;
            assert(post[m].node == node && post[m].body == body);
            assert forall|j: int, k: int| 0 <= j < k < post.len() implies (#[trigger] post[j]).node
                != (#[trigger] post[k]).node by {
                if k < m {
                    assert(pre[j] == post[j] && pre[k] == post[k]);
                } else {
                    assert(pre[j] == post[j]);
                }
            }
            assert forall|n2: NodeHandle, b2: u128| n2 != node implies (#[trigger] self.binds(
                n2,
                b2,
            ) <==> old(self).binds(n2, b2)) by {
                if self.binds(n2, b2) {
                    let j = choose|j: int|
                        0 <= j < post.len() && (#[trigger] post[j]).node == n2 && post[j].body
                            == b2;
                    assert(pre[j] == post[j]);
                }
                if old(self).binds(n2, b2) {
                    let j = choose|j: int|
                        0 <= j < pre.len() && (#[trigger] pre[j]).node == n2 && pre[j].body == b2;
                    assert(post[j] == pre[j]);
                }
            }
            assert forall|b2: u128| self.binds(node, b2) implies b2 == body by {
                let j = choose|j: int|
                    0 <= j < post.len() && (#[trigger] post[j]).node == node && post[j].body == b2;
                if j != m {
                    assert(pre[j] == post[j]);
                }
            }
        }
    }

    /// The node bound to a body, if any; the earliest binding wins when a
    /// body drives several nodes.
    pub fn node_of(&self, body: u128) -> (r: Option<NodeHandle>)
        ensures
            match r {
                Some(node) => self.binds(node, body),
                None => !self.has_body(body),
            },
    {
        let n = self.bindings.len();
        let mut i: usize = 0;
        while i < n
            invariant
                n == self@.len(),
                i <= n,
                forall|j: int| 0 <= j < i ==> (#[trigger] self@[j]).body != body,
            decreases n - i,
        {
            if self.bindings[i].body == body {
                return Some(self.bindings[i].node);
            }
            i += 1;
        }
        None
    }

    /// The body bound to a node, if any.
    pub fn body_of(&self, node: NodeHandle) -> (r: Option<u128>)
        ensures
            match r {
                Some(body) => self.binds(node, body),
                None => !self.has_node(node),
            },
    {
        let n = self.bindings.len();
        let mut i: usize = 0;
        while i < n
            invariant
                n == self@.len(),
                i <= n,
                forall|j: int| 0 <= j < i ==> (#[trigger] self@[j]).node != node,
            decreases n - i,
        {
            if self.bindings[i].node == node {
                return Some(self.bindings[i].body);
            }
            i += 1;
        }
        None
    }
}

impl Default for PhysicsBinder {
    /// The default binder is empty.
    fn default() -> (r: PhysicsBinder)
        ensures
            r@ =~= Seq::<Binding>::empty(),
            r.wf(),
    {
        PhysicsBinder::new()
    }
}

} // verus!
