//! The transform hierarchy and its invariant. The operations on it are in
//! the modules below: `dirty` for the changes of local transforms, `world`
//! for the world matrices, `relink` for reparenting, `removal` for taking
//! nodes out.

pub mod dirty;
pub mod relink;
pub mod removal;
pub mod world;

use vstd::prelude::*;
use glam::Mat4;
use crate::error::SceneError;
use crate::handle::TransformNodeHandle;
use crate::math::{is_mat4_product, is_mat4_zero, is_vec3_one, is_vec3_zero};
use crate::storage::ObjectStorage;
use crate::transform::{is_matrix_of, Transform, TransformNode};

verus! {

/// The transform hierarchy: a forest of `TransformNode`s kept in a slot store.
///
/// Nodes are linked by handles, never by references. Every node caches its
/// world matrix; the cache of a node is stale while the node is dirty.
pub struct SceneGraph {
    nodes: ObjectStorage<TransformNode>,
    rank: Ghost<Seq<nat>>,
    bound: Ghost<nat>,
}

/// Whether `w` is a world matrix that `glam` gives for a node with local
/// transform `local` under a parent whose world matrix is `parent_world`:
/// the parent's world matrix times a matrix of `local`.
pub open spec fn is_world_of(parent_world: Mat4, local: Transform, w: Mat4) -> bool {
    exists|lm: Mat4| #[trigger] is_matrix_of(local, lm) && is_mat4_product(parent_world, lm, w)
}

/// The depth recorded for slot `x`, zero outside the record.
pub open spec fn depth_at(depth: Seq<nat>, x: int) -> nat {
    if 0 <= x < depth.len() {
        depth[x]
    } else {
        0
    }
}

/// Whether slot `x` is slot `r` or lies below it: following the parent links
/// from `x` upwards leads to `r`.
pub open spec fn under(links: Seq<Option<int>>, depth: Seq<nat>, x: int, r: int) -> bool
    decreases depth_at(depth, x),
{
    if x == r {
        true
    } else if 0 <= x < links.len() {
        match links[x] {
            Some(p) => depth_at(depth, p) < depth_at(depth, x) && under(links, depth, p, r),
            None => false,
        }
    } else {
        false
    }
}

/// Two nodes that differ at most in their dirty flag.
pub open spec fn same_but_dirty(a: TransformNode, b: TransformNode) -> bool {
    &&& a.local == b.local
    &&& a.parent == b.parent
    &&& a.children@ == b.children@
    &&& a.world == b.world
}

/// Two nodes with the same place in the hierarchy and the same local
/// transform.
pub open spec fn same_placement(a: TransformNode, b: TransformNode) -> bool {
    &&& a.local == b.local
    &&& a.parent == b.parent
    &&& a.children@ == b.children@
}

/// Whatever lies under `r` is at least as deep as `r`.
pub proof fn lemma_under_depth(links: Seq<Option<int>>, depth: Seq<nat>, x: int, r: int)
    requires
        under(links, depth, x, r),
    ensures
        depth_at(depth, r) <= depth_at(depth, x),
    decreases depth_at(depth, x),
{
    if x != r {
        lemma_under_depth(links, depth, links[x].unwrap(), r);
    }
}

/// Whatever lies under a child of `r` lies under `r`.
pub proof fn lemma_under_parent(
    links: Seq<Option<int>>,
    depth: Seq<nat>,
    x: int,
    c: int,
    r: int,
)
    requires
        under(links, depth, x, c),
        0 <= c < links.len(),
        links[c] == Some(r),
        depth_at(depth, r) < depth_at(depth, c),
    ensures
        under(links, depth, x, r),
    decreases depth_at(depth, x),
{
    if x == c {
        assert(under(links, depth, r, r));
    } else if x != r {
        lemma_under_parent(links, depth, links[x].unwrap(), c, r);
    }
}

impl SceneGraph {
    /// The slot store that holds the nodes.
    pub closed spec fn store(&self) -> ObjectStorage<TransformNode> {
        self.nodes
    }

    /// For each slot, a number that falls strictly from every node to its
    /// parent. It witnesses that the links form a forest, and is at least the
    /// number of links from the slot's node up to its root.
    pub closed spec fn depth(&self) -> Seq<nat> {
        self.rank@
    }

    /// An upper bound of every recorded depth.
    pub closed spec fn limit(&self) -> nat {
        self.bound@
    }

    /// Whether `h` names a node of this graph.
    pub open spec fn contains(&self, h: TransformNodeHandle) -> bool {
        self.store().resolves(h.raw())
    }

    /// The node that `h` names; meaningful where `contains(h)` holds.
    pub open spec fn node(&self, h: TransformNodeHandle) -> TransformNode {
        self.store().value(h.raw())
    }

    /// Whether slot `i` holds a node.
    pub open spec fn live(&self, i: int) -> bool {
        self.store().occupied(i)
    }

    /// The node in slot `i`; meaningful where `live(i)` holds.
    pub open spec fn at(&self, i: int) -> TransformNode {
        self.store().slots()[i].unwrap()
    }

    /// The handle that currently names slot `i`.
    pub open spec fn handle_at(&self, i: int) -> TransformNodeHandle {
        TransformNodeHandle { index: i as usize, generation: self.store().generations()[i] }
    }

    /// The parent link of every slot, by slot index; `None` for roots and for
    /// empty slots.
    pub open spec fn links(&self) -> Seq<Option<int>> {
        Seq::new(
            self.store().slots().len(),
            |i: int|
                if self.live(i) {
                    match self.at(i).parent {
                        Some(p) => Some(p.index as int),
                        None => None,
                    }
                } else {
                    None
                },
        )
    }

    /// Whether the node in slot `x` is the node in slot `r` or one of its
    /// descendants.
    pub open spec fn within(&self, x: int, r: int) -> bool {
        under(self.links(), self.depth(), x, r)
    }

    /// Whether `c` names a node whose parent link points at slot `i`.
    pub open spec fn child_ok(&self, i: int, c: TransformNodeHandle) -> bool {
        &&& self.contains(c)
        &&& self.at(c.index as int).parent == Some(self.handle_at(i))
    }

    /// Whether the cached world matrix of slot `i` is right: for a root a
    /// matrix of its local transform, for any other node the cached world
    /// matrix of its parent, itself not stale, times a matrix of its local
    /// transform.
    pub open spec fn cache_ok(&self, i: int) -> bool {
        let n = self.at(i);
        match n.parent {
            None => is_matrix_of(n.local, n.world),
            Some(p) => {
                &&& !self.at(p.index as int).dirty
                &&& is_world_of(self.at(p.index as int).world, n.local, n.world)
            },
        }
    }

    /// What holds of every node: its parent exists, lies strictly above it
    /// and lists it as a child; its children exist, are listed once, and
    /// point back to it; and unless it is dirty its cache is right.
    pub open spec fn node_ok(&self, i: int) -> bool {
        let n = self.at(i);
        &&& i < self.depth().len()
        &&& self.depth()[i] <= self.limit()
        &&& n.children@.no_duplicates()
        &&& match n.parent {
            Some(p) => {
                &&& self.contains(p)
                &&& self.depth()[p.index as int] < self.depth()[i]
                &&& self.at(p.index as int).children@.contains(self.handle_at(i))
            },
            None => true,
        }
        &&& forall|k: int|
            0 <= k < n.children@.len() ==> self.child_ok(i, #[trigger] n.children@[k])
        &&& !n.dirty ==> self.cache_ok(i)
    }

    /// The graph's invariant: the store is well formed and every node is.
    /// With the depths strictly falling towards the parents, the links form a
    /// forest.
    pub open spec fn wf(&self) -> bool {
        &&& self.store().wf()
        &&& self.depth().len() == self.store().slots().len()
        &&& forall|i: int| #[trigger] self.live(i) ==> self.node_ok(i)
    }

    /// An empty graph.
    pub fn new() -> (g: SceneGraph)
        ensures
            g.wf(),
            g.store().slots().len() == 0,
            g.store().free_list().len() == 0,
            forall|h: TransformNodeHandle| !g.contains(h),
    {
        SceneGraph { nodes: ObjectStorage::new(), rank: Ghost(Seq::empty()), bound: Ghost(0) }
    }

    /// Whether `h` names a node of this graph.
    pub fn is_valid(&self, h: TransformNodeHandle) -> (b: bool)
        requires
            self.wf(),
        ensures
            b == self.contains(h),
    {
        self.nodes.resolve(&h.handle()).is_some()
    }

    /// What `create_node` does: it adds one fresh node, dirty and without
    /// children, under `parent` where `parent` names a node and as a root
    /// otherwise, and reports a parent that names nothing. Apart from the
    /// parent's list of children, no node that was there changes.
    pub open spec fn created(
        pre: SceneGraph,
        post: SceneGraph,
        parent: Option<TransformNodeHandle>,
        h: TransformNodeHandle,
        report: Result<(), SceneError>,
    ) -> bool {
        let attached = parent is Some && pre.contains(parent.unwrap());
        &&& !pre.live(h.index as int)
        &&& if pre.store().free_list().len() > 0 {
            &&& h.index == pre.store().free_list().last()
            &&& h.generation == pre.store().generations()[h.index as int]
            &&& post.store().free_list() == pre.store().free_list().drop_last()
            &&& post.store().generations() == pre.store().generations()
            &&& post.store().slots().len() == pre.store().slots().len()
        } else {
            &&& h.index == pre.store().slots().len()
            &&& h.generation == 0
            &&& post.store().free_list() == pre.store().free_list()
            &&& post.store().generations() == pre.store().generations().push(0u32)
            &&& post.store().slots().len() == pre.store().slots().len() + 1
        }
        &&& post.contains(h)
        &&& post.node(h).dirty
        &&& post.node(h).children@.len() == 0
        &&& is_mat4_zero(post.node(h).world)
        &&& is_vec3_zero(post.node(h).local.position)
        &&& is_vec3_zero(post.node(h).local.rotation)
        &&& is_vec3_one(post.node(h).local.scale)
        &&& post.node(h).parent == (if attached { parent } else { None })
        &&& report == (if parent is Some && !attached {
            Err::<(), SceneError>(SceneError::InvalidHandle)
        } else {
            Ok::<(), SceneError>(())
        })
        &&& forall|g: TransformNodeHandle| #[trigger]
            pre.contains(g) ==> {
                &&& post.contains(g)
                &&& if attached && g == parent.unwrap() {
                    &&& post.node(g).children@ == pre.node(g).children@.push(h)
                    &&& post.node(g).local == pre.node(g).local
                    &&& post.node(g).parent == pre.node(g).parent
                    &&& post.node(g).world == pre.node(g).world
                    &&& post.node(g).dirty == pre.node(g).dirty
                } else {
                    post.node(g) == pre.node(g)
                }
            }
        &&& forall|g: TransformNodeHandle| #[trigger] post.contains(g) ==> g == h || pre.contains(g)
    }

    /// Adds a node under `parent`, or a root where `parent` is `None`.
    ///
    /// A `parent` that names nothing does not stop the node from being
    /// created: it becomes a root, and the second component of the result is
    /// `Err(InvalidHandle)`.
    pub fn create_node(&mut self, parent: Option<TransformNodeHandle>) -> (r: (TransformNodeHandle, Result<(), SceneError>))
        requires
            old(self).wf(),
        ensures
            final(self).wf(),
            Self::created(*old(self), *final(self), parent, r.0, r.1),
    {
        let attached = match parent {
            Some(p) => self.nodes.resolve(&p.handle()).is_some(),
            None => false,
        };
        let link = if attached { parent } else { None };
        let report = if parent.is_some() && !attached {
            Err(SceneError::InvalidHandle)
        } else {
            Ok(())
        };
        let node = TransformNode::new(link);
        let h = TransformNodeHandle::of(self.nodes.insert(node));
        proof {
            let i = h.index as int;
            let d: nat = match link {
                Some(p) => (old(self).depth()[p.index as int] + 1) as nat,
                None => 0nat,
            };
            if i < self.rank@.len() {
                self.rank@ = self.rank@.update(i, d);
            } else {
                self.rank@ = self.rank@.push(d);
            }
            self.bound@ = self.bound@ + 1;
        }
        match link {
            Some(p) => {
                match self.nodes.resolve_mut(&p.handle()) {
                    Some(n) => {
                        n.children.push(h);
                    },
                    None => {},
                }
            },
            None => {},
        }
        proof {
            let pre = *old(self);
            let post = *self;
            assert forall|i: int| #[trigger] post.live(i) implies post.node_ok(i) by {
                if i == h.index {
                    if attached {
                        let p = parent.unwrap();
                        assert(pre.live(p.index as int));
                        assert(pre.node_ok(p.index as int));
                        let c = post.at(p.index as int).children@;
                        assert(c[c.len() - 1] == h);
                    }
                } else {
                    assert(pre.live(i));
                    assert(pre.node_ok(i));
                    let n = pre.at(i);
                    assert forall|k: int| 0 <= k < post.at(i).children@.len() implies post.child_ok(
                        i,
                        #[trigger] post.at(i).children@[k],
                    ) by {
                        if k < n.children@.len() {
                            assert(pre.child_ok(i, n.children@[k]));
                        }
                    }
                    if attached && i == parent.unwrap().index {
                        assert forall|a: int, b: int|
                            0 <= a < post.at(i).children@.len() && 0 <= b < post.at(
                                i,
                            ).children@.len() && a != b implies post.at(i).children@[a] != post.at(
                            i,
                        ).children@[b] by {
                            if a < n.children@.len() {
                                assert(pre.child_ok(i, n.children@[a]));
                            }
                            if b < n.children@.len() {
                                assert(pre.child_ok(i, n.children@[b]));
                            }
                        }
                    }
                    match n.parent {
                        Some(q) => {
                            let c = pre.at(q.index as int).children@;
                            let j = choose|j: int| 0 <= j < c.len() && c[j] == pre.handle_at(i);
                            assert(post.at(q.index as int).children@[j] == post.handle_at(i));
                        },
                        None => {},
                    }
                }
            }
        }
        (h, report)
    }

    /// Borrows the node that `h` names, if it names one.
    pub fn get_node(&self, h: TransformNodeHandle) -> (r: Option<&TransformNode>)
        requires
            self.wf(),
        ensures
            r is Some <==> self.contains(h),
            r is Some ==> *r.unwrap() == self.node(h),
    {
        self.nodes.resolve(&h.handle())
    }
}

} // verus!
