//! What follows from the contracts of the scene graph and of the scene,
//! proved once here so that callers need not prove it again.

use vstd::prelude::*;
use glam::{Mat4, Vec3};
use crate::error::SceneError;
use crate::graph::{depth_at, is_world_of, lemma_under_depth, SceneGraph};
use crate::handle::{MeshObjectHandle, TransformNodeHandle};
use crate::scene::Scene;
use crate::transform::{is_matrix_of, op_applied, LocalOp};

verus! {

/// Whether `m` is a world matrix of the node in slot `i`: for a root a matrix
/// of its local transform, for any other node a world matrix of its parent
/// times a matrix of its own local transform, and so on up to the root.
pub open spec fn is_composed(g: SceneGraph, i: int, m: Mat4) -> bool
    decreases depth_at(g.depth(), i),
{
    match g.at(i).parent {
        None => is_matrix_of(g.at(i).local, m),
        Some(p) => exists|above: Mat4|
            depth_at(g.depth(), p.index as int) < depth_at(g.depth(), i) && is_composed(
                g,
                p.index as int,
                above,
            ) && #[trigger] is_world_of(above, g.at(i).local, m),
    }
}

/// The cached world matrix of a node that is not dirty is the composition of
/// the local transforms of the node and of all the nodes above it.
pub proof fn lemma_clean_cache_is_composed(g: SceneGraph, i: int)
    requires
        g.wf(),
        g.live(i),
        !g.at(i).dirty,
    ensures
        is_composed(g, i, g.at(i).world),
    decreases depth_at(g.depth(), i),
{
    assert(g.node_ok(i));
    match g.at(i).parent {
        None => {
            assert(g.cache_ok(i));
            assert(is_composed(g, i, g.at(i).world));
        },
        Some(p) => {
            assert(g.live(p.index as int));
            assert(g.cache_ok(i));
            assert(g.node_ok(p.index as int));
            lemma_clean_cache_is_composed(g, p.index as int);
            let above = g.at(p.index as int).world;
            assert(depth_at(g.depth(), p.index as int) < depth_at(g.depth(), i));
            assert(is_composed(g, p.index as int, above) && is_world_of(
                above,
                g.at(i).local,
                g.at(i).world,
            ));
            assert(is_composed(g, i, g.at(i).world));
        },
    }
}

/// Reading the world matrix of a node gives the composition of the local
/// transforms of the node and of all the nodes above it, as they are at the
/// time of the reading.
pub proof fn lemma_world_matrix_is_composed(pre: SceneGraph, post: SceneGraph, node: TransformNodeHandle, m: Mat4)
    requires
        pre.wf(),
        post.wf(),
        pre.contains(node),
        SceneGraph::refreshed(pre, post, node.index as int, m),
    ensures
        is_composed(post, node.index as int, m),
{
    assert(pre.live(node.index as int));
    assert(post.live(node.index as int));
    assert(pre.within(node.index as int, node.index as int));
    lemma_clean_cache_is_composed(post, node.index as int);
}

/// Dirty propagation along a chain of three: after the local transform of
/// `root` has changed, the world matrix read for `grandchild` is built from
/// the changed transform of `root` and the untouched ones of `child` and
/// `grandchild`, without anyone touching `child` or `grandchild`.
pub proof fn lemma_change_reaches_grandchild(
    s0: SceneGraph,
    s1: SceneGraph,
    s2: SceneGraph,
    root: TransformNodeHandle,
    child: TransformNodeHandle,
    grandchild: TransformNodeHandle,
    op: LocalOp,
    v: Vec3,
    r: Result<(), SceneError>,
    m: Mat4,
)
    requires
        s0.wf(),
        s0.contains(root),
        s0.contains(child),
        s0.contains(grandchild),
        s0.node(root).parent is None,
        s0.node(child).parent == Some(root),
        s0.node(grandchild).parent == Some(child),
        s1.wf(),
        SceneGraph::local_changed(s0, s1, root, op, v, r),
        s2.wf(),
        SceneGraph::refreshed(s1, s2, grandchild.index as int, m),
    ensures
        r is Ok,
        s1.node(child).dirty,
        s1.node(grandchild).dirty,
        op_applied(op, v, s0.node(root).local, s2.node(root).local),
        s2.node(child).local == s0.node(child).local,
        s2.node(grandchild).local == s0.node(grandchild).local,
        exists|rw: Mat4, cw: Mat4|
            is_matrix_of(s2.node(root).local, rw) && #[trigger] is_world_of(
                rw,
                s2.node(child).local,
                cw,
            ) && is_world_of(cw, s2.node(grandchild).local, m),
{
    let ri = root.index as int;
    let ci = child.index as int;
    let gi = grandchild.index as int;
    assert(s0.live(ri) && s0.live(ci) && s0.live(gi));
    assert(s0.node_ok(ci) && s0.node_ok(gi));
    assert(s0.within(ri, ri));
    assert(s0.within(ci, ri));
    assert(s0.within(gi, ri));
    assert(s1.live(ri) && s1.live(ci) && s1.live(gi));
    assert(s2.live(ri) && s2.live(ci) && s2.live(gi));
    assert(s1.within(gi, gi));
    assert(s2.node_ok(gi));
    assert(s2.cache_ok(gi));
    assert(s2.node_ok(ci));
    assert(s2.cache_ok(ci));
    assert(s2.node_ok(ri));
    assert(s2.cache_ok(ri));
    assert(is_world_of(s2.at(ri).world, s2.node(child).local, s2.at(ci).world));
}

/// In a well-formed graph, a node lies within the subtree of another exactly
/// when it is that node or its parent lies within that subtree.
pub proof fn lemma_within_follows_parents(g: SceneGraph, x: int, r: int)
    requires
        g.wf(),
        g.live(x),
    ensures
        g.within(x, r) <==> x == r || match g.at(x).parent {
            Some(p) => g.within(p.index as int, r),
            None => false,
        },
{
    assert(g.node_ok(x));
    match g.at(x).parent {
        Some(p) => {
            assert(g.live(p.index as int));
            assert(g.links()[x] == Some(p.index as int));
        },
        None => {
            assert(g.links()[x] is None);
        },
    }
}

/// The links form a forest: no node lies below one of its own descendants.
pub proof fn lemma_no_cycle(g: SceneGraph, x: int, r: int)
    requires
        g.wf(),
        g.within(x, r),
        g.within(r, x),
    ensures
        x == r,
{
    if x != r {
        let p = g.links()[x].unwrap();
        lemma_under_depth(g.links(), g.depth(), p, r);
        let q = g.links()[r].unwrap();
        lemma_under_depth(g.links(), g.depth(), q, x);
    }
}

/// A node is listed among the children of another exactly when its parent
/// link points there, and no list of children names a node twice.
pub proof fn lemma_children_mirror_parents(g: SceneGraph, parent: TransformNodeHandle, child: TransformNodeHandle)
    requires
        g.wf(),
        g.contains(parent),
        g.contains(child),
    ensures
        g.node(parent).children@.contains(child) <==> g.node(child).parent == Some(parent),
        g.node(parent).children@.no_duplicates(),
{
    let pi = parent.index as int;
    let ci = child.index as int;
    assert(g.live(pi) && g.live(ci));
    assert(g.node_ok(pi) && g.node_ok(ci));
    if g.node(parent).children@.contains(child) {
        let c = g.node(parent).children@;
        let j = choose|j: int| 0 <= j < c.len() && c[j] == child;
        assert(g.child_ok(pi, c[j]));
    }
}

/// Cycle rejection: moving a node under itself or under one of its
/// descendants is refused with `CycleError` and leaves the graph as it was.
pub proof fn lemma_cycle_is_refused(
    pre: SceneGraph,
    post: SceneGraph,
    node: TransformNodeHandle,
    below: TransformNodeHandle,
    r: Result<(), SceneError>,
)
    requires
        pre.wf(),
        pre.contains(node),
        pre.contains(below),
        pre.within(below.index as int, node.index as int),
        SceneGraph::reparented(pre, post, node, Some(below), r),
    ensures
        r == Err::<(), SceneError>(SceneError::CycleError),
        post == pre,
{
}

/// Idempotent removal: the first removal of a node succeeds, a second one
/// through the same handle fails with `InvalidHandle` and changes nothing.
pub proof fn lemma_second_removal_fails(
    s0: SceneGraph,
    s1: SceneGraph,
    s2: SceneGraph,
    node: TransformNodeHandle,
    r1: Result<(), SceneError>,
    r2: Result<(), SceneError>,
)
    requires
        s0.wf(),
        s0.contains(node),
        s0.store().can_retire(node.raw()),
        SceneGraph::node_removed(s0, s1, node, r1),
        SceneGraph::node_removed(s1, s2, node, r2),
    ensures
        r1 is Ok,
        !s1.contains(node),
        r2 == Err::<(), SceneError>(SceneError::InvalidHandle),
        s2 == s1,
{
    assert(s0.live(node.index as int));
}

/// Orphan re-rooting: when a node is removed, each of its children is a root
/// afterwards, with the local transform it had, and the world matrix read
/// for it next is a matrix of that local transform.
pub proof fn lemma_orphan_becomes_root(
    s0: SceneGraph,
    s1: SceneGraph,
    s2: SceneGraph,
    node: TransformNodeHandle,
    child: TransformNodeHandle,
    r: Result<(), SceneError>,
    m: Mat4,
)
    requires
        s0.wf(),
        s0.contains(node),
        s0.contains(child),
        s0.store().can_retire(node.raw()),
        s0.node(child).parent == Some(node),
        SceneGraph::node_removed(s0, s1, node, r),
        s1.wf(),
        SceneGraph::refreshed(s1, s2, child.index as int, m),
        s2.wf(),
    ensures
        r is Ok,
        s1.contains(child),
        s1.node(child).parent is None,
        s1.node(child).local == s0.node(child).local,
        s2.node(child).local == s0.node(child).local,
        is_matrix_of(s0.node(child).local, m),
{
    let ci = child.index as int;
    assert(s0.live(ci) && s0.live(node.index as int));
    assert(s0.node_ok(ci));
    assert(s1.live(ci));
    assert(s2.live(ci));
    assert(s1.within(ci, ci));
    assert(s2.node_ok(ci));
    assert(s2.cache_ok(ci));
}

/// Deleting a mesh object frees two slots, its own and that of its transform
/// node, and moves each slot's generation up by exactly one; neither handle
/// names anything afterwards, and a second deletion through the same handle
/// fails with `InvalidHandle` and changes nothing.
pub proof fn lemma_object_deletion_is_final(
    s0: Scene,
    s1: Scene,
    s2: Scene,
    h: MeshObjectHandle,
    r1: Result<(), SceneError>,
    r2: Result<(), SceneError>,
)
    requires
        s0.wf(),
        s0.objects().resolves(h.raw()),
        s0.object_retirable(h.raw()),
        Scene::object_deleted(s0, s1, h.raw(), r1),
        Scene::object_deleted(s1, s2, h.raw(), r2),
    ensures
        r1 is Ok,
        !s1.objects().resolves(h.raw()),
        s1.objects().free_list() == s0.objects().free_list().push(h.index),
        s1.objects().generations()[h.index as int] == h.generation + 1,
        ({
            let t = s0.objects().value(h.raw()).transform_node_handle;
            &&& s0.graph().contains(t)
            &&& !s1.graph().contains(t)
            &&& s1.graph().store().free_list() == s0.graph().store().free_list().push(t.index)
            &&& s1.graph().store().generations()[t.index as int] == t.generation + 1
        }),
        r2 == Err::<(), SceneError>(SceneError::InvalidHandle),
        s2 == s1,
{
    let t = s0.objects().value(h.raw()).transform_node_handle;
    assert(s0.objects().occupied(h.index as int));
    assert(s0.graph().contains(s0.object_node(h.index as int)));
    assert(s0.graph().live(t.index as int));
}

} // verus!
