//! World matrices: computed on demand along the chain of dirty nodes, and
//! cached.

use vstd::prelude::*;
use glam::Mat4;
use crate::error::SceneError;
use crate::graph::{depth_at, lemma_under_depth, same_placement, SceneGraph};
use crate::handle::TransformNodeHandle;
use crate::math::mat4_mul;

verus! {

impl SceneGraph {
    /// Above a node that is not dirty, no node is dirty.
    pub proof fn lemma_clean_above(&self, i: int, x: int)
        requires
            self.wf(),
            self.live(i),
            !self.at(i).dirty,
            self.within(i, x),
        ensures
            self.live(x),
            !self.at(x).dirty,
        decreases depth_at(self.depth(), i),
    {
        if i != x {
            assert(self.node_ok(i));
            let p = self.links()[i].unwrap();
            assert(self.live(p));
            self.lemma_clean_above(p, x);
        }
    }

    /// What reading a world matrix does to the graph: the node in slot `i`
    /// and every node above it is clean afterwards, with its world matrix
    /// computed anew if it was dirty; `m` is the world matrix of the node in
    /// slot `i`. The hierarchy and the local transforms stay, and so do the
    /// dirty flags and the caches of all other nodes and the caches of the
    /// nodes that were clean.
    pub open spec fn refreshed(pre: SceneGraph, post: SceneGraph, i: int, m: Mat4) -> bool {
        &&& post.store().generations() == pre.store().generations()
        &&& post.store().free_list() == pre.store().free_list()
        &&& post.store().slots().len() == pre.store().slots().len()
        &&& post.depth() == pre.depth()
        &&& post.limit() == pre.limit()
        &&& forall|x: int| #[trigger] post.live(x) <==> pre.live(x)
        &&& forall|x: int|
            pre.live(x) ==> {
                &&& same_placement(pre.at(x), #[trigger] post.at(x))
                &&& post.at(x).dirty == (pre.at(x).dirty && !pre.within(i, x))
                &&& !pre.at(x).dirty || !pre.within(i, x) ==> post.at(x).world == pre.at(x).world
            }
        &&& m == post.at(i).world
    }

    /// Brings the cached world matrix of `h` up to date and returns it.
    ///
    /// A clean node answers from its cache. A dirty one first brings its
    /// parent up to date, then multiplies the parent's world matrix with the
    /// matrix of its own local transform; a dirty root takes the matrix of
    /// its local transform.
    fn refresh(&mut self, h: TransformNodeHandle) -> (m: Mat4)
        requires
            old(self).wf(),
            old(self).contains(h),
        ensures
            final(self).wf(),
            Self::refreshed(*old(self), *final(self), h.index as int, m),
        decreases old(self).depth()[h.index as int],
    {
        let ghost pre = *self;
        let ghost i = h.index as int;
        assert(pre.live(i));
        assert(pre.node_ok(i));
        let n = self.nodes.get(&h.handle());
        let dirty = n.dirty;
        let cached = n.world;
        let parent = n.parent;
        let transform = n.local;
        if !dirty {
            proof {
                assert forall|x: int| pre.live(x) && pre.within(i, x) implies !pre.at(x).dirty by {
                    pre.lemma_clean_above(i, x);
                }
            }
            return cached;
        }
        let local = transform.get_matrix();
        let world = match parent {
            Some(p) => {
                let above = self.refresh(p);
                mat4_mul(above, local)
            },
            None => local,
        };
        let ghost mid = *self;
        let n = self.nodes.get_mut(&h.handle());
        n.world = world;
        n.dirty = false;
        proof {
            let post = *self;
            assert(mid.links() =~= pre.links());
            assert(mid.live(i));
            assert(same_placement(pre.at(i), mid.at(i)));
            if parent is Some && pre.within(parent.unwrap().index as int, i) {
                lemma_under_depth(pre.links(), pre.depth(), parent.unwrap().index as int, i);
            }
            assert(mid.at(i).dirty);
            assert forall|x: int| pre.live(x) implies {
                &&& same_placement(pre.at(x), #[trigger] post.at(x))
                &&& post.at(x).dirty == (pre.at(x).dirty && !pre.within(i, x))
                &&& !pre.at(x).dirty || !pre.within(i, x) ==> post.at(x).world == pre.at(x).world
            } by {
                assert(mid.live(x));
                assert(same_placement(pre.at(x), mid.at(x)));
            }
            assert forall|x: int| #[trigger] post.live(x) implies post.node_ok(x) by {
                assert(mid.live(x));
                assert(mid.node_ok(x));
                let n = mid.at(x);
                assert forall|q: int| 0 <= q < post.at(x).children@.len() implies post.child_ok(
                    x,
                    #[trigger] post.at(x).children@[q],
                ) by {
                    assert(mid.child_ok(x, n.children@[q]));
                }
            }
        }
        world
    }

    /// The world matrix of `node`: the composition of its local transform
    /// with those of all the nodes above it.
    ///
    /// Fails with `InvalidHandle`, changing nothing, where `node` names
    /// nothing. Otherwise the matrix comes from the cache where the node is
    /// clean and is computed, and cached, along the chain of dirty nodes
    /// above it where it is not.
    pub fn get_world_matrix(&mut self, node: TransformNodeHandle) -> (r: Result<Mat4, SceneError>)
        requires
            old(self).wf(),
        ensures
            final(self).wf(),
            !old(self).contains(node) ==> r == Err::<Mat4, SceneError>(SceneError::InvalidHandle)
                && *final(self) == *old(self),
            old(self).contains(node) ==> r is Ok && Self::refreshed(
                *old(self),
                *final(self),
                node.index as int,
                r.unwrap(),
            ),
    {
        if self.nodes.resolve(&node.handle()).is_none() {
            return Err(SceneError::InvalidHandle);
        }
        Ok(self.refresh(node))
    }
}

} // verus!
