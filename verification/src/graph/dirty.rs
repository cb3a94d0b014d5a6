//! Changes of local transforms, and the dirty flags that they raise.

use vstd::prelude::*;
use glam::Vec3;
use crate::error::SceneError;
use crate::graph::{depth_at, lemma_under_depth, lemma_under_parent, same_but_dirty, SceneGraph};
use crate::handle::TransformNodeHandle;
use crate::transform::{op_applied, LocalOp};

verus! {

impl SceneGraph {
    /// A node strictly below slot `r` lies under one of the children of the
    /// node in slot `r`; the result is that child's place in the list.
    pub proof fn lemma_branch(&self, x: int, r: int) -> (j: int)
        requires
            self.wf(),
            self.live(r),
            self.within(x, r),
            x != r,
        ensures
            0 <= j < self.at(r).children@.len(),
            self.within(x, self.at(r).children@[j].index as int),
        decreases depth_at(self.depth(), x),
    {
        let p = self.links()[x].unwrap();
        assert(self.live(x));
        assert(self.node_ok(x));
        let ph = self.at(x).parent.unwrap();
        assert(self.live(p));
        if p == r {
            let c = self.at(r).children@;
            let j = choose|j: int| 0 <= j < c.len() && c[j] == self.handle_at(x);
            assert(self.within(x, x));
            j
        } else {
            let j = self.lemma_branch(p, r);
            j
        }
    }

    /// What marking the subtree of slot `r` dirty does: every node in slot
    /// `r` or below it is dirty afterwards, and nothing else changes.
    pub open spec fn dirtied(pre: SceneGraph, post: SceneGraph, r: int) -> bool {
        &&& post.store().generations() == pre.store().generations()
        &&& post.store().free_list() == pre.store().free_list()
        &&& post.store().slots().len() == pre.store().slots().len()
        &&& post.depth() == pre.depth()
        &&& post.limit() == pre.limit()
        &&& forall|i: int| #[trigger] post.live(i) <==> pre.live(i)
        &&& forall|i: int|
            pre.live(i) ==> {
                &&& same_but_dirty(pre.at(i), #[trigger] post.at(i))
                &&& post.at(i).dirty == (pre.at(i).dirty || pre.within(i, r))
            }
    }

    /// Marks the node `h` and all its descendants dirty.
    pub(super) fn mark_dirty(&mut self, h: TransformNodeHandle)
        requires
            old(self).wf(),
            old(self).contains(h),
        ensures
            final(self).wf(),
            Self::dirtied(*old(self), *final(self), h.index as int),
        decreases old(self).limit() - old(self).depth()[h.index as int],
    {
        let ghost pre = *self;
        let ghost r = h.index as int;
        let ghost kids = pre.at(r).children@;
        assert(pre.live(r));
        assert(pre.node_ok(r));
        let count = match self.nodes.resolve(&h.handle()) {
            Some(n) => n.children.len(),
            None => 0,
        };
        let mut k: usize = 0;
        while k < count
            invariant
                pre == *old(self),
                pre.wf(),
                pre.contains(h),
                pre.node_ok(r),
                r == h.index,
                kids == pre.at(r).children@,
                count == kids.len(),
                k <= count,
                self.wf(),
                self.store().generations() == pre.store().generations(),
                self.store().free_list() == pre.store().free_list(),
                self.store().slots().len() == pre.store().slots().len(),
                self.depth() == pre.depth(),
                self.limit() == pre.limit(),
                self.links() == pre.links(),
                forall|i: int| #[trigger] self.live(i) <==> pre.live(i),
                forall|i: int|
                    pre.live(i) ==> {
                        &&& same_but_dirty(pre.at(i), #[trigger] self.at(i))
                        &&& pre.at(i).dirty ==> self.at(i).dirty
                        &&& self.at(i).dirty ==> pre.at(i).dirty || (i != r && pre.within(i, r))
                    },
                forall|i: int, j: int|
                    0 <= j < k && pre.live(i) && #[trigger] pre.within(i, kids[j].index as int)
                        ==> self.at(i).dirty,
            decreases count - k,
        {
            let ghost before = *self;
            assert(self.live(r));
            let c = match self.nodes.resolve(&h.handle()) {
                Some(n) => n.children[k],
                None => h,
            };
            proof {
                assert(c == kids[k as int]);
                assert(pre.child_ok(r, kids[k as int]));
                assert(self.live(c.index as int));
                assert(pre.live(c.index as int));
                assert(pre.node_ok(c.index as int));
            }
            self.mark_dirty(c);
            proof {
                assert(self.links() =~= pre.links());
                assert forall|i: int| pre.live(i) implies {
                    &&& same_but_dirty(pre.at(i), #[trigger] self.at(i))
                    &&& pre.at(i).dirty ==> self.at(i).dirty
                    &&& self.at(i).dirty ==> pre.at(i).dirty || (i != r && pre.within(i, r))
                } by {
                    assert(before.live(i));
                    assert(same_but_dirty(before.at(i), self.at(i)));
                    if before.within(i, c.index as int) {
                        lemma_under_parent(pre.links(), pre.depth(), i, c.index as int, r);
                        lemma_under_depth(pre.links(), pre.depth(), i, c.index as int);
                    }
                }
                assert forall|i: int, j: int|
                    0 <= j < k + 1 && pre.live(i) && #[trigger] pre.within(
                        i,
                        kids[j].index as int,
                    ) implies self.at(i).dirty by {
                    assert(before.live(i));
                    assert(same_but_dirty(before.at(i), self.at(i)));
                }
            }
            k += 1;
        }
        let ghost mid = *self;
        match self.nodes.resolve_mut(&h.handle()) {
            Some(n) => {
                n.dirty = true;
            },
            None => {},
        }
        proof {
            let post = *self;
            assert(post.links() =~= pre.links());
            assert forall|i: int| pre.live(i) implies {
                &&& same_but_dirty(pre.at(i), #[trigger] post.at(i))
                &&& post.at(i).dirty == (pre.at(i).dirty || pre.within(i, r))
            } by {
                assert(mid.live(i));
                assert(same_but_dirty(pre.at(i), mid.at(i)));
                if i != r && pre.within(i, r) {
                    let j = pre.lemma_branch(i, r);
                }
            }
            assert forall|i: int| #[trigger] post.live(i) implies post.node_ok(i) by {
                assert(mid.live(i));
                assert(mid.node_ok(i));
                let n = mid.at(i);
                assert forall|q: int| 0 <= q < post.at(i).children@.len() implies post.child_ok(
                    i,
                    #[trigger] post.at(i).children@[q],
                ) by {
                    assert(mid.child_ok(i, n.children@[q]));
                }
                if !post.at(i).dirty {
                    match n.parent {
                        Some(p) => {
                            if p.index == h.index {
                                assert(pre.live(i));
                                assert(pre.within(r, r));
                                assert(pre.within(i, r));
                            }
                        },
                        None => {},
                    }
                }
            }
        }
    }
    /// What a change of a local transform does. Where `node` names nothing,
    /// it is refused and nothing changes. Otherwise the node's local
    /// transform is changed as `op` says, the node and all its descendants
    /// are dirty afterwards, and nothing else changes.
    pub open spec fn local_changed(
        pre: SceneGraph,
        post: SceneGraph,
        node: TransformNodeHandle,
        op: LocalOp,
        v: Vec3,
        r: Result<(), SceneError>,
    ) -> bool {
        if !pre.contains(node) {
            &&& r == Err::<(), SceneError>(SceneError::InvalidHandle)
            &&& post == pre
        } else {
            &&& r == Ok::<(), SceneError>(())
            &&& post.store().generations() == pre.store().generations()
            &&& post.store().free_list() == pre.store().free_list()
            &&& post.store().slots().len() == pre.store().slots().len()
            &&& forall|i: int| #[trigger] post.live(i) <==> pre.live(i)
            &&& forall|i: int|
                pre.live(i) ==> {
                    &&& pre.at(i).parent == (#[trigger] post.at(i)).parent
                    &&& pre.at(i).children@ == post.at(i).children@
                    &&& pre.at(i).world == post.at(i).world
                    &&& post.at(i).dirty == (pre.at(i).dirty || pre.within(i, node.index as int))
                    &&& if i == node.index {
                        op_applied(op, v, pre.at(i).local, post.at(i).local)
                    } else {
                        post.at(i).local == pre.at(i).local
                    }
                }
        }
    }

    /// Changes the local transform of `node` as `op` says, with the vector
    /// `v`, and marks the node and all its descendants dirty.
    pub fn set_local(&mut self, node: TransformNodeHandle, op: LocalOp, v: Vec3) -> (r: Result<(), SceneError>)
        requires
            old(self).wf(),
        ensures
            final(self).wf(),
            Self::local_changed(*old(self), *final(self), node, op, v, r),
    {
        if self.nodes.resolve(&node.handle()).is_none() {
            return Err(SceneError::InvalidHandle);
        }
        self.mark_dirty(node);
        let ghost mid = *self;
        let n = self.nodes.get_mut(&node.handle());
        n.local.apply(op, v);
        proof {
            let post = *self;
            let pre = *old(self);
            let r = node.index as int;
            assert(pre.within(r, r));
            assert forall|i: int| #[trigger] post.live(i) implies post.node_ok(i) by {
                assert(mid.live(i));
                assert(mid.node_ok(i));
                assert(pre.live(i));
                let n = mid.at(i);
                assert forall|q: int| 0 <= q < post.at(i).children@.len() implies post.child_ok(
                    i,
                    #[trigger] post.at(i).children@[q],
                ) by {
                    assert(mid.child_ok(i, n.children@[q]));
                }
            }
            assert forall|i: int| pre.live(i) implies {
                &&& pre.at(i).parent == (#[trigger] post.at(i)).parent
                &&& pre.at(i).children@ == post.at(i).children@
                &&& pre.at(i).world == post.at(i).world
                &&& post.at(i).dirty == (pre.at(i).dirty || pre.within(i, node.index as int))
                &&& if i == node.index {
                    op_applied(op, v, pre.at(i).local, post.at(i).local)
                } else {
                    post.at(i).local == pre.at(i).local
                }
            } by {
                assert(mid.live(i));
                assert(same_but_dirty(pre.at(i), mid.at(i)));
            }
        }
        Ok(())
    }

    /// Adds `delta` to the position of `node`.
    pub fn translate(&mut self, node: TransformNodeHandle, delta: Vec3) -> (r: Result<(), SceneError>)
        requires
            old(self).wf(),
        ensures
            final(self).wf(),
            Self::local_changed(*old(self), *final(self), node, LocalOp::Translate, delta, r),
    {
        self.set_local(node, LocalOp::Translate, delta)
    }

    /// Adds `delta` to the Euler angles of `node`.
    pub fn rotate(&mut self, node: TransformNodeHandle, delta: Vec3) -> (r: Result<(), SceneError>)
        requires
            old(self).wf(),
        ensures
            final(self).wf(),
            Self::local_changed(*old(self), *final(self), node, LocalOp::Rotate, delta, r),
    {
        self.set_local(node, LocalOp::Rotate, delta)
    }

    /// Multiplies the scale of `node` component-wise by `factor`.
    pub fn scale(&mut self, node: TransformNodeHandle, factor: Vec3) -> (r: Result<(), SceneError>)
        requires
            old(self).wf(),
        ensures
            final(self).wf(),
            Self::local_changed(*old(self), *final(self), node, LocalOp::Scale, factor, r),
    {
        self.set_local(node, LocalOp::Scale, factor)
    }

    /// Replaces the position of `node`.
    pub fn set_position(&mut self, node: TransformNodeHandle, position: Vec3) -> (r: Result<(), SceneError>)
        requires
            old(self).wf(),
        ensures
            final(self).wf(),
            Self::local_changed(*old(self), *final(self), node, LocalOp::SetPosition, position, r),
    {
        self.set_local(node, LocalOp::SetPosition, position)
    }

    /// Replaces the Euler angles of `node`.
    pub fn set_rotation(&mut self, node: TransformNodeHandle, rotation: Vec3) -> (r: Result<(), SceneError>)
        requires
            old(self).wf(),
        ensures
            final(self).wf(),
            Self::local_changed(*old(self), *final(self), node, LocalOp::SetRotation, rotation, r),
    {
        self.set_local(node, LocalOp::SetRotation, rotation)
    }

    /// Replaces the scale of `node`.
    pub fn set_scale(&mut self, node: TransformNodeHandle, scale: Vec3) -> (r: Result<(), SceneError>)
        requires
            old(self).wf(),
        ensures
            final(self).wf(),
            Self::local_changed(*old(self), *final(self), node, LocalOp::SetScale, scale, r),
    {
        self.set_local(node, LocalOp::SetScale, scale)
    }
}

} // verus!
