//! Taking a node out of the hierarchy: its children become roots.

use vstd::prelude::*;
use crate::error::SceneError;
use crate::graph::relink::{detached, remove_handle};
use crate::graph::{same_but_dirty, under, SceneGraph};
use crate::handle::TransformNodeHandle;
use crate::transform::TransformNode;

verus! {

impl SceneGraph {
    /// How the node in slot `i` changes when `node` is taken out of the
    /// hierarchy: the children of `node` become roots, and the parent of
    /// `node` loses it from its list.
    pub open spec fn unlinked_node(pre: SceneGraph, node: TransformNodeHandle, i: int, after: TransformNode) -> bool {
        let before = pre.at(i);
        &&& before.local == after.local
        &&& before.world == after.world
        &&& before.dirty == after.dirty
        &&& after.parent == (if before.parent == Some(node) {
            None
        } else {
            before.parent
        })
        &&& Self::relinked(
            before.children@,
            after.children@,
            node,
            pre.node(node).parent == Some(pre.handle_at(i)),
            false,
        )
    }

    /// The graph after `node` has been taken out and its slot freed, dirty
    /// flags left as they are.
    pub open spec fn unlinked_graph(pre: SceneGraph, post: SceneGraph, node: TransformNodeHandle) -> bool {
        &&& post.store().wf()
        &&& post.store().generations() == pre.store().generations().update(
            node.index as int,
            (node.generation + 1) as u32,
        )
        &&& post.store().free_list() == pre.store().free_list().push(node.index)
        &&& post.store().slots().len() == pre.store().slots().len()
        &&& post.depth() == pre.depth()
        &&& post.limit() == pre.limit()
        &&& forall|i: int| #[trigger] post.live(i) <==> pre.live(i) && i != node.index
        &&& forall|i: int|
            pre.live(i) && i != node.index ==> Self::unlinked_node(pre, node, i, #[trigger] post.at(i))
    }

    /// After `node` has been taken out, the node in slot `i` is as the
    /// invariant wants it.
    proof fn lemma_unlink_node(pre: SceneGraph, post: SceneGraph, node: TransformNodeHandle, i: int)
        requires
            pre.wf(),
            pre.contains(node),
            node.generation < u32::MAX,
            forall|x: int| pre.live(x) && pre.within(x, node.index as int) ==> pre.at(x).dirty,
            Self::unlinked_graph(pre, post, node),
            post.live(i),
        ensures
            post.node_ok(i),
    {
        let r = node.index as int;
        let n = pre.at(i);
        let m = post.at(i);
        let links = pre.links();
        let depth = pre.depth();
        assert(pre.live(i));
        assert(pre.node_ok(i));
        assert(pre.live(r));
        assert(pre.node_ok(r));
        assert(Self::unlinked_node(pre, node, i, post.at(i)));
        let leaves = pre.node(node).parent == Some(pre.handle_at(i));
        if n.children@.contains(node) {
            let j = choose|j: int| 0 <= j < n.children@.len() && n.children@[j] == node;
            assert(pre.child_ok(i, n.children@[j]));
        }
        Self::lemma_relinked_members(n.children@, m.children@, node, leaves, false);
        assert forall|k: int| 0 <= k < m.children@.len() implies post.child_ok(
            i,
            #[trigger] m.children@[k],
        ) by {
            let c = m.children@[k];
            assert(m.children@.contains(c));
            let j = choose|j: int| 0 <= j < n.children@.len() && n.children@[j] == c;
            assert(pre.child_ok(i, n.children@[j]));
            assert(pre.live(c.index as int));
            assert(post.live(c.index as int));
            assert(Self::unlinked_node(pre, node, c.index as int, post.at(c.index as int)));
        }
        match n.parent {
            Some(q) => {
                let qi = q.index as int;
                assert(pre.live(qi));
                assert(pre.node_ok(qi));
                assert(links[i] == Some(qi));
                assert(under(links, depth, r, r));
                if q != node {
                    assert(post.live(qi));
                    assert(Self::unlinked_node(pre, node, qi, post.at(qi)));
                    if pre.at(qi).children@.contains(node) {
                        let j = choose|j: int|
                            0 <= j < pre.at(qi).children@.len() && pre.at(qi).children@[j] == node;
                        assert(pre.child_ok(qi, pre.at(qi).children@[j]));
                    }
                    Self::lemma_relinked_members(
                        pre.at(qi).children@,
                        post.at(qi).children@,
                        node,
                        pre.node(node).parent == Some(pre.handle_at(qi)),
                        false,
                    );
                }
            },
            None => {},
        }
    }

    /// What `remove_node` does. Where `node` names nothing it is refused
    /// with `InvalidHandle` and nothing changes. Otherwise the node's slot
    /// is freed and its generation grows by one; its parent loses it from
    /// the list of children; its children become roots and keep their local
    /// transforms; they and all their descendants are dirty afterwards;
    /// nothing else changes.
    pub open spec fn node_removed(
        pre: SceneGraph,
        post: SceneGraph,
        node: TransformNodeHandle,
        r: Result<(), SceneError>,
    ) -> bool {
        if !pre.contains(node) {
            r == Err::<(), SceneError>(SceneError::InvalidHandle) && post == pre
        } else {
            &&& r == Ok::<(), SceneError>(())
            &&& post.store().generations() == pre.store().generations().update(
                node.index as int,
                (node.generation + 1) as u32,
            )
            &&& post.store().free_list() == pre.store().free_list().push(node.index)
            &&& post.store().slots().len() == pre.store().slots().len()
            &&& forall|i: int| #[trigger] post.live(i) <==> pre.live(i) && i != node.index
            &&& forall|i: int|
                pre.live(i) && i != node.index ==> {
                    &&& pre.at(i).local == (#[trigger] post.at(i)).local
                    &&& pre.at(i).world == post.at(i).world
                    &&& post.at(i).dirty == (pre.at(i).dirty || pre.within(i, node.index as int))
                    &&& post.at(i).parent == (if pre.at(i).parent == Some(node) {
                        None
                    } else {
                        pre.at(i).parent
                    })
                    &&& Self::relinked(
                        pre.at(i).children@,
                        post.at(i).children@,
                        node,
                        pre.node(node).parent == Some(pre.handle_at(i)),
                        false,
                    )
                }
        }
    }

    /// Takes `node` out of the graph and frees its slot.
    ///
    /// The children of the node are not deleted: they become roots. The
    /// handle, and every copy of it, names nothing afterwards.
    pub fn remove_node(&mut self, node: TransformNodeHandle) -> (r: Result<(), SceneError>)
        requires
            old(self).wf(),
            old(self).store().can_retire(node.raw()),
        ensures
            final(self).wf(),
            Self::node_removed(*old(self), *final(self), node, r),
            !final(self).contains(node),
    {
        if self.nodes.resolve(&node.handle()).is_none() {
            return Err(SceneError::InvalidHandle);
        }
        let ghost pre = *self;
        let ghost r = node.index as int;
        self.mark_dirty(node);
        let ghost mid = *self;
        proof {
            assert(mid.links() =~= pre.links());
            assert(pre.live(r));
            assert(mid.live(r));
            assert(mid.node_ok(r));
            assert(same_but_dirty(pre.at(r), mid.at(r)));
        }
        let old_parent = self.nodes.get(&node.handle()).parent;
        match old_parent {
            Some(q) => {
                assert(mid.live(q.index as int));
                let qn = self.nodes.get_mut(&q.handle());
                remove_handle(&mut qn.children, node);
            },
            None => {},
        }
        let ghost s1 = *self;
        let ghost kids = mid.at(r).children@;
        let count = self.nodes.get(&node.handle()).children.len();
        let mut k: usize = 0;
        while k < count
            invariant
                mid.wf(),
                mid.contains(node),
                mid.node_ok(r),
                r == node.index,
                kids == mid.at(r).children@,
                count == kids.len(),
                k <= count,
                self.store().wf(),
                self.store().generations() == mid.store().generations(),
                self.store().free_list() == mid.store().free_list(),
                self.store().slots().len() == mid.store().slots().len(),
                self.depth() == mid.depth(),
                self.limit() == mid.limit(),
                forall|i: int| #[trigger] self.live(i) <==> mid.live(i),
                self.at(r).children@ == kids,
                forall|i: int|
                    mid.live(i) ==> {
                        &&& s1.at(i).local == (#[trigger] self.at(i)).local
                        &&& s1.at(i).world == self.at(i).world
                        &&& s1.at(i).dirty == self.at(i).dirty
                        &&& s1.at(i).children@ == self.at(i).children@
                        &&& s1.at(i).parent == mid.at(i).parent
                        &&& self.at(i).parent == s1.at(i).parent || (self.at(i).parent is None
                            && s1.at(i).parent == Some(node))
                    },
                forall|j: int| 0 <= j < k ==> self.at((#[trigger] kids[j]).index as int).parent is None,
            decreases count - k,
        {
            let ghost before = *self;
            let c = self.nodes.get(&node.handle()).children[k];
            proof {
                assert(mid.child_ok(r, kids[k as int]));
                assert(mid.live(c.index as int));
                assert(mid.node_ok(c.index as int));
                assert(before.at(c.index as int).local == s1.at(c.index as int).local);
            }
            let cn = self.nodes.get_mut(&c.handle());
            cn.parent = None;
            proof {
                assert forall|i: int| mid.live(i) implies {
                    &&& s1.at(i).local == (#[trigger] self.at(i)).local
                    &&& s1.at(i).world == self.at(i).world
                    &&& s1.at(i).dirty == self.at(i).dirty
                    &&& s1.at(i).children@ == self.at(i).children@
                    &&& s1.at(i).parent == mid.at(i).parent
                    &&& self.at(i).parent == s1.at(i).parent || (self.at(i).parent is None
                        && s1.at(i).parent == Some(node))
                } by {
                    assert(before.at(i).local == s1.at(i).local);
                }
                assert forall|j: int| 0 <= j < k + 1 implies self.at(
                    (#[trigger] kids[j]).index as int,
                ).parent is None by {
                    if j < k {
                        assert(before.at(kids[j].index as int).parent is None);
                    }
                }
            }
            k += 1;
        }
        let ghost s2 = *self;
        let gone = self.nodes.remove(node.handle());
        proof {
            let post = *self;
            assert(Self::unlinked_graph(mid, post, node)) by {
                assert forall|i: int| mid.live(i) && i != r implies Self::unlinked_node(
                    mid,
                    node,
                    i,
                    #[trigger] post.at(i),
                ) by {
                    assert(mid.node_ok(i));
                    assert(s2.live(i));
                    assert(s2.at(i).local == s1.at(i).local);
                    assert(post.at(i) == s2.at(i));
                    if mid.at(i).parent == Some(node) {
                        let j = choose|j: int| 0 <= j < kids.len() && kids[j] == mid.handle_at(i);
                        assert(s2.at(kids[j].index as int).parent is None);
                    }
                    if old_parent == Some(mid.handle_at(i)) {
                        assert(detached(mid.at(i).children@, node, s1.at(i).children@));
                    }
                }
            }
            assert forall|i: int| #[trigger] post.live(i) implies post.node_ok(i) by {
                Self::lemma_unlink_node(mid, post, node, i);
            }
            assert forall|i: int| pre.live(i) && i != r implies {
                &&& pre.at(i).local == (#[trigger] post.at(i)).local
                &&& pre.at(i).world == post.at(i).world
                &&& post.at(i).dirty == (pre.at(i).dirty || pre.within(i, r))
                &&& post.at(i).parent == (if pre.at(i).parent == Some(node) {
                    None
                } else {
                    pre.at(i).parent
                })
                &&& Self::relinked(
                    pre.at(i).children@,
                    post.at(i).children@,
                    node,
                    pre.node(node).parent == Some(pre.handle_at(i)),
                    false,
                )
            } by {
                assert(mid.live(i));
                assert(same_but_dirty(pre.at(i), mid.at(i)));
                assert(Self::unlinked_node(mid, node, i, post.at(i)));
            }
        }
        Ok(())
    }
}

} // verus!
