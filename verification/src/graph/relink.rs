//! Reparenting: the cycle test, and the move of a node from one list of
//! children to another.

use vstd::prelude::*;
use crate::error::SceneError;
use crate::graph::{same_but_dirty, under, SceneGraph};
use crate::handle::TransformNodeHandle;
use crate::transform::TransformNode;

verus! {

/// Whether `after` is `before` with its one entry `h` taken out, the order of
/// the others kept.
pub open spec fn detached(before: Seq<TransformNodeHandle>, h: TransformNodeHandle, after: Seq<TransformNodeHandle>) -> bool {
    exists|k: int| 0 <= k < before.len() && #[trigger] before[k] == h && after == before.remove(k)
}

/// Takes the entry `h` out of `list`.
pub(super) fn remove_handle(list: &mut Vec<TransformNodeHandle>, h: TransformNodeHandle)
    requires
        old(list)@.contains(h),
    ensures
        detached(old(list)@, h, final(list)@),
{
    let mut k: usize = 0;
    while k < list.len() && !(list[k] == h)
        invariant
            *list == *old(list),
            k <= list.len(),
            forall|j: int| 0 <= j < k ==> list@[j] != h,
        decreases list.len() - k,
    {
        k += 1;
    }
    assert(k < list.len());
    list.remove(k);
}

impl SceneGraph {
    /// Whether the node `x` is the node `r` or one of its descendants, found
    /// by walking from `x` up to its root.
    pub fn is_within(&self, x: TransformNodeHandle, r: TransformNodeHandle) -> (b: bool)
        requires
            self.wf(),
            self.contains(x),
            self.contains(r),
        ensures
            b == self.within(x.index as int, r.index as int),
    {
        let mut cur = x;
        loop
            invariant
                self.wf(),
                self.contains(cur),
                self.contains(r),
                self.within(x.index as int, r.index as int) == self.within(
                    cur.index as int,
                    r.index as int,
                ),
            decreases self.depth()[cur.index as int],
        {
            assert(self.live(cur.index as int));
            assert(self.node_ok(cur.index as int));
            if cur.index == r.index {
                return true;
            }
            match self.nodes.get(&cur.handle()).parent {
                Some(p) => {
                    cur = p;
                },
                None => {
                    return false;
                },
            }
        }
    }

    /// The depths after the subtree of slot `r` has moved down by `shift`.
    pub open spec fn shifted(links: Seq<Option<int>>, depth: Seq<nat>, r: int, shift: nat) -> Seq<
        nat,
    > {
        Seq::new(
            depth.len(),
            |x: int|
                if under(links, depth, x, r) {
                    (depth[x] + shift) as nat
                } else {
                    depth[x]
                },
        )
    }

    /// By how much a subtree moves down when it is put under `new_parent`.
    pub open spec fn shift_for(&self, new_parent: Option<TransformNodeHandle>) -> nat {
        match new_parent {
            Some(p) => (self.depth()[p.index as int] + 1) as nat,
            None => 0nat,
        }
    }

    /// How the node in slot `i` changes when `node` moves under
    /// `new_parent`: only `node` gets a new parent link, and only the lists of
    /// the old and the new parent change.
    pub open spec fn relinked_node(
        pre: SceneGraph,
        node: TransformNodeHandle,
        new_parent: Option<TransformNodeHandle>,
        i: int,
        after: TransformNode,
    ) -> bool {
        let before = pre.at(i);
        &&& before.local == after.local
        &&& before.world == after.world
        &&& before.dirty == after.dirty
        &&& after.parent == (if i == node.index {
            new_parent
        } else {
            before.parent
        })
        &&& Self::relinked(
            before.children@,
            after.children@,
            node,
            pre.node(node).parent == Some(pre.handle_at(i)),
            new_parent == Some(pre.handle_at(i)),
        )
    }

    /// The change of links that moves `node` under `new_parent`, dirty flags
    /// left as they are.
    pub open spec fn relinked_graph(
        pre: SceneGraph,
        post: SceneGraph,
        node: TransformNodeHandle,
        new_parent: Option<TransformNodeHandle>,
    ) -> bool {
        &&& post.store().wf()
        &&& post.store().generations() == pre.store().generations()
        &&& post.store().free_list() == pre.store().free_list()
        &&& post.store().slots().len() == pre.store().slots().len()
        &&& post.depth() == Self::shifted(
            pre.links(),
            pre.depth(),
            node.index as int,
            pre.shift_for(new_parent),
        )
        &&& post.limit() == pre.limit() + pre.shift_for(new_parent)
        &&& forall|i: int| #[trigger] post.live(i) <==> pre.live(i)
        &&& forall|i: int|
            pre.live(i) ==> Self::relinked_node(pre, node, new_parent, i, #[trigger] post.at(i))
    }

    /// What a list of children holds after `node` has moved.
    pub proof fn lemma_relinked_members(
        before: Seq<TransformNodeHandle>,
        after: Seq<TransformNodeHandle>,
        node: TransformNodeHandle,
        leaves: bool,
        joins: bool,
    )
        requires
            Self::relinked(before, after, node, leaves, joins),
            before.no_duplicates(),
            before.contains(node) ==> leaves,
        ensures
            after.no_duplicates(),
            forall|h: TransformNodeHandle| h != node ==> (after.contains(h) <==> before.contains(h)),
            after.contains(node) <==> joins,
            joins ==> after.len() > 0 && after[after.len() - 1] == node,
    {
        let m = if leaves {
            if joins {
                choose|m: Seq<TransformNodeHandle>| #[trigger] detached(before, node, m) && after == m.push(node)
            } else {
                after
            }
        } else {
            before
        };
        assert(m.no_duplicates() && !m.contains(node) && (forall|h: TransformNodeHandle|
            h != node ==> (m.contains(h) <==> before.contains(h)))) by {
            if leaves {
                let k = choose|k: int|
                    0 <= k < before.len() && #[trigger] before[k] == node && m == before.remove(k);
                assert forall|h: TransformNodeHandle| h != node && before.contains(h) implies m.contains(h) by {
                    let j = choose|j: int| 0 <= j < before.len() && before[j] == h;
                    if j < k {
                        assert(m[j] == h);
                    } else {
                        assert(m[j - 1] == h);
                    }
                }
                assert forall|h: TransformNodeHandle| m.contains(h) implies before.contains(h) && h != node by {
                    let j = choose|j: int| 0 <= j < m.len() && m[j] == h;
                    if j < k {
                        assert(before[j] == h);
                    } else {
                        assert(before[j + 1] == h);
                    }
                }
            }
        }
        if joins {
            assert(after == m.push(node));
            assert(after[after.len() - 1] == node);
            assert forall|h: TransformNodeHandle| h != node && m.contains(h) implies after.contains(h) by {
                let j = choose|j: int| 0 <= j < m.len() && m[j] == h;
                assert(after[j] == h);
            }
            assert forall|h: TransformNodeHandle| h != node && after.contains(h) implies m.contains(h) by {
                let j = choose|j: int| 0 <= j < after.len() && after[j] == h;
                assert(m[j] == h);
            }
        } else {
            assert(after == m);
        }
    }

    /// After `node` has moved, the node in slot `i` is as the invariant
    /// wants it.
    proof fn lemma_relink_node(
        pre: SceneGraph,
        post: SceneGraph,
        node: TransformNodeHandle,
        new_parent: Option<TransformNodeHandle>,
        i: int,
    )
        requires
            pre.wf(),
            pre.contains(node),
            new_parent is Some ==> pre.contains(new_parent.unwrap()) && !pre.within(
                new_parent.unwrap().index as int,
                node.index as int,
            ),
            forall|x: int| pre.live(x) && pre.within(x, node.index as int) ==> pre.at(x).dirty,
            Self::relinked_graph(pre, post, node, new_parent),
            pre.live(i),
        ensures
            post.node_ok(i),
    {
        let r = node.index as int;
        let n = pre.at(i);
        let m = post.at(i);
        let links = pre.links();
        let depth = pre.depth();
        let shift = pre.shift_for(new_parent);
        assert(pre.node_ok(i));
        assert(pre.live(r));
        assert(pre.node_ok(r));
        assert(post.live(i));
        assert(Self::relinked_node(pre, node, new_parent, i, post.at(i)));
        let leaves = pre.node(node).parent == Some(pre.handle_at(i));
        let joins = new_parent == Some(pre.handle_at(i));
        if n.children@.contains(node) {
            let j = choose|j: int| 0 <= j < n.children@.len() && n.children@[j] == node;
            assert(pre.child_ok(i, n.children@[j]));
        }
        Self::lemma_relinked_members(n.children@, m.children@, node, leaves, joins);
        assert forall|k: int| 0 <= k < m.children@.len() implies post.child_ok(
            i,
            #[trigger] m.children@[k],
        ) by {
            let c = m.children@[k];
            assert(m.children@.contains(c));
            if c == node {
                assert(post.live(r));
                assert(Self::relinked_node(pre, node, new_parent, r, post.at(r)));
            } else {
                let j = choose|j: int| 0 <= j < n.children@.len() && n.children@[j] == c;
                assert(pre.child_ok(i, n.children@[j]));
                assert(pre.live(c.index as int));
                assert(post.live(c.index as int));
                assert(Self::relinked_node(pre, node, new_parent, c.index as int, post.at(c.index as int)));
            }
        }
        if i == r {
            match new_parent {
                Some(p) => {
                    let pi = p.index as int;
                    assert(pre.live(pi));
                    assert(post.live(pi));
                    assert(pre.node_ok(pi));
                    assert(Self::relinked_node(pre, node, new_parent, pi, post.at(pi)));
                    if pre.at(pi).children@.contains(node) {
                        let j = choose|j: int|
                            0 <= j < pre.at(pi).children@.len() && pre.at(pi).children@[j] == node;
                        assert(pre.child_ok(pi, pre.at(pi).children@[j]));
                    }
                    Self::lemma_relinked_members(
                        pre.at(pi).children@,
                        post.at(pi).children@,
                        node,
                        pre.node(node).parent == Some(pre.handle_at(pi)),
                        true,
                    );
                    assert(under(links, depth, r, r));
                },
                None => {},
            }
        } else {
            match n.parent {
                Some(q) => {
                    let qi = q.index as int;
                    assert(pre.live(qi));
                    assert(post.live(qi));
                    assert(pre.node_ok(qi));
                    assert(Self::relinked_node(pre, node, new_parent, qi, post.at(qi)));
                    if pre.at(qi).children@.contains(node) {
                        let j = choose|j: int|
                            0 <= j < pre.at(qi).children@.len() && pre.at(qi).children@[j] == node;
                        assert(pre.child_ok(qi, pre.at(qi).children@[j]));
                    }
                    Self::lemma_relinked_members(
                        pre.at(qi).children@,
                        post.at(qi).children@,
                        node,
                        pre.node(node).parent == Some(pre.handle_at(qi)),
                        new_parent == Some(pre.handle_at(qi)),
                    );
                    assert(links[i] == Some(qi));
                    assert(under(links, depth, i, r) == under(links, depth, qi, r));
                },
                None => {},
            }
        }
    }

    /// After `node` has moved, the graph is as the invariant wants it.
    proof fn lemma_relink_wf(
        pre: SceneGraph,
        post: SceneGraph,
        node: TransformNodeHandle,
        new_parent: Option<TransformNodeHandle>,
    )
        requires
            pre.wf(),
            pre.contains(node),
            new_parent is Some ==> pre.contains(new_parent.unwrap()) && !pre.within(
                new_parent.unwrap().index as int,
                node.index as int,
            ),
            forall|x: int| pre.live(x) && pre.within(x, node.index as int) ==> pre.at(x).dirty,
            Self::relinked_graph(pre, post, node, new_parent),
        ensures
            post.wf(),
    {
        assert forall|i: int| #[trigger] post.live(i) implies post.node_ok(i) by {
            Self::lemma_relink_node(pre, post, node, new_parent, i);
        }
    }

    /// Marking the subtree dirty and then moving the node is what `moved`
    /// describes.
    proof fn lemma_moved(
        pre: SceneGraph,
        mid: SceneGraph,
        post: SceneGraph,
        node: TransformNodeHandle,
        new_parent: Option<TransformNodeHandle>,
    )
        requires
            pre.contains(node),
            Self::dirtied(pre, mid, node.index as int),
            Self::relinked_graph(mid, post, node, new_parent),
        ensures
            Self::moved(pre, post, node, new_parent),
    {
        assert(pre.live(node.index as int));
        assert(mid.live(node.index as int));
        assert(same_but_dirty(pre.at(node.index as int), mid.at(node.index as int)));
        assert forall|i: int| pre.live(i) implies {
            &&& pre.at(i).local == (#[trigger] post.at(i)).local
            &&& pre.at(i).world == post.at(i).world
            &&& post.at(i).dirty == (pre.at(i).dirty || pre.within(i, node.index as int))
            &&& post.at(i).parent == (if i == node.index {
                new_parent
            } else {
                pre.at(i).parent
            })
            &&& Self::relinked(
                pre.at(i).children@,
                post.at(i).children@,
                node,
                pre.node(node).parent == Some(pre.handle_at(i)),
                new_parent == Some(pre.handle_at(i)),
            )
        } by {
            assert(mid.live(i));
            assert(same_but_dirty(pre.at(i), mid.at(i)));
            assert(Self::relinked_node(mid, node, new_parent, i, post.at(i)));
        }
    }

    /// What a successful `reparent` does: `node` leaves the children of its
    /// old parent and becomes the last child of `new_parent`, or a root; the
    /// node and all its descendants are dirty afterwards; nothing else
    /// changes.
    pub open spec fn moved(
        pre: SceneGraph,
        post: SceneGraph,
        node: TransformNodeHandle,
        new_parent: Option<TransformNodeHandle>,
    ) -> bool {
        let old_parent = pre.node(node).parent;
        &&& post.store().generations() == pre.store().generations()
        &&& post.store().free_list() == pre.store().free_list()
        &&& post.store().slots().len() == pre.store().slots().len()
        &&& forall|i: int| #[trigger] post.live(i) <==> pre.live(i)
        &&& forall|i: int|
            pre.live(i) ==> {
                &&& pre.at(i).local == (#[trigger] post.at(i)).local
                &&& pre.at(i).world == post.at(i).world
                &&& post.at(i).dirty == (pre.at(i).dirty || pre.within(i, node.index as int))
                &&& post.at(i).parent == (if i == node.index {
                    new_parent
                } else {
                    pre.at(i).parent
                })
                &&& Self::relinked(
                    pre.at(i).children@,
                    post.at(i).children@,
                    node,
                    old_parent == Some(pre.handle_at(i)),
                    new_parent == Some(pre.handle_at(i)),
                )
            }
    }

    /// How a list of children changes when `node` moves: it is taken out
    /// where the list's owner is the old parent, and then appended where the
    /// owner is the new parent.
    pub open spec fn relinked(
        before: Seq<TransformNodeHandle>,
        after: Seq<TransformNodeHandle>,
        node: TransformNodeHandle,
        leaves: bool,
        joins: bool,
    ) -> bool {
        if leaves && joins {
            exists|m: Seq<TransformNodeHandle>| #[trigger] detached(before, node, m) && after == m.push(node)
        } else if leaves {
            detached(before, node, after)
        } else if joins {
            after == before.push(node)
        } else {
            after == before
        }
    }

    /// What `reparent` does. It is refused, and nothing changes, with
    /// `InvalidHandle` where `node` or `new_parent` names nothing, and with
    /// `CycleError` where `new_parent` is `node` or one of its descendants.
    /// Otherwise it succeeds as `moved` says.
    pub open spec fn reparented(
        pre: SceneGraph,
        post: SceneGraph,
        node: TransformNodeHandle,
        new_parent: Option<TransformNodeHandle>,
        r: Result<(), SceneError>,
    ) -> bool {
        if !pre.contains(node) || (new_parent is Some && !pre.contains(new_parent.unwrap())) {
            r == Err::<(), SceneError>(SceneError::InvalidHandle) && post == pre
        } else if new_parent is Some && pre.within(
            new_parent.unwrap().index as int,
            node.index as int,
        ) {
            r == Err::<(), SceneError>(SceneError::CycleError) && post == pre
        } else {
            r == Ok::<(), SceneError>(()) && Self::moved(pre, post, node, new_parent)
        }
    }

    /// Moves `node` under `new_parent`, or makes it a root where
    /// `new_parent` is `None`.
    ///
    /// Everything is checked before anything is changed: a refused call
    /// leaves the graph as it was.
    pub fn reparent(&mut self, node: TransformNodeHandle, new_parent: Option<TransformNodeHandle>) -> (r: Result<
        (),
        SceneError,
    >)
        requires
            old(self).wf(),
        ensures
            final(self).wf(),
            Self::reparented(*old(self), *final(self), node, new_parent, r),
    {
        if self.nodes.resolve(&node.handle()).is_none() {
            return Err(SceneError::InvalidHandle);
        }
        match new_parent {
            Some(p) => {
                if self.nodes.resolve(&p.handle()).is_none() {
                    return Err(SceneError::InvalidHandle);
                }
                if self.is_within(p, node) {
                    return Err(SceneError::CycleError);
                }
            },
            None => {},
        }
        let ghost pre = *self;
        let ghost r = node.index as int;
        self.mark_dirty(node);
        let ghost mid = *self;
        proof {
            assert(mid.links() =~= pre.links());
            assert(mid.live(r));
            assert(mid.node_ok(r));
            assert(pre.live(r));
        }
        let old_parent = self.nodes.get(&node.handle()).parent;
        match old_parent {
            Some(q) => {
                assert(mid.live(q.index as int));
                let qn = self.nodes.get_mut(&q.handle());
                remove_handle(&mut qn.children, node);
            },
            None => {},
        }
        let ghost s1 = *self;
        let n = self.nodes.get_mut(&node.handle());
        n.parent = new_parent;
        match new_parent {
            Some(p) => {
                let pn = self.nodes.get_mut(&p.handle());
                pn.children.push(node);
            },
            None => {},
        }
        proof {
            let shift = mid.shift_for(new_parent);
            self.rank@ = Self::shifted(mid.links(), mid.depth(), r, shift);
            self.bound@ = self.bound@ + shift;
            let post = *self;
            assert(Self::relinked_graph(mid, post, node, new_parent)) by {
                assert forall|i: int| mid.live(i) implies Self::relinked_node(
                    mid,
                    node,
                    new_parent,
                    i,
                    #[trigger] post.at(i),
                ) by {
                    if old_parent == Some(mid.handle_at(i)) {
                        assert(detached(mid.at(i).children@, node, s1.at(i).children@));
                    }
                }
            }
            Self::lemma_relink_wf(mid, post, node, new_parent);
            Self::lemma_moved(pre, mid, post, node, new_parent);
        }
        Ok(())
    }
}

} // verus!
