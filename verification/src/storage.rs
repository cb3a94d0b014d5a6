use vstd::prelude::*;
use crate::handle::Handle;

verus! {

/// Generational slot store: an arena whose entries are named by `Handle`s.
///
/// Every slot carries a generation counter that grows by one each time the
/// slot's content is removed, so a handle issued for an earlier content of the
/// slot stops resolving for good.
pub struct ObjectStorage<T> {
    slots: Vec<Option<T>>,
    slot_gen: Vec<u32>,
    free: Vec<usize>,
}

impl<T> ObjectStorage<T> {
    /// The content of every slot, `None` where the slot is empty.
    pub closed spec fn slots(&self) -> Seq<Option<T>> {
        self.slots@
    }

    /// The generation counter of every slot.
    pub closed spec fn generations(&self) -> Seq<u32> {
        self.slot_gen@
    }

    /// The stack of reusable slot indices; its last entry is reused first.
    pub closed spec fn free_list(&self) -> Seq<usize> {
        self.free@
    }

    /// The store's invariant: one generation per slot, and the free list holds,
    /// without repetition, exactly the indices of the empty slots.
    pub open spec fn wf(&self) -> bool {
        &&& self.generations().len() == self.slots().len()
        &&& self.slots().len() <= usize::MAX
        &&& self.free_list().no_duplicates()
        &&& forall|k: int|
            0 <= k < self.free_list().len() ==> {
                &&& (#[trigger] self.free_list()[k]) < self.slots().len()
                &&& self.slots()[self.free_list()[k] as int] is None
            }
        &&& forall|i: int|
            0 <= i < self.slots().len() && (#[trigger] self.slots()[i]) is None
                ==> self.listed_free(i)
    }

    /// Whether the free list holds the index `i`.
    pub open spec fn listed_free(&self, i: int) -> bool {
        exists|k: int| 0 <= k < self.free_list().len() && #[trigger] self.free_list()[k] == i
    }

    /// Whether slot `i` exists and holds a value.
    pub open spec fn occupied(&self, i: int) -> bool {
        0 <= i < self.slots().len() && self.slots()[i] is Some
    }

    /// Whether `h` names a value of this store: its index is in range, the
    /// slot holds a value, and the slot's generation is the handle's.
    pub open spec fn resolves(&self, h: Handle) -> bool {
        &&& self.occupied(h.index as int)
        &&& h.index < self.generations().len()
        &&& self.generations()[h.index as int] == h.generation
    }

    /// The value that `h` names; meaningful where `resolves(h)` holds.
    pub open spec fn value(&self, h: Handle) -> T {
        self.slots()[h.index as int].unwrap()
    }

    /// Whether removing through `h` can bump the slot's generation without
    /// leaving the range of the counter.
    pub open spec fn can_retire(&self, h: Handle) -> bool {
        self.resolves(h) ==> h.generation < u32::MAX
    }

    /// Whether the generation of the slot that `h` points at has moved past
    /// the generation of `h`: the value that `h` once named has been removed.
    pub open spec fn expired(&self, h: Handle) -> bool {
        h.index < self.generations().len() && self.generations()[h.index as int] > h.generation
    }

    /// What `insert` does: `h` names `value` afterwards. With a free slot,
    /// the one on top of the free list is filled and keeps its generation;
    /// without one, a new slot of generation 0 is appended.
    pub open spec fn inserted(pre: Self, post: Self, value: T, h: Handle) -> bool {
        &&& post.resolves(h)
        &&& post.value(h) == value
        &&& if pre.free_list().len() > 0 {
            &&& h.index == pre.free_list().last()
            &&& h.generation == pre.generations()[h.index as int]
            &&& post.free_list() == pre.free_list().drop_last()
            &&& post.slots() == pre.slots().update(h.index as int, Some(value))
            &&& post.generations() == pre.generations()
        } else {
            &&& h.index == pre.slots().len()
            &&& h.generation == 0
            &&& post.free_list() == pre.free_list()
            &&& post.slots() == pre.slots().push(Some(value))
            &&& post.slots().len() <= usize::MAX
            &&& post.generations() == pre.generations().push(0u32)
        }
    }

    /// What `remove` does. Where `h` names a value, the value is handed out,
    /// the slot is emptied, its generation grows by one and its index goes
    /// on top of the free list. Where it names nothing, nothing changes and
    /// nothing is handed out.
    pub open spec fn removed(pre: Self, post: Self, h: Handle, r: Option<T>) -> bool {
        if pre.resolves(h) {
            &&& r == Some(pre.value(h))
            &&& post.slots() == pre.slots().update(h.index as int, None)
            &&& post.generations() == pre.generations().update(
                h.index as int,
                (h.generation + 1) as u32,
            )
            &&& post.free_list() == pre.free_list().push(h.index)
        } else {
            &&& r is None
            &&& post.slots() == pre.slots()
            &&& post.generations() == pre.generations()
            &&& post.free_list() == pre.free_list()
        }
    }

    /// Slot reuse: a value inserted right after a removal takes the slot
    /// that was freed, at a generation exactly one above that of the removed
    /// handle, and the removed handle names nothing any more.
    pub proof fn lemma_slot_reuse(
        s0: Self,
        s1: Self,
        s2: Self,
        s3: Self,
        first: T,
        second: T,
        h1: Handle,
        out: Option<T>,
        h2: Handle,
    )
        requires
            s0.wf(),
            Self::inserted(s0, s1, first, h1),
            s1.can_retire(h1),
            Self::removed(s1, s2, h1, out),
            Self::inserted(s2, s3, second, h2),
        ensures
            out == Some(first),
            h2.index == h1.index,
            h2.generation == h1.generation + 1,
            s3.resolves(h2),
            !s3.resolves(h1),
    {
    }

    /// A handle keeps naming its value while other values come and go: an
    /// insertion, or the removal through any other handle, leaves it alone.
    pub proof fn lemma_handle_survives(pre: Self, post: Self, g: Handle, value: T, h: Handle, out: Option<T>)
        requires
            pre.wf(),
            pre.resolves(g),
            Self::inserted(pre, post, value, h) || (h != g && Self::removed(pre, post, h, out)),
        ensures
            post.resolves(g),
            post.value(g) == pre.value(g),
    {
        if Self::inserted(pre, post, value, h) {
            if pre.free_list().len() > 0 {
                let k = pre.free_list().len() - 1;
                assert(pre.slots()[pre.free_list()[k] as int] is None);
            }
        }
    }

    /// The first removal through a handle makes it expire.
    pub proof fn lemma_removal_expires(pre: Self, post: Self, h: Handle, out: Option<T>)
        requires
            pre.wf(),
            pre.resolves(h),
            pre.can_retire(h),
            Self::removed(pre, post, h, out),
        ensures
            post.expired(h),
    {
    }

    /// What writing through `resolve_mut` or `get_mut` does: at most the
    /// content of the one occupied slot `i` changes.
    pub open spec fn written(pre: Self, post: Self, i: int) -> bool {
        &&& pre.occupied(i)
        &&& post.occupied(i)
        &&& post.slots() == pre.slots().update(i, post.slots()[i])
        &&& post.generations() == pre.generations()
        &&& post.free_list() == pre.free_list()
    }

    /// Writing to a value keeps the store well formed and changes nothing
    /// about which handles name a value.
    pub proof fn lemma_write_keeps_handles(pre: Self, post: Self, i: int, g: Handle)
        requires
            pre.wf(),
            Self::written(pre, post, i),
        ensures
            post.wf(),
            post.resolves(g) == pre.resolves(g),
            post.expired(g) == pre.expired(g),
            pre.resolves(g) && g.index != i ==> post.value(g) == pre.value(g),
    {
        assert forall|j: int|
            0 <= j < post.slots().len() && (#[trigger] post.slots()[j]) is None
        implies post.listed_free(j) by {
            assert(pre.slots()[j] is None);
            assert(pre.listed_free(j));
        }
    }

    /// An expired handle stays expired whatever is inserted or removed, and
    /// an expired handle names nothing: a removed value's handle fails for
    /// good.
    pub proof fn lemma_expired_for_good(pre: Self, post: Self, g: Handle, value: T, h: Handle, out: Option<T>)
        requires
            pre.wf(),
            pre.expired(g),
            pre.can_retire(h),
            Self::inserted(pre, post, value, h) || Self::removed(pre, post, h, out),
        ensures
            !pre.resolves(g),
            post.expired(g),
            !post.resolves(g),
    {
    }

    /// An empty store.
    pub fn new() -> (s: Self)
        ensures
            s.wf(),
            s.slots().len() == 0,
            s.generations().len() == 0,
            s.free_list().len() == 0,
    {
        ObjectStorage { slots: Vec::new(), slot_gen: Vec::new(), free: Vec::new() }
    }

    /// Stores `value` and returns the handle that names it.
    ///
    /// The slot on top of the free list is reused, at the generation it
    /// already has; only when no slot is free does the store grow by a new
    /// slot of generation 0.
    pub fn insert(&mut self, value: T) -> (h: Handle)
        requires
            old(self).wf(),
        ensures
            final(self).wf(),
            Self::inserted(*old(self), *final(self), value, h),
    {
        match self.free.pop() {
            Some(index) => {
                proof {
                    let fl = old(self).free_list();
                    assert(fl[fl.len() - 1] == index);
                }
                self.slots[index] = Some(value);
                let h = Handle { index, generation: self.slot_gen[index] };
                proof {
                    let fl = old(self).free_list();
                    assert forall|i: int|
                        0 <= i < self.slots().len() && (#[trigger] self.slots()[i]) is None
                    implies self.listed_free(i) by {
                        assert(old(self).slots()[i] is None);
                        assert(old(self).listed_free(i));
                        let k = choose|k: int| 0 <= k < fl.len() && #[trigger] fl[k] == i;
                        assert(self.free_list()[k] == i);
                    }
                }
                h
            },
            None => {
                let index = self.slots.len();
                self.slots.push(Some(value));
                self.slot_gen.push(0);
                assert(self.slots@.len() == self.slots.len());
                Handle { index, generation: 0 }
            },
        }
    }

    /// Takes out the value that `h` names.
    ///
    /// Where `h` resolves, the value leaves the store, the slot's generation
    /// grows by one and the slot's index goes on top of the free list. Where
    /// it does not, nothing changes.
    pub fn remove(&mut self, h: Handle) -> (r: Option<T>)
        requires
            old(self).wf(),
            old(self).can_retire(h),
        ensures
            final(self).wf(),
            Self::removed(*old(self), *final(self), h, r),
    {
        if h.index >= self.slot_gen.len() || self.slot_gen[h.index] != h.generation {
            return None;
        }
        if self.slots[h.index].is_none() {
            return None;
        }
        let value = self.slots[h.index].take();
        self.slot_gen[h.index] = h.generation + 1;
        self.free.push(h.index);
        proof {
            let fl = old(self).free_list();
            assert forall|k: int| 0 <= k < fl.len() implies #[trigger] fl[k] != h.index by {
                assert(old(self).slots()[fl[k] as int] is None);
            }
            assert forall|i: int|
                0 <= i < self.slots().len() && (#[trigger] self.slots()[i]) is None
            implies self.listed_free(i) by {
                if i == h.index {
                    assert(self.free_list()[fl.len() as int] == i);
                } else {
                    assert(old(self).slots()[i] is None);
                    assert(old(self).listed_free(i));
                    let k = choose|k: int| 0 <= k < fl.len() && #[trigger] fl[k] == i;
                    assert(self.free_list()[k] == i);
                }
            }
        }
        value
    }

    /// Looks up the value that `h` names, if it names one.
    pub fn resolve(&self, h: &Handle) -> (r: Option<&T>)
        requires
            self.wf(),
        ensures
            r is Some <==> self.resolves(*h),
            r is Some ==> *r.unwrap() == self.value(*h),
    {
        if h.index < self.slot_gen.len() && self.slot_gen[h.index] == h.generation {
            self.slots[h.index].as_ref()
        } else {
            None
        }
    }

    /// Looks up the value that `h` names for writing, if it names one.
    ///
    /// Whatever the caller writes through the reference becomes the slot's
    /// content; nothing else in the store changes.
    pub fn resolve_mut(&mut self, h: &Handle) -> (r: Option<&mut T>)
        requires
            old(self).wf(),
        ensures
            r is Some <==> old(self).resolves(*h),
            r is Some ==> *r.unwrap() == old(self).value(*h),
            r is Some ==> final(self).slots() == old(self).slots().update(
                h.index as int,
                Some(*final(r.unwrap())),
            ),
            r is Some ==> Self::written(*old(self), *final(self), h.index as int),
            r is None ==> final(self).slots() == old(self).slots(),
            final(self).generations() == old(self).generations(),
            final(self).free_list() == old(self).free_list(),
    {
        if h.index < self.slot_gen.len() && self.slot_gen[h.index] == h.generation {
            self.slots[h.index].as_mut()
        } else {
            None
        }
    }
    /// Borrows the value that `h` names.
    pub fn get(&self, h: &Handle) -> (r: &T)
        requires
            self.wf(),
            self.resolves(*h),
        ensures
            *r == self.value(*h),
    {
        self.slots[h.index].as_ref().unwrap()
    }

    /// Borrows the value that `h` names for writing. What the caller writes
    /// becomes the slot's content; nothing else in the store changes.
    pub fn get_mut(&mut self, h: &Handle) -> (r: &mut T)
        requires
            old(self).wf(),
            old(self).resolves(*h),
        ensures
            *r == old(self).value(*h),
            final(self).slots() == old(self).slots().update(h.index as int, Some(*final(r))),
            final(self).generations() == old(self).generations(),
            final(self).free_list() == old(self).free_list(),
    {
        self.slots[h.index].as_mut().unwrap()
    }
    /// The number of slots, empty ones included.
    pub fn slot_count(&self) -> (n: usize)
        requires
            self.wf(),
        ensures
            n == self.slots().len(),
    {
        self.slots.len()
    }

    /// The handle that names the content of slot `i`, if the slot holds a
    /// value.
    pub fn handle_at(&self, i: usize) -> (r: Option<Handle>)
        requires
            self.wf(),
        ensures
            r is Some <==> self.occupied(i as int),
            r is Some ==> r.unwrap().index == i && self.resolves(r.unwrap()),
    {
        if i < self.slots.len() && self.slots[i].is_some() {
            Some(Handle { index: i, generation: self.slot_gen[i] })
        } else {
            None
        }
    }
}

} // verus!
