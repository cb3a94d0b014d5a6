//! What holds of a slot store over any sequence of calls: a handle stays
//! good until the first removal through it, and bad for ever after.

use vstd::prelude::*;
use crate::handle::Handle;
use crate::storage::ObjectStorage;

verus! {

/// One call that changes a store, with what it was given and what it
/// returned.
pub enum StoreStep<T> {
    /// `insert(value)` returned `handle`.
    Insert { value: T, handle: Handle },
    /// `remove(handle)` returned `out`.
    Remove { handle: Handle, out: Option<T> },
    /// The value that `handle` names was written through `resolve_mut` or
    /// `get_mut`.
    Write { handle: Handle },
}

/// Whether the call `step` takes the store `pre` to the store `post`. A
/// removal counts only while the generation counter of its slot has room to
/// grow.
pub open spec fn stepped<T>(pre: ObjectStorage<T>, post: ObjectStorage<T>, step: StoreStep<T>) -> bool {
    match step {
        StoreStep::Insert { value, handle } => ObjectStorage::inserted(pre, post, value, handle),
        StoreStep::Remove { handle, out } => pre.can_retire(handle) && ObjectStorage::removed(
            pre,
            post,
            handle,
            out,
        ),
        StoreStep::Write { handle } => pre.resolves(handle) && ObjectStorage::written(
            pre,
            post,
            handle.index as int,
        ),
    }
}

/// Whether `states` are the stores that the calls `steps` lead through, one
/// after the other: `states[k]` before the call `steps[k]`, `states[k + 1]`
/// after it.
pub open spec fn is_run<T>(states: Seq<ObjectStorage<T>>, steps: Seq<StoreStep<T>>) -> bool {
    &&& states.len() == steps.len() + 1
    &&& forall|k: int|
        0 <= k < steps.len() ==> stepped(states[k], states[k + 1], #[trigger] steps[k])
}

/// Whether the call `step` goes through the handle `h`: it removes or
/// writes the value that `h` names.
pub open spec fn touches<T>(step: StoreStep<T>, h: Handle) -> bool {
    match step {
        StoreStep::Insert { value, handle } => false,
        StoreStep::Remove { handle, out } => handle == h,
        StoreStep::Write { handle } => handle == h,
    }
}

/// Every call keeps the store well formed.
pub proof fn lemma_step_keeps_wf<T>(pre: ObjectStorage<T>, post: ObjectStorage<T>, step: StoreStep<T>)
    requires
        pre.wf(),
        stepped(pre, post, step),
    ensures
        post.wf(),
{
    let fl = pre.free_list();
    match step {
        StoreStep::Insert { value, handle } => {
            if fl.len() > 0 {
                assert(fl[fl.len() - 1] == handle.index);
                assert forall|k: int| 0 <= k < post.free_list().len() implies {
                    &&& (#[trigger] post.free_list()[k]) < post.slots().len()
                    &&& post.slots()[post.free_list()[k] as int] is None
                } by {
                    assert(post.free_list()[k] == fl[k]);
                    assert(pre.slots()[fl[k] as int] is None);
                }
                assert forall|i: int|
                    0 <= i < post.slots().len() && (#[trigger] post.slots()[i]) is None
                implies post.listed_free(i) by {
                    assert(pre.slots()[i] is None);
                    assert(pre.listed_free(i));
                    let k = choose|k: int| 0 <= k < fl.len() && #[trigger] fl[k] == i;
                    assert(post.free_list()[k] == i);
                }
            } else {
                assert forall|i: int|
                    0 <= i < post.slots().len() && (#[trigger] post.slots()[i]) is None
                implies post.listed_free(i) by {
                    assert(pre.slots()[i] is None);
                    assert(pre.listed_free(i));
                }
            }
        },
        StoreStep::Remove { handle, out } => {
            if pre.resolves(handle) {
                assert forall|k: int| 0 <= k < fl.len() implies #[trigger] fl[k] != handle.index by {
                    assert(pre.slots()[fl[k] as int] is None);
                }
                assert forall|k: int| 0 <= k < post.free_list().len() implies {
                    &&& (#[trigger] post.free_list()[k]) < post.slots().len()
                    &&& post.slots()[post.free_list()[k] as int] is None
                } by {
                    if k < fl.len() {
                        assert(pre.slots()[fl[k] as int] is None);
                    }
                }
                assert forall|i: int|
                    0 <= i < post.slots().len() && (#[trigger] post.slots()[i]) is None
                implies post.listed_free(i) by {
                    if i == handle.index {
                        assert(post.free_list()[fl.len() as int] == i);
                    } else {
                        assert(pre.slots()[i] is None);
                        assert(pre.listed_free(i));
                        let k = choose|k: int| 0 <= k < fl.len() && #[trigger] fl[k] == i;
                        assert(post.free_list()[k] == i);
                    }
                }
            } else {
                assert forall|i: int|
                    0 <= i < post.slots().len() && (#[trigger] post.slots()[i]) is None
                implies post.listed_free(i) by {
                    assert(pre.listed_free(i));
                }
            }
        },
        StoreStep::Write { handle } => {
            ObjectStorage::lemma_write_keeps_handles(pre, post, handle.index as int, handle);
        },
    }
}

/// A run that starts in a well-formed store stays in well-formed stores.
pub proof fn lemma_run_keeps_wf<T>(states: Seq<ObjectStorage<T>>, steps: Seq<StoreStep<T>>, k: int)
    requires
        states[0].wf(),
        is_run(states, steps),
        0 <= k < states.len(),
    ensures
        states[k].wf(),
    decreases k,
{
    if k > 0 {
        lemma_run_keeps_wf(states, steps, k - 1);
        assert(stepped(states[k - 1], states[k - 1 + 1], steps[k - 1]));
        lemma_step_keeps_wf(states[k - 1], states[k], steps[k - 1]);
    }
}

/// An expired handle stays expired over any run, and names nothing at any
/// point of it.
pub proof fn lemma_expired_over_run<T>(
    states: Seq<ObjectStorage<T>>,
    steps: Seq<StoreStep<T>>,
    h: Handle,
    k: int,
)
    requires
        states[0].expired(h),
        is_run(states, steps),
        0 <= k < states.len(),
    ensures
        states[k].expired(h),
        !states[k].resolves(h),
    decreases k,
{
    if k > 0 {
        lemma_expired_over_run(states, steps, h, k - 1);
        assert(stepped(states[k - 1], states[k - 1 + 1], steps[k - 1]));
    }
}

/// Generation isolation, after the removal: once `remove` has handed out
/// the value that `h` named, `h` names nothing, whatever is inserted,
/// removed or written afterwards, and also once its slot holds a new value.
pub proof fn lemma_removed_handle_stays_dead<T>(
    before: ObjectStorage<T>,
    out: Option<T>,
    states: Seq<ObjectStorage<T>>,
    steps: Seq<StoreStep<T>>,
    h: Handle,
    k: int,
)
    requires
        before.wf(),
        before.can_retire(h),
        ObjectStorage::removed(before, states[0], h, out),
        out is Some,
        is_run(states, steps),
        0 <= k < states.len(),
    ensures
        !states[k].resolves(h),
{
    assert(before.resolves(h));
    ObjectStorage::lemma_removal_expires(before, states[0], h, out);
    lemma_expired_over_run(states, steps, h, k);
}

/// A handle that names a value keeps naming that value over any run in
/// which no call removes or writes through it.
pub proof fn lemma_live_over_run<T>(
    states: Seq<ObjectStorage<T>>,
    steps: Seq<StoreStep<T>>,
    h: Handle,
    k: int,
)
    requires
        states[0].wf(),
        states[0].resolves(h),
        is_run(states, steps),
        forall|j: int| 0 <= j < steps.len() ==> !touches(#[trigger] steps[j], h),
        0 <= k < states.len(),
    ensures
        states[k].wf(),
        states[k].resolves(h),
        states[k].value(h) == states[0].value(h),
    decreases k,
{
    if k > 0 {
        lemma_live_over_run(states, steps, h, k - 1);
        let pre = states[k - 1];
        let post = states[k];
        let step = steps[k - 1];
        assert(stepped(states[k - 1], states[k - 1 + 1], steps[k - 1]));
        assert(!touches(step, h));
        lemma_step_keeps_wf(pre, post, step);
        match step {
            StoreStep::Insert { value, handle } => {
                ObjectStorage::lemma_handle_survives(pre, post, h, value, handle, None);
            },
            StoreStep::Remove { handle, out } => {
                ObjectStorage::lemma_handle_survives(pre, post, h, pre.value(h), handle, out);
            },
            StoreStep::Write { handle } => {
                ObjectStorage::lemma_write_keeps_handles(pre, post, handle.index as int, h);
                if handle.index == h.index {
                    assert(handle == h);
                }
            },
        }
    }
}

/// Generation isolation, before the removal: the handle that `insert`
/// returned for `value` names `value` after any run in which no call removes
/// or writes through it.
pub proof fn lemma_inserted_handle_stays_good<T>(
    before: ObjectStorage<T>,
    value: T,
    states: Seq<ObjectStorage<T>>,
    steps: Seq<StoreStep<T>>,
    h: Handle,
    k: int,
)
    requires
        before.wf(),
        ObjectStorage::inserted(before, states[0], value, h),
        is_run(states, steps),
        forall|j: int| 0 <= j < steps.len() ==> !touches(#[trigger] steps[j], h),
        0 <= k < states.len(),
    ensures
        states[k].resolves(h),
        states[k].value(h) == value,
{
    lemma_step_keeps_wf(before, states[0], StoreStep::Insert { value, handle: h });
    lemma_live_over_run(states, steps, h, k);
}

} // verus!
