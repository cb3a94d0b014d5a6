use vstd::prelude::*;

verus! {

/// Why an operation on the scene was refused. None of these is fatal: the
/// scene is left as it was.
#[derive(Copy, Clone, Debug, PartialEq, Eq, Structural)]
pub enum SceneError {
    /// The handle names nothing: its index is out of range, its slot is
    /// empty, or its generation is not the slot's.
    InvalidHandle,
    /// The requested parent is the node itself or one of its descendants.
    CycleError,
    /// The camera is the active one and cannot be deleted.
    ActiveCamera,
}

} // verus!
