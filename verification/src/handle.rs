use vstd::prelude::*;

verus! {

/// Names one entry of an `ObjectStorage` without owning it.
///
/// Two handles are equal exactly when both their index and their generation
/// are equal. A handle is only ever resolved through the store that issued it.
#[derive(Copy, Clone, Debug, PartialEq, Eq, Structural)]
pub struct Handle {
    /// Position of the slot in its store.
    pub index: usize,
    /// Generation that the slot had when the handle was issued.
    pub generation: u32,
}

impl Handle {
    /// Builds the handle with the given index and generation.
    pub fn new(index: usize, generation: u32) -> (h: Handle)
        ensures
            h.index == index,
            h.generation == generation,
    {
        Handle { index, generation }
    }
}

/// Names a transform node of a scene graph.
///
/// It carries the same index and generation as the plain handle of the
/// store that issued it; the type keeps handles of one kind from being
/// passed where another kind is meant.
#[derive(Copy, Clone, Debug, PartialEq, Eq, Structural)]
pub struct TransformNodeHandle {
    pub index: usize,
    pub generation: u32,
}

impl TransformNodeHandle {
    /// The plain handle with the same index and generation.
    pub open spec fn raw(&self) -> Handle {
        Handle { index: self.index, generation: self.generation }
    }

    /// Builds the handle of a transform node with the given index and generation.
    pub fn new(index: usize, generation: u32) -> (h: TransformNodeHandle)
        ensures
            h.index == index,
            h.generation == generation,
    {
        TransformNodeHandle { index, generation }
    }

    /// Gives the plain handle `h` its kind.
    pub fn of(h: Handle) -> (t: TransformNodeHandle)
        ensures
            t.raw() == h,
    {
        TransformNodeHandle { index: h.index, generation: h.generation }
    }

    /// The plain handle with the same index and generation, as the stores
    /// take it.
    pub fn handle(&self) -> (h: Handle)
        ensures
            h == self.raw(),
    {
        Handle { index: self.index, generation: self.generation }
    }
}

/// Names a mesh object of a scene.
///
/// It carries the same index and generation as the plain handle of the
/// store that issued it; the type keeps handles of one kind from being
/// passed where another kind is meant.
#[derive(Copy, Clone, Debug, PartialEq, Eq, Structural)]
pub struct MeshObjectHandle {
    pub index: usize,
    pub generation: u32,
}

impl MeshObjectHandle {
    /// The plain handle with the same index and generation.
    pub open spec fn raw(&self) -> Handle {
        Handle { index: self.index, generation: self.generation }
    }

    /// Builds the handle of a mesh object with the given index and generation.
    pub fn new(index: usize, generation: u32) -> (h: MeshObjectHandle)
        ensures
            h.index == index,
            h.generation == generation,
    {
        MeshObjectHandle { index, generation }
    }

    /// Gives the plain handle `h` its kind.
    pub fn of(h: Handle) -> (t: MeshObjectHandle)
        ensures
            t.raw() == h,
    {
        MeshObjectHandle { index: h.index, generation: h.generation }
    }

    /// The plain handle with the same index and generation, as the stores
    /// take it.
    pub fn handle(&self) -> (h: Handle)
        ensures
            h == self.raw(),
    {
        Handle { index: self.index, generation: self.generation }
    }
}

/// Names a camera of a scene.
///
/// It carries the same index and generation as the plain handle of the
/// store that issued it; the type keeps handles of one kind from being
/// passed where another kind is meant.
#[derive(Copy, Clone, Debug, PartialEq, Eq, Structural)]
pub struct CameraHandle {
    pub index: usize,
    pub generation: u32,
}

impl CameraHandle {
    /// The plain handle with the same index and generation.
    pub open spec fn raw(&self) -> Handle {
        Handle { index: self.index, generation: self.generation }
    }

    /// Builds the handle of a camera with the given index and generation.
    pub fn new(index: usize, generation: u32) -> (h: CameraHandle)
        ensures
            h.index == index,
            h.generation == generation,
    {
        CameraHandle { index, generation }
    }

    /// Gives the plain handle `h` its kind.
    pub fn of(h: Handle) -> (t: CameraHandle)
        ensures
            t.raw() == h,
    {
        CameraHandle { index: h.index, generation: h.generation }
    }

    /// The plain handle with the same index and generation, as the stores
    /// take it.
    pub fn handle(&self) -> (h: Handle)
        ensures
            h == self.raw(),
    {
        Handle { index: self.index, generation: self.generation }
    }
}

/// Names a mesh of a scene.
///
/// It carries the same index and generation as the plain handle of the
/// store that issued it; the type keeps handles of one kind from being
/// passed where another kind is meant.
#[derive(Copy, Clone, Debug, PartialEq, Eq, Structural)]
pub struct MeshHandle {
    pub index: usize,
    pub generation: u32,
}

impl MeshHandle {
    /// The plain handle with the same index and generation.
    pub open spec fn raw(&self) -> Handle {
        Handle { index: self.index, generation: self.generation }
    }

    /// Builds the handle of a mesh with the given index and generation.
    pub fn new(index: usize, generation: u32) -> (h: MeshHandle)
        ensures
            h.index == index,
            h.generation == generation,
    {
        MeshHandle { index, generation }
    }

    /// Gives the plain handle `h` its kind.
    pub fn of(h: Handle) -> (t: MeshHandle)
        ensures
            t.raw() == h,
    {
        MeshHandle { index: h.index, generation: h.generation }
    }

    /// The plain handle with the same index and generation, as the stores
    /// take it.
    pub fn handle(&self) -> (h: Handle)
        ensures
            h == self.raw(),
    {
        Handle { index: self.index, generation: self.generation }
    }
}

} // verus!
