use vstd::prelude::*;
use glam::{Mat4, Vec3};
use crate::entity::{Camera, Mesh, MeshObject};
use crate::error::SceneError;
use crate::graph::SceneGraph;
use crate::handle::{CameraHandle, Handle, MeshHandle, MeshObjectHandle, TransformNodeHandle};
use crate::math::{is_mat4_zero, is_vec3_one, is_vec3_zero};
use crate::storage::ObjectStorage;
use crate::transform::LocalOp;

verus! {

/// A scene: the transform hierarchy, and beside it the stores of the mesh
/// objects, the cameras and the meshes. Every mesh object and every camera
/// is created together with a transform node of its own and deleted together
/// with it. A scene is created with one camera, which is the active one
/// until another is made active; the active camera cannot be deleted.
pub struct Scene {
    graph: SceneGraph,
    objects: ObjectStorage<MeshObject>,
    cameras: ObjectStorage<Camera>,
    meshes: ObjectStorage<Mesh>,
    active_camera: CameraHandle,
}

impl Scene {
    /// The transform hierarchy.
    pub closed spec fn graph(&self) -> SceneGraph {
        self.graph
    }

    /// The store of the mesh objects.
    pub closed spec fn objects(&self) -> ObjectStorage<MeshObject> {
        self.objects
    }

    /// The store of the cameras.
    pub closed spec fn cameras(&self) -> ObjectStorage<Camera> {
        self.cameras
    }

    /// The store of the meshes.
    pub closed spec fn meshes(&self) -> ObjectStorage<Mesh> {
        self.meshes
    }

    /// The camera in use.
    pub closed spec fn active(&self) -> CameraHandle {
        self.active_camera
    }

    /// The transform node of the mesh object in slot `i`.
    pub open spec fn object_node(&self, i: int) -> TransformNodeHandle {
        self.objects().slots()[i].unwrap().transform_node_handle
    }

    /// The transform node of the camera in slot `i`.
    pub open spec fn camera_node(&self, i: int) -> TransformNodeHandle {
        self.cameras().slots()[i].unwrap().transform_node_handle
    }

    /// Every mesh object and every camera has a transform node of its own:
    /// the node exists, and no two entities share one.
    pub open spec fn owns_nodes(&self) -> bool {
        &&& forall|i: int| #[trigger]
            self.objects().occupied(i) ==> self.graph().contains(self.object_node(i))
        &&& forall|i: int| #[trigger]
            self.cameras().occupied(i) ==> self.graph().contains(self.camera_node(i))
        &&& forall|i: int, j: int|
            #![trigger self.object_node(i), self.object_node(j)]
            self.objects().occupied(i) && self.objects().occupied(j) && i != j
                ==> self.object_node(i) != self.object_node(j)
        &&& forall|i: int, j: int|
            #![trigger self.camera_node(i), self.camera_node(j)]
            self.cameras().occupied(i) && self.cameras().occupied(j) && i != j
                ==> self.camera_node(i) != self.camera_node(j)
        &&& forall|i: int, j: int|
            #![trigger self.object_node(i), self.camera_node(j)]
            self.objects().occupied(i) && self.cameras().occupied(j) ==> self.object_node(i)
                != self.camera_node(j)
    }

    /// The scene's invariant: hierarchy and stores are well formed, every
    /// entity owns its transform node, and the active camera exists: a scene
    /// is never without a camera.
    pub open spec fn wf(&self) -> bool {
        &&& self.graph().wf()
        &&& self.objects().wf()
        &&& self.cameras().wf()
        &&& self.meshes().wf()
        &&& self.owns_nodes()
        &&& self.cameras().resolves(self.active().raw())
    }

    /// Whether the hierarchy `post` has the nodes of `pre`, under the same
    /// handles, and possibly more.
    pub open spec fn keeps_nodes(pre: SceneGraph, post: SceneGraph) -> bool {
        forall|g: TransformNodeHandle| #[trigger] pre.contains(g) ==> post.contains(g)
    }

    /// Whether the scene differs from `pre` at most in its hierarchy.
    pub open spec fn same_entities(&self, pre: Scene) -> bool {
        &&& self.objects() == pre.objects()
        &&& self.cameras() == pre.cameras()
        &&& self.meshes() == pre.meshes()
        &&& self.active() == pre.active()
    }

    /// Whether the object `h` and its transform node can be deleted without
    /// a generation counter leaving its range.
    pub open spec fn object_retirable(&self, h: Handle) -> bool {
        &&& self.objects().can_retire(h)
        &&& self.objects().resolves(h) ==> self.graph().store().can_retire(
            self.objects().value(h).transform_node_handle.raw(),
        )
    }

    /// Whether the camera `h` and its transform node can be deleted without
    /// a generation counter leaving its range.
    pub open spec fn camera_retirable(&self, h: Handle) -> bool {
        &&& self.cameras().can_retire(h)
        &&& self.cameras().resolves(h) ==> self.graph().store().can_retire(
            self.cameras().value(h).transform_node_handle.raw(),
        )
    }

    /// Adding an entity with a fresh transform node keeps every entity the
    /// owner of its node.
    proof fn lemma_owns_after_creation(pre: Scene, post: Scene, node: TransformNodeHandle, to_objects: bool)
        requires
            pre.wf(),
            post.graph().wf(),
            post.objects().wf(),
            post.cameras().wf(),
            !pre.graph().live(node.index as int),
            post.graph().contains(node),
            Self::keeps_nodes(pre.graph(), post.graph()),
            to_objects ==> post.cameras() == pre.cameras() && exists|h: Handle|
                #[trigger] ObjectStorage::inserted(
                    pre.objects(),
                    post.objects(),
                    post.objects().value(h),
                    h,
                ) && post.objects().value(h).transform_node_handle == node,
            !to_objects ==> post.objects() == pre.objects() && exists|h: Handle|
                #[trigger] ObjectStorage::inserted(
                    pre.cameras(),
                    post.cameras(),
                    post.cameras().value(h),
                    h,
                ) && post.cameras().value(h).transform_node_handle == node,
        ensures
            post.owns_nodes(),
    {
        if to_objects {
            let h = choose|h: Handle|
                #[trigger] ObjectStorage::inserted(
                    pre.objects(),
                    post.objects(),
                    post.objects().value(h),
                    h,
                ) && post.objects().value(h).transform_node_handle == node;
            assert forall|i: int| post.objects().occupied(i) && i != h.index implies pre.objects().occupied(
                i,
            ) && post.object_node(i) == pre.object_node(i) && pre.graph().contains(
                #[trigger] post.object_node(i),
            ) by {
                assert(pre.objects().occupied(i));
                assert(pre.graph().contains(pre.object_node(i)));
            }
            assert forall|i: int| #[trigger] post.cameras().occupied(i) implies post.graph().contains(
                post.camera_node(i),
            ) by {
                assert(pre.graph().contains(pre.camera_node(i)));
            }
        } else {
            let h = choose|h: Handle|
                #[trigger] ObjectStorage::inserted(
                    pre.cameras(),
                    post.cameras(),
                    post.cameras().value(h),
                    h,
                ) && post.cameras().value(h).transform_node_handle == node;
            assert forall|i: int| post.cameras().occupied(i) && i != h.index implies pre.cameras().occupied(
                i,
            ) && post.camera_node(i) == pre.camera_node(i) && pre.graph().contains(
                #[trigger] post.camera_node(i),
            ) by {
                assert(pre.cameras().occupied(i));
                assert(pre.graph().contains(pre.camera_node(i)));
            }
            assert forall|i: int| #[trigger] post.objects().occupied(i) implies post.graph().contains(
                post.object_node(i),
            ) by {
                assert(pre.graph().contains(pre.object_node(i)));
            }
        }
    }

    /// Deleting an entity together with its transform node keeps every
    /// other entity the owner of its node.
    proof fn lemma_owns_after_deletion(pre: Scene, post: Scene, h: Handle, node: TransformNodeHandle, from_objects: bool)
        requires
            pre.wf(),
            post.graph().wf(),
            post.objects().wf(),
            post.cameras().wf(),
            pre.graph().store().can_retire(node.raw()),
            SceneGraph::node_removed(pre.graph(), post.graph(), node, Ok(())),
            from_objects ==> post.cameras() == pre.cameras() && pre.objects().resolves(h)
                && pre.objects().can_retire(h) && pre.objects().value(h).transform_node_handle
                == node && ObjectStorage::removed(
                pre.objects(),
                post.objects(),
                h,
                Some(pre.objects().value(h)),
            ),
            !from_objects ==> post.objects() == pre.objects() && pre.cameras().resolves(h)
                && pre.cameras().can_retire(h) && pre.cameras().value(h).transform_node_handle
                == node && ObjectStorage::removed(
                pre.cameras(),
                post.cameras(),
                h,
                Some(pre.cameras().value(h)),
            ),
        ensures
            post.owns_nodes(),
    {
        assert(pre.graph().contains(node));
        assert forall|g: TransformNodeHandle| pre.graph().contains(g) && g != node implies post.graph().contains(
            g,
        ) by {
            assert(pre.graph().live(g.index as int));
            assert(post.graph().live(g.index as int));
        }
        if from_objects {
            assert(pre.object_node(h.index as int) == node);
            assert forall|i: int| #[trigger] post.objects().occupied(i) implies post.graph().contains(
                post.object_node(i),
            ) by {
                assert(pre.objects().occupied(i));
                assert(pre.object_node(i) != pre.object_node(h.index as int));
            }
            assert forall|i: int| #[trigger] post.cameras().occupied(i) implies post.graph().contains(
                post.camera_node(i),
            ) by {
                assert(pre.object_node(h.index as int) != pre.camera_node(i));
            }
            assert forall|i: int, j: int|
                #![trigger post.object_node(i), post.object_node(j)]
                post.objects().occupied(i) && post.objects().occupied(j) && i != j implies post.object_node(
                i,
            ) != post.object_node(j) by {
                assert(pre.object_node(i) != pre.object_node(j));
            }
            assert forall|i: int, j: int|
                #![trigger post.object_node(i), post.camera_node(j)]
                post.objects().occupied(i) && post.cameras().occupied(j) implies post.object_node(i)
                != post.camera_node(j) by {
                assert(pre.object_node(i) != pre.camera_node(j));
            }
        } else {
            assert(pre.camera_node(h.index as int) == node);
            assert forall|i: int| #[trigger] post.cameras().occupied(i) implies post.graph().contains(
                post.camera_node(i),
            ) by {
                assert(pre.cameras().occupied(i));
                assert(pre.camera_node(i) != pre.camera_node(h.index as int));
            }
            assert forall|i: int| #[trigger] post.objects().occupied(i) implies post.graph().contains(
                post.object_node(i),
            ) by {
                assert(pre.object_node(i) != pre.camera_node(h.index as int));
            }
            assert forall|i: int, j: int|
                #![trigger post.camera_node(i), post.camera_node(j)]
                post.cameras().occupied(i) && post.cameras().occupied(j) && i != j implies post.camera_node(
                i,
            ) != post.camera_node(j) by {
                assert(pre.camera_node(i) != pre.camera_node(j));
            }
            assert forall|i: int, j: int|
                #![trigger post.object_node(i), post.camera_node(j)]
                post.objects().occupied(i) && post.cameras().occupied(j) implies post.object_node(i)
                != post.camera_node(j) by {
                assert(pre.object_node(i) != pre.camera_node(j));
            }
        }
    }

    /// The node that places the camera which a scene is created with: slot
    /// 0 of the hierarchy at generation 0.
    pub open spec fn first_node() -> TransformNodeHandle {
        TransformNodeHandle { index: 0, generation: 0 }
    }

    /// A scene with one camera and nothing else. The camera has an empty
    /// name, sits in slot 0 of the camera store, is placed by a root node of
    /// its own in slot 0 of the hierarchy, and is the active camera.
    pub fn new() -> (s: Scene)
        ensures
            s.wf(),
            s.active() == (CameraHandle { index: 0, generation: 0 }),
            s.cameras().slots().len() == 1,
            s.cameras().generations() =~= seq![0u32],
            s.cameras().free_list().len() == 0,
            s.cameras().value(s.active().raw()).name@ == Seq::<char>::empty(),
            s.cameras().value(s.active().raw()).transform_node_handle == Self::first_node(),
            s.graph().store().slots().len() == 1,
            s.graph().store().generations() =~= seq![0u32],
            s.graph().store().free_list().len() == 0,
            s.graph().node(Self::first_node()).parent is None,
            s.graph().node(Self::first_node()).children@.len() == 0,
            s.graph().node(Self::first_node()).dirty,
            is_vec3_zero(s.graph().node(Self::first_node()).local.position),
            is_vec3_zero(s.graph().node(Self::first_node()).local.rotation),
            is_vec3_one(s.graph().node(Self::first_node()).local.scale),
            is_mat4_zero(s.graph().node(Self::first_node()).world),
            s.objects().slots().len() == 0,
            s.objects().free_list().len() == 0,
            s.meshes().slots().len() == 0,
            s.meshes().free_list().len() == 0,
    {
        let mut graph = SceneGraph::new();
        let (node, _report) = graph.create_node(None);
        let mut cameras: ObjectStorage<Camera> = ObjectStorage::new();
        let active = cameras.insert(Camera { name: String::new(), transform_node_handle: node });
        let s = Scene {
            graph,
            objects: ObjectStorage::new(),
            cameras,
            meshes: ObjectStorage::new(),
            active_camera: CameraHandle::of(active),
        };
        proof {
            assert(s.cameras().occupied(0));
            assert(s.camera_node(0) == node);
            assert forall|i: int| #[trigger] s.cameras().occupied(i) implies s.graph().contains(
                s.camera_node(i),
            ) by {
                assert(i == 0);
            }
        }
        s
    }

    /// The transform hierarchy, for reading.
    pub fn nodes(&self) -> (g: &SceneGraph)
        ensures
            *g == self.graph(),
    {
        &self.graph
    }

    /// The camera in use.
    pub fn active_camera(&self) -> (r: CameraHandle)
        ensures
            r == self.active(),
    {
        self.active_camera
    }

    /// Borrows the mesh object that `h` names, if it names one.
    pub fn object(&self, h: MeshObjectHandle) -> (r: Option<&MeshObject>)
        requires
            self.wf(),
        ensures
            r is Some <==> self.objects().resolves(h.raw()),
            r is Some ==> *r.unwrap() == self.objects().value(h.raw()),
    {
        let h = h.handle();
        self.objects.resolve(&h)
    }

    /// Borrows the camera that `h` names, if it names one.
    pub fn camera(&self, h: CameraHandle) -> (r: Option<&Camera>)
        requires
            self.wf(),
        ensures
            r is Some <==> self.cameras().resolves(h.raw()),
            r is Some ==> *r.unwrap() == self.cameras().value(h.raw()),
    {
        let h = h.handle();
        self.cameras.resolve(&h)
    }

    /// Borrows the mesh that `h` names, if it names one.
    pub fn mesh(&self, h: MeshHandle) -> (r: Option<&Mesh>)
        requires
            self.wf(),
        ensures
            r is Some <==> self.meshes().resolves(h.raw()),
            r is Some ==> *r.unwrap() == self.meshes().value(h.raw()),
    {
        let h = h.handle();
        self.meshes.resolve(&h)
    }

    /// The name of the mesh object `h`; `InvalidHandle` where `h` names
    /// nothing.
    pub fn get_name(&self, h: MeshObjectHandle) -> (r: Result<&String, SceneError>)
        requires
            self.wf(),
        ensures
            self.objects().resolves(h.raw()) ==> r is Ok && *r.unwrap() == self.objects().value(h.raw()).name,
            !self.objects().resolves(h.raw()) ==> r == Err::<&String, SceneError>(
                SceneError::InvalidHandle,
            ),
    {
        let h = h.handle();
        match self.objects.resolve(&h) {
            Some(o) => Ok(&o.name),
            None => Err(SceneError::InvalidHandle),
        }
    }

    /// Creates a mesh object called `name` that shows `mesh`, together with
    /// its transform node under the node `parent`.
    ///
    /// The first component of the result names the object. A `parent` that
    /// names no node does not stop the creation: the object's node becomes a
    /// root, and the second component is `Err(InvalidHandle)`.
    pub fn create_mesh_object(
        &mut self,
        name: String,
        mesh: Option<MeshHandle>,
        parent: Option<TransformNodeHandle>,
    ) -> (r: (MeshObjectHandle, Result<(), SceneError>))
        requires
            old(self).wf(),
        ensures
            final(self).wf(),
            final(self).objects().value(r.0.raw()).name == name,
            final(self).objects().value(r.0.raw()).mesh_handle == mesh,
            ObjectStorage::inserted(
                old(self).objects(),
                final(self).objects(),
                final(self).objects().value(r.0.raw()),
                r.0.raw(),
            ),
            SceneGraph::created(
                old(self).graph(),
                final(self).graph(),
                parent,
                final(self).objects().value(r.0.raw()).transform_node_handle,
                r.1,
            ),
            final(self).cameras() == old(self).cameras(),
            final(self).meshes() == old(self).meshes(),
            final(self).active() == old(self).active(),
    {
        let (node, report) = self.graph.create_node(parent);
        let h = self.objects.insert(MeshObject { name, mesh_handle: mesh, transform_node_handle: node });
        proof {
            assert(ObjectStorage::inserted(
                old(self).objects(),
                self.objects(),
                self.objects().value(h),
                h,
            ));
            Self::lemma_owns_after_creation(*old(self), *self, node, true);
        }
        (MeshObjectHandle::of(h), report)
    }

    /// Creates a mesh object called `name`, without a mesh, whose transform
    /// node is a root.
    pub fn add_object(&mut self, name: String) -> (h: MeshObjectHandle)
        requires
            old(self).wf(),
        ensures
            final(self).wf(),
            final(self).objects().value(h.raw()).name == name,
            final(self).objects().value(h.raw()).mesh_handle is None,
            ObjectStorage::inserted(
                old(self).objects(),
                final(self).objects(),
                final(self).objects().value(h.raw()),
                h.raw(),
            ),
            SceneGraph::created(
                old(self).graph(),
                final(self).graph(),
                None,
                final(self).objects().value(h.raw()).transform_node_handle,
                Ok(()),
            ),
            final(self).cameras() == old(self).cameras(),
            final(self).meshes() == old(self).meshes(),
            final(self).active() == old(self).active(),
    {
        let (h, _report) = self.create_mesh_object(name, None, None);
        h
    }

    /// Whether slot `i` of the object store holds an object called `name`.
    pub open spec fn named_at(&self, i: int, name: Seq<char>) -> bool {
        self.objects().occupied(i) && self.objects().slots()[i].unwrap().name@ == name
    }

    /// The mesh object called `name` that sits in the lowest slot, if any
    /// object has that name.
    pub fn get_object(&self, name: &str) -> (r: Option<MeshObjectHandle>)
        requires
            self.wf(),
        ensures
            match r {
                Some(h) => {
                    &&& self.objects().resolves(h.raw())
                    &&& self.named_at(h.raw().index as int, name@)
                    &&& forall|i: int| 0 <= i < h.raw().index ==> !self.named_at(i, name@)
                },
                None => forall|i: int| !self.named_at(i, name@),
            },
    {
        let wanted = name.to_owned();
        let count = self.objects.slot_count();
        let mut i: usize = 0;
        while i < count
            invariant
                self.wf(),
                count == self.objects().slots().len(),
                wanted@ == name@,
                i <= count,
                forall|j: int| 0 <= j < i ==> !self.named_at(j, name@),
            decreases count - i,
        {
            match self.objects.handle_at(i) {
                Some(h) => {
                    if self.objects.get(&h).name == wanted {
                        return Some(MeshObjectHandle::of(h));
                    }
                },
                None => {},
            }
            i += 1;
        }
        None
    }

    /// What deleting the mesh object `h` does. Where `h` names nothing it
    /// is refused with `InvalidHandle` and nothing changes. Otherwise the
    /// object leaves its store and its transform node leaves the hierarchy.
    pub open spec fn object_deleted(pre: Scene, post: Scene, h: Handle, r: Result<(), SceneError>) -> bool {
        if !pre.objects().resolves(h) {
            r == Err::<(), SceneError>(SceneError::InvalidHandle) && post == pre
        } else {
            let node = pre.objects().value(h).transform_node_handle;
            &&& r == Ok::<(), SceneError>(())
            &&& ObjectStorage::removed(pre.objects(), post.objects(), h, Some(pre.objects().value(h)))
            &&& SceneGraph::node_removed(pre.graph(), post.graph(), node, Ok(()))
            &&& post.cameras() == pre.cameras()
            &&& post.meshes() == pre.meshes()
            &&& post.active() == pre.active()
        }
    }

    /// Deletes the mesh object `h` together with its transform node. The
    /// nodes below that node become roots.
    pub fn delete_object(&mut self, h: MeshObjectHandle) -> (r: Result<(), SceneError>)
        requires
            old(self).wf(),
            old(self).object_retirable(h.raw()),
        ensures
            final(self).wf(),
            Self::object_deleted(*old(self), *final(self), h.raw(), r),
    {
        let h = h.handle();
        if self.objects.resolve(&h).is_none() {
            return Err(SceneError::InvalidHandle);
        }
        assert(old(self).objects().occupied(h.index as int));
        assert(old(self).graph().contains(old(self).object_node(h.index as int)));
        match self.objects.remove(h) {
            Some(o) => {
                let _gone = self.graph.remove_node(o.transform_node_handle);
                proof {
                    Self::lemma_owns_after_deletion(
                        *old(self),
                        *self,
                        h,
                        o.transform_node_handle,
                        true,
                    );
                }
            },
            None => {},
        }
        Ok(())
    }

    /// What changing the local transform of the mesh object `h` does.
    /// Where `h` names nothing it is refused with `InvalidHandle` and nothing
    /// changes. Otherwise it succeeds, as the change `op` with `v` on the
    /// object's transform node.
    pub open spec fn object_moved(
        pre: Scene,
        post: Scene,
        h: Handle,
        op: LocalOp,
        v: Vec3,
        r: Result<(), SceneError>,
    ) -> bool {
        if !pre.objects().resolves(h) {
            r == Err::<(), SceneError>(SceneError::InvalidHandle) && post == pre
        } else {
            &&& r == Ok::<(), SceneError>(())
            &&& SceneGraph::local_changed(
                pre.graph(),
                post.graph(),
                pre.objects().value(h).transform_node_handle,
                op,
                v,
                r,
            )
            &&& post.same_entities(pre)
        }
    }

    /// Changes the local transform of the mesh object `h` as `op` says.
    pub fn transform_object(&mut self, h: MeshObjectHandle, op: LocalOp, v: Vec3) -> (r: Result<
        (),
        SceneError,
    >)
        requires
            old(self).wf(),
        ensures
            final(self).wf(),
            Self::object_moved(*old(self), *final(self), h.raw(), op, v, r),
    {
        let h = h.handle();
        let node = match self.objects.resolve(&h) {
            Some(o) => o.transform_node_handle,
            None => {
                return Err(SceneError::InvalidHandle);
            },
        };
        assert(self.objects().occupied(h.index as int));
        assert(self.graph().contains(self.object_node(h.index as int)));
        self.graph.set_local(node, op, v)
    }

    /// Adds `vector` to the position of the mesh object `h`.
    pub fn translate_object(&mut self, h: MeshObjectHandle, vector: Vec3) -> (r: Result<(), SceneError>)
        requires
            old(self).wf(),
        ensures
            final(self).wf(),
            Self::object_moved(*old(self), *final(self), h.raw(), LocalOp::Translate, vector, r),
    {
        self.transform_object(h, LocalOp::Translate, vector)
    }

    /// Adds `rotation` to the Euler angles of the mesh object `h`.
    pub fn rotate_object(&mut self, h: MeshObjectHandle, rotation: Vec3) -> (r: Result<(), SceneError>)
        requires
            old(self).wf(),
        ensures
            final(self).wf(),
            Self::object_moved(*old(self), *final(self), h.raw(), LocalOp::Rotate, rotation, r),
    {
        self.transform_object(h, LocalOp::Rotate, rotation)
    }

    /// Multiplies the scale of the mesh object `h` component-wise by
    /// `factor`.
    pub fn scale_object(&mut self, h: MeshObjectHandle, factor: Vec3) -> (r: Result<(), SceneError>)
        requires
            old(self).wf(),
        ensures
            final(self).wf(),
            Self::object_moved(*old(self), *final(self), h.raw(), LocalOp::Scale, factor, r),
    {
        self.transform_object(h, LocalOp::Scale, factor)
    }

    /// The world matrix of the mesh object `h`.
    ///
    /// Fails with `InvalidHandle`, changing nothing, where `h` names no
    /// object. Otherwise it is the world matrix of the object's transform
    /// node, read as `SceneGraph::get_world_matrix` reads it.
    pub fn get_object_matrix(&mut self, h: MeshObjectHandle) -> (r: Result<Mat4, SceneError>)
        requires
            old(self).wf(),
        ensures
            final(self).wf(),
            final(self).same_entities(*old(self)),
            !old(self).objects().resolves(h.raw()) ==> r == Err::<Mat4, SceneError>(
                SceneError::InvalidHandle,
            ) && *final(self) == *old(self),
            old(self).objects().resolves(h.raw()) ==> r is Ok && SceneGraph::refreshed(
                old(self).graph(),
                final(self).graph(),
                old(self).objects().value(h.raw()).transform_node_handle.index as int,
                r.unwrap(),
            ),
    {
        let h = h.handle();
        let node = match self.objects.resolve(&h) {
            Some(o) => o.transform_node_handle,
            None => {
                return Err(SceneError::InvalidHandle);
            },
        };
        assert(self.objects().occupied(h.index as int));
        assert(self.graph().contains(self.object_node(h.index as int)));
        self.graph.get_world_matrix(node)
    }

    /// Moves the transform node of the mesh object `h` under the node
    /// `new_parent`, or makes it a root.
    pub fn reparent_object(&mut self, h: MeshObjectHandle, new_parent: Option<TransformNodeHandle>) -> (r: Result<
        (),
        SceneError,
    >)
        requires
            old(self).wf(),
        ensures
            final(self).wf(),
            !old(self).objects().resolves(h.raw()) ==> r == Err::<(), SceneError>(
                SceneError::InvalidHandle,
            ) && *final(self) == *old(self),
            old(self).objects().resolves(h.raw()) ==> final(self).same_entities(*old(self))
                && SceneGraph::reparented(
                old(self).graph(),
                final(self).graph(),
                old(self).objects().value(h.raw()).transform_node_handle,
                new_parent,
                r,
            ),
    {
        let h = h.handle();
        let node = match self.objects.resolve(&h) {
            Some(o) => o.transform_node_handle,
            None => {
                return Err(SceneError::InvalidHandle);
            },
        };
        self.graph.reparent(node, new_parent)
    }

    /// Puts `mesh` into the scene's mesh store and returns its handle.
    pub fn add_mesh(&mut self, mesh: Mesh) -> (h: MeshHandle)
        requires
            old(self).wf(),
        ensures
            final(self).wf(),
            ObjectStorage::inserted(old(self).meshes(), final(self).meshes(), mesh, h.raw()),
            final(self).graph() == old(self).graph(),
            final(self).objects() == old(self).objects(),
            final(self).cameras() == old(self).cameras(),
            final(self).active() == old(self).active(),
    {
        MeshHandle::of(self.meshes.insert(mesh))
    }

    /// Deletes the mesh `h`. Objects that show it keep its handle, which
    /// names nothing afterwards.
    pub fn delete_mesh(&mut self, h: MeshHandle) -> (r: Result<(), SceneError>)
        requires
            old(self).wf(),
            old(self).meshes().can_retire(h.raw()),
        ensures
            final(self).wf(),
            r is Ok <==> old(self).meshes().resolves(h.raw()),
            r is Err ==> r == Err::<(), SceneError>(SceneError::InvalidHandle),
            ObjectStorage::removed(
                old(self).meshes(),
                final(self).meshes(),
                h.raw(),
                if old(self).meshes().resolves(h.raw()) {
                    Some(old(self).meshes().value(h.raw()))
                } else {
                    None
                },
            ),
            final(self).graph() == old(self).graph(),
            final(self).objects() == old(self).objects(),
            final(self).cameras() == old(self).cameras(),
            final(self).active() == old(self).active(),
    {
        let h = h.handle();
        match self.meshes.remove(h) {
            Some(_) => Ok(()),
            None => Err(SceneError::InvalidHandle),
        }
    }

    /// Makes the mesh object `object` show the mesh `mesh`.
    ///
    /// Fails with `InvalidHandle`, changing nothing, where either handle
    /// names nothing. Otherwise only the object's mesh handle changes.
    pub fn apply_mesh_to_object(&mut self, object: MeshObjectHandle, mesh: MeshHandle) -> (r: Result<
        (),
        SceneError,
    >)
        requires
            old(self).wf(),
        ensures
            final(self).wf(),
            final(self).graph() == old(self).graph(),
            final(self).cameras() == old(self).cameras(),
            final(self).meshes() == old(self).meshes(),
            final(self).active() == old(self).active(),
            final(self).objects().generations() == old(self).objects().generations(),
            final(self).objects().free_list() == old(self).objects().free_list(),
            if old(self).objects().resolves(object.raw()) && old(self).meshes().resolves(mesh.raw()) {
                let before = old(self).objects().value(object.raw());
                let after = final(self).objects().value(object.raw());
                &&& r == Ok::<(), SceneError>(())
                &&& final(self).objects().slots() == old(self).objects().slots().update(
                    object.index as int,
                    Some(after),
                )
                &&& after.mesh_handle == Some(mesh)
                &&& after.name == before.name
                &&& after.transform_node_handle == before.transform_node_handle
            } else {
                &&& r == Err::<(), SceneError>(SceneError::InvalidHandle)
                &&& *final(self) == *old(self)
            },
    {
        if self.meshes.resolve(&mesh.handle()).is_none() {
            return Err(SceneError::InvalidHandle);
        }
        if self.objects.resolve(&object.handle()).is_none() {
            return Err(SceneError::InvalidHandle);
        }
        let o = self.objects.get_mut(&object.handle());
        o.set_mesh(mesh);
        proof {
            let pre = *old(self);
            let post = *self;
            assert forall|i: int| post.objects().occupied(i) implies pre.objects().occupied(i)
                && #[trigger] post.object_node(i) == pre.object_node(i) by {}
            assert forall|i: int| #[trigger] post.objects().occupied(i) implies post.graph().contains(
                post.object_node(i),
            ) by {
                assert(post.object_node(i) == pre.object_node(i));
            }
        }
        Ok(())
    }

    /// Creates a camera called `name` together with its transform node, a
    /// root. The active camera stays the one it was.
    pub fn create_camera(&mut self, name: String) -> (h: CameraHandle)
        requires
            old(self).wf(),
        ensures
            final(self).wf(),
            final(self).cameras().value(h.raw()).name == name,
            ObjectStorage::inserted(
                old(self).cameras(),
                final(self).cameras(),
                final(self).cameras().value(h.raw()),
                h.raw(),
            ),
            SceneGraph::created(
                old(self).graph(),
                final(self).graph(),
                None,
                final(self).cameras().value(h.raw()).transform_node_handle,
                Ok(()),
            ),
            final(self).active() == old(self).active(),
            final(self).objects() == old(self).objects(),
            final(self).meshes() == old(self).meshes(),
    {
        let (node, _report) = self.graph.create_node(None);
        let ghost before = self.cameras;
        let h = self.cameras.insert(Camera { name, transform_node_handle: node });
        proof {
            assert(ObjectStorage::inserted(
                old(self).cameras(),
                self.cameras(),
                self.cameras().value(h),
                h,
            ));
            Self::lemma_owns_after_creation(*old(self), *self, node, false);
            ObjectStorage::lemma_handle_survives(
                before,
                self.cameras,
                self.active_camera.raw(),
                self.cameras.value(h),
                h,
                None,
            );
        }
        CameraHandle::of(h)
    }

    /// Makes the camera `h` the active one; `InvalidHandle`, with nothing
    /// changed, where `h` names no camera.
    pub fn set_active_camera(&mut self, h: CameraHandle) -> (r: Result<(), SceneError>)
        requires
            old(self).wf(),
        ensures
            final(self).wf(),
            final(self).graph() == old(self).graph(),
            final(self).objects() == old(self).objects(),
            final(self).cameras() == old(self).cameras(),
            final(self).meshes() == old(self).meshes(),
            old(self).cameras().resolves(h.raw()) ==> r is Ok && final(self).active() == h,
            !old(self).cameras().resolves(h.raw()) ==> r == Err::<(), SceneError>(
                SceneError::InvalidHandle,
            ) && final(self).active() == old(self).active(),
    {
        if self.cameras.resolve(&h.handle()).is_none() {
            return Err(SceneError::InvalidHandle);
        }
        self.active_camera = h;
        Ok(())
    }

    /// What deleting the camera `h` does. It is refused, and nothing
    /// changes, with `InvalidHandle` where `h` names nothing and with
    /// `ActiveCamera` where `h` is the active camera. Otherwise the camera
    /// leaves its store and its transform node leaves the hierarchy.
    pub open spec fn camera_deleted(pre: Scene, post: Scene, h: Handle, r: Result<(), SceneError>) -> bool {
        if !pre.cameras().resolves(h) {
            r == Err::<(), SceneError>(SceneError::InvalidHandle) && post == pre
        } else if pre.active().raw() == h {
            r == Err::<(), SceneError>(SceneError::ActiveCamera) && post == pre
        } else {
            let node = pre.cameras().value(h).transform_node_handle;
            &&& r == Ok::<(), SceneError>(())
            &&& ObjectStorage::removed(pre.cameras(), post.cameras(), h, Some(pre.cameras().value(h)))
            &&& SceneGraph::node_removed(pre.graph(), post.graph(), node, Ok(()))
            &&& post.objects() == pre.objects()
            &&& post.meshes() == pre.meshes()
            &&& post.active() == pre.active()
        }
    }

    /// Deletes the camera `h` together with its transform node. The active
    /// camera cannot be deleted.
    pub fn delete_camera(&mut self, h: CameraHandle) -> (r: Result<(), SceneError>)
        requires
            old(self).wf(),
            old(self).camera_retirable(h.raw()),
        ensures
            final(self).wf(),
            Self::camera_deleted(*old(self), *final(self), h.raw(), r),
    {
        let h = h.handle();
        if self.cameras.resolve(&h).is_none() {
            return Err(SceneError::InvalidHandle);
        }
        if self.active_camera.handle() == h {
            return Err(SceneError::ActiveCamera);
        }
        let ghost before = self.cameras;
        assert(old(self).cameras().occupied(h.index as int));
        assert(old(self).graph().contains(old(self).camera_node(h.index as int)));
        match self.cameras.remove(h) {
            Some(c) => {
                let _gone = self.graph.remove_node(c.transform_node_handle);
                proof {
                    Self::lemma_owns_after_deletion(
                        *old(self),
                        *self,
                        h,
                        c.transform_node_handle,
                        false,
                    );
                }
            },
            None => {},
        }
        proof {
            ObjectStorage::lemma_handle_survives(
                before,
                self.cameras,
                self.active_camera.raw(),
                before.value(h),
                h,
                Some(before.value(h)),
            );
        }
        Ok(())
    }
    /// Changes the local transform of the node `node`, which may belong to
    /// a mesh object or to a camera, as `SceneGraph::set_local` does.
    pub fn set_local(&mut self, node: TransformNodeHandle, op: LocalOp, v: Vec3) -> (r: Result<(), SceneError>)
        requires
            old(self).wf(),
        ensures
            final(self).wf(),
            final(self).same_entities(*old(self)),
            SceneGraph::local_changed(old(self).graph(), final(self).graph(), node, op, v, r),
    {
        self.graph.set_local(node, op, v)
    }

    /// The world matrix of the node `node`, read as
    /// `SceneGraph::get_world_matrix` reads it.
    pub fn get_world_matrix(&mut self, node: TransformNodeHandle) -> (r: Result<Mat4, SceneError>)
        requires
            old(self).wf(),
        ensures
            final(self).wf(),
            final(self).same_entities(*old(self)),
            !old(self).graph().contains(node) ==> r == Err::<Mat4, SceneError>(
                SceneError::InvalidHandle,
            ) && final(self).graph() == old(self).graph(),
            old(self).graph().contains(node) ==> r is Ok && SceneGraph::refreshed(
                old(self).graph(),
                final(self).graph(),
                node.index as int,
                r.unwrap(),
            ),
    {
        self.graph.get_world_matrix(node)
    }

    /// Moves the node `node` under `new_parent`, or makes it a root, as
    /// `SceneGraph::reparent` does.
    pub fn reparent(&mut self, node: TransformNodeHandle, new_parent: Option<TransformNodeHandle>) -> (r: Result<
        (),
        SceneError,
    >)
        requires
            old(self).wf(),
        ensures
            final(self).wf(),
            final(self).same_entities(*old(self)),
            SceneGraph::reparented(old(self).graph(), final(self).graph(), node, new_parent, r),
    {
        self.graph.reparent(node, new_parent)
    }
    /// Whether `g` is the transform node of a mesh object in one of the
    /// first `k` slots of the object store.
    pub open spec fn object_node_below(&self, g: TransformNodeHandle, k: int) -> bool {
        exists|j: int| 0 <= j < k && self.objects().occupied(j) && #[trigger] self.object_node(j) == g
    }

    /// What a store looks like after the values in its first `k` slots have
    /// been removed: those slots are empty, each at a generation one above
    /// the one it had if it held a value, and the other slots are as they
    /// were.
    pub open spec fn emptied<T>(pre: ObjectStorage<T>, post: ObjectStorage<T>, k: int) -> bool {
        &&& post.slots().len() == pre.slots().len()
        &&& post.generations().len() == pre.generations().len()
        &&& forall|j: int| 0 <= j < k ==> !(#[trigger] post.occupied(j))
        &&& forall|j: int|
            k <= j < pre.slots().len() ==> #[trigger] post.slots()[j] == pre.slots()[j]
        &&& forall|j: int|
            0 <= j < pre.generations().len() ==> #[trigger] post.generations()[j] == (if j < k
                && pre.occupied(j) {
                (pre.generations()[j] + 1) as u32
            } else {
                pre.generations()[j]
            })
    }

    /// What the hierarchy looks like after the mesh objects in the first
    /// `k` slots have been deleted: their transform nodes are gone, the
    /// other nodes are there with their local transforms, and a node whose
    /// parent is gone is a root.
    pub open spec fn pruned(pre: Scene, post: SceneGraph, k: int) -> bool {
        &&& forall|g: TransformNodeHandle| #[trigger]
            post.contains(g) <==> pre.graph().contains(g) && !pre.object_node_below(g, k)
        &&& forall|g: TransformNodeHandle|
            post.contains(g) ==> {
                &&& (#[trigger] post.node(g)).local == pre.graph().node(g).local
                &&& post.node(g).parent == (match pre.graph().node(g).parent {
                    Some(p) => if pre.object_node_below(p, k) {
                        None
                    } else {
                        Some(p)
                    },
                    None => None,
                })
            }
    }

    /// Deleting the mesh object in slot `k` takes the clearing of the first
    /// `k` slots to the clearing of the first `k + 1`.
    proof fn lemma_clear_step(pre: Scene, cur: Scene, next: Scene, k: int, h: Handle)
        requires
            pre.wf(),
            cur.wf(),
            0 <= k < pre.objects().slots().len(),
            Self::emptied(pre.objects(), cur.objects(), k),
            Self::pruned(pre, cur.graph(), k),
            h.index == k,
            cur.objects().resolves(h),
            cur.object_retirable(h),
            Self::object_deleted(cur, next, h, Ok(())),
        ensures
            Self::emptied(pre.objects(), next.objects(), k + 1),
            Self::pruned(pre, next.graph(), k + 1),
    {
        let n = cur.objects().value(h).transform_node_handle;
        assert(cur.objects().slots()[k] == pre.objects().slots()[k]);
        assert(cur.objects().generations()[k] == pre.objects().generations()[k]);
        assert(pre.objects().occupied(k));
        assert(pre.object_node(k) == n);
        assert(cur.objects().occupied(k));
        assert(cur.graph().contains(cur.object_node(k)));
        assert(cur.graph().live(n.index as int));
        assert forall|j: int| 0 <= j < k + 1 implies !(#[trigger] next.objects().occupied(j)) by {
            if j < k {
                assert(!cur.objects().occupied(j));
            }
        }
        assert forall|g: TransformNodeHandle| pre.object_node_below(g, k + 1) <==> pre.object_node_below(g, k)
            || g == n by {
            if pre.object_node_below(g, k + 1) {
                let j = choose|j: int|
                    0 <= j < k + 1 && pre.objects().occupied(j) && #[trigger] pre.object_node(j)
                        == g;
                if j < k {
                    assert(pre.object_node_below(g, k));
                }
            }
            if pre.object_node_below(g, k) {
                let j = choose|j: int|
                    0 <= j < k && pre.objects().occupied(j) && #[trigger] pre.object_node(j) == g;
                assert(pre.object_node(j) == g);
            }
            if g == n {
                assert(pre.object_node(k) == g);
            }
        }
        assert forall|g: TransformNodeHandle| #[trigger]
            next.graph().contains(g) <==> cur.graph().contains(g) && g != n by {
            assert(cur.graph().contains(n));
            assert(next.graph().live(g.index as int) <==> cur.graph().live(g.index as int)
                && g.index != n.index);
        }
        assert forall|g: TransformNodeHandle| next.graph().contains(g) implies {
            &&& (#[trigger] next.graph().node(g)).local == pre.graph().node(g).local
            &&& next.graph().node(g).parent == (match pre.graph().node(g).parent {
                Some(p) => if pre.object_node_below(p, k + 1) {
                    None
                } else {
                    Some(p)
                },
                None => None,
            })
        } by {
            assert(cur.graph().contains(g));
            assert(cur.graph().live(g.index as int));
            assert(next.graph().live(g.index as int));
            assert(cur.graph().node(g).local == pre.graph().node(g).local);
            assert(next.graph().at(g.index as int).local == cur.graph().at(g.index as int).local);
        }
    }

    /// Whether `clear` can run: no mesh object, transform node of a mesh
    /// object, or mesh sits in a slot whose generation counter is at its
    /// end.
    pub fn can_clear(&self) -> (b: bool)
        requires
            self.wf(),
        ensures
            b <==> (forall|h: Handle| self.object_retirable(h)) && (forall|h: Handle|
                self.meshes().can_retire(h)),
    {
        let count = self.objects.slot_count();
        let mut i: usize = 0;
        while i < count
            invariant
                self.wf(),
                count == self.objects().slots().len(),
                i <= count,
                forall|j: int|
                    0 <= j < i && #[trigger] self.objects().occupied(j) ==> self.objects().generations()[j]
                        < u32::MAX && self.object_node(j).generation < u32::MAX,
            decreases count - i,
        {
            match self.objects.handle_at(i) {
                Some(h) => {
                    let node = self.objects.get(&h).transform_node_handle;
                    if h.generation == u32::MAX || node.generation == u32::MAX {
                        proof {
                            assert(self.objects().occupied(i as int));
                            assert(self.graph().contains(self.object_node(i as int)));
                            assert(!self.object_retirable(h));
                        }
                        return false;
                    }
                },
                None => {},
            }
            i += 1;
        }
        let total = self.meshes.slot_count();
        let mut k: usize = 0;
        while k < total
            invariant
                self.wf(),
                total == self.meshes().slots().len(),
                k <= total,
                forall|j: int|
                    0 <= j < k && #[trigger] self.meshes().occupied(j) ==> self.meshes().generations()[j]
                        < u32::MAX,
            decreases total - k,
        {
            match self.meshes.handle_at(k) {
                Some(h) => {
                    if h.generation == u32::MAX {
                        proof {
                            assert(!self.meshes().can_retire(h));
                        }
                        return false;
                    }
                },
                None => {},
            }
            k += 1;
        }
        proof {
            assert forall|h: Handle| self.object_retirable(h) by {
                if self.objects().resolves(h) {
                    assert(self.objects().occupied(h.index as int));
                }
            }
            assert forall|h: Handle| self.meshes().can_retire(h) by {
                if self.meshes().resolves(h) {
                    assert(self.meshes().occupied(h.index as int));
                }
            }
        }
        true
    }

    /// Deletes every mesh object, each with its transform node, and every
    /// mesh. The cameras stay; a camera whose node hung below an object's
    /// node is a root afterwards. Handles issued before name nothing
    /// afterwards, now or later.
    pub fn clear(&mut self)
        requires
            old(self).wf(),
            forall|h: Handle| old(self).object_retirable(h),
            forall|h: Handle| old(self).meshes().can_retire(h),
        ensures
            final(self).wf(),
            final(self).cameras() == old(self).cameras(),
            final(self).active() == old(self).active(),
            Self::emptied(
                old(self).objects(),
                final(self).objects(),
                old(self).objects().slots().len() as int,
            ),
            Self::emptied(
                old(self).meshes(),
                final(self).meshes(),
                old(self).meshes().slots().len() as int,
            ),
            Self::pruned(*old(self), final(self).graph(), old(self).objects().slots().len() as int),
    {
        let ghost pre = *self;
        let count = self.objects.slot_count();
        let mut i: usize = 0;
        while i < count
            invariant
                pre.wf(),
                forall|h: Handle| pre.object_retirable(h),
                self.wf(),
                count == pre.objects().slots().len(),
                i <= count,
                self.cameras() == pre.cameras(),
                self.meshes() == pre.meshes(),
                self.active() == pre.active(),
                Self::emptied(pre.objects(), self.objects(), i as int),
                Self::pruned(pre, self.graph(), i as int),
            decreases count - i,
        {
            let ghost cur = *self;
            match self.objects.handle_at(i) {
                Some(h) => {
                    proof {
                        assert(cur.objects().slots()[i as int] == pre.objects().slots()[i as int]);
                        assert(cur.objects().generations()[i as int] == pre.objects().generations()[i as int]);
                        assert(pre.objects().resolves(h));
                        assert(pre.object_retirable(h));
                        assert(pre.objects().occupied(i as int));
                        assert(pre.graph().contains(pre.object_node(i as int)));
                    }
                    let _gone = self.delete_object(MeshObjectHandle::of(h));
                    proof {
                        Self::lemma_clear_step(pre, cur, *self, i as int, h);
                    }
                },
                None => {
                    proof {
                        assert(!pre.objects().occupied(i as int)) by {
                            assert(cur.objects().slots()[i as int] == pre.objects().slots()[i as int]);
                        }
                        assert forall|g: TransformNodeHandle| pre.object_node_below(g, i + 1)
                            <==> pre.object_node_below(g, i as int) by {
                            if pre.object_node_below(g, i + 1) {
                                let j = choose|j: int|
                                    0 <= j < i + 1 && pre.objects().occupied(j)
                                        && #[trigger] pre.object_node(j) == g;
                                assert(pre.object_node(j) == g);
                            }
                            if pre.object_node_below(g, i as int) {
                                let j = choose|j: int|
                                    0 <= j < i && pre.objects().occupied(j)
                                        && #[trigger] pre.object_node(j) == g;
                                assert(pre.object_node(j) == g);
                            }
                        }
                    }
                },
            }
            i += 1;
        }
        let ghost mid = *self;
        let total = self.meshes.slot_count();
        let mut k: usize = 0;
        while k < total
            invariant
                pre.wf(),
                forall|h: Handle| pre.meshes().can_retire(h),
                self.wf(),
                total == pre.meshes().slots().len(),
                k <= total,
                self.graph() == mid.graph(),
                self.objects() == mid.objects(),
                self.cameras() == mid.cameras(),
                self.active() == mid.active(),
                Self::emptied(pre.meshes(), self.meshes(), k as int),
            decreases total - k,
        {
            let ghost cur = *self;
            match self.meshes.handle_at(k) {
                Some(h) => {
                    proof {
                        assert(cur.meshes().slots()[k as int] == pre.meshes().slots()[k as int]);
                        assert(cur.meshes().generations()[k as int] == pre.meshes().generations()[k as int]);
                        assert(pre.meshes().resolves(h));
                        assert(pre.meshes().can_retire(h));
                    }
                    let _gone = self.delete_mesh(MeshHandle::of(h));
                    proof {
                        assert forall|j: int| 0 <= j < k + 1 implies !(#[trigger] self.meshes().occupied(
                            j,
                        )) by {
                            if j < k {
                                assert(!cur.meshes().occupied(j));
                            }
                        }
                    }
                },
                None => {
                    proof {
                        assert(cur.meshes().slots()[k as int] == pre.meshes().slots()[k as int]);
                    }
                },
            }
            k += 1;
        }
    }
}

} // verus!
