use vstd::prelude::*;
use glam::Vec3;
use crate::handle::{MeshHandle, TransformNodeHandle};

verus! {

/// A renderable entity: a name, the mesh it shows, if any, and the transform
/// node that places it. The mesh is owned by the scene's mesh store; the
/// entity only holds its handle.
pub struct MeshObject {
    pub name: String,
    pub mesh_handle: Option<MeshHandle>,
    pub transform_node_handle: TransformNodeHandle,
}

impl MeshObject {
    /// An object called `name`, without a mesh, placed by the node `node`.
    pub fn new(name: String, node: TransformNodeHandle) -> (o: MeshObject)
        ensures
            o.name == name,
            o.mesh_handle is None,
            o.transform_node_handle == node,
    {
        MeshObject { name, mesh_handle: None, transform_node_handle: node }
    }

    /// Makes the object show the mesh that `mesh` names.
    pub fn set_mesh(&mut self, mesh: MeshHandle)
        ensures
            final(self).mesh_handle == Some(mesh),
            final(self).name == old(self).name,
            final(self).transform_node_handle == old(self).transform_node_handle,
    {
        self.mesh_handle = Some(mesh);
    }
}

/// A camera: a name and the transform node that places it.
pub struct Camera {
    pub name: String,
    pub transform_node_handle: TransformNodeHandle,
}

impl Camera {
    /// A camera called `name`, placed by the node `node`.
    pub fn new(name: String, node: TransformNodeHandle) -> (c: Camera)
        ensures
            c.name == name,
            c.transform_node_handle == node,
    {
        Camera { name, transform_node_handle: node }
    }
}

/// Geometry of a mesh: its vertices, and its faces as lists of vertex
/// indices, each face with its normal.
pub struct Mesh {
    pub vertices: Vec<Vec3>,
    pub polygons: Vec<Vec<usize>>,
    pub face_normals: Vec<Vec3>,
}

impl Mesh {
    /// The faces, each a list of indices into the vertices.
    pub open spec fn faces(&self) -> Seq<Vec<usize>> {
        self.polygons@
    }

    /// The normal of each face.
    pub open spec fn normals(&self) -> Seq<Vec3> {
        self.face_normals@
    }

    /// The invariant of a mesh: there is one normal per face.
    pub open spec fn wf(&self) -> bool {
        self.normals().len() == self.faces().len()
    }

    /// A mesh without vertices and faces.
    pub fn new() -> (m: Mesh)
        ensures
            m.wf(),
            m.vertices@.len() == 0,
            m.faces().len() == 0,
    {
        Mesh { vertices: Vec::new(), polygons: Vec::new(), face_normals: Vec::new() }
    }

    /// Drops all vertices and faces.
    pub fn clear(&mut self)
        ensures
            final(self).wf(),
            final(self).vertices@.len() == 0,
            final(self).faces().len() == 0,
    {
        self.vertices.clear();
        self.polygons.clear();
        self.face_normals.clear();
    }

    /// Appends a vertex.
    pub fn add_vertex(&mut self, v: Vec3)
        requires
            old(self).wf(),
        ensures
            final(self).wf(),
            final(self).vertices@ == old(self).vertices@.push(v),
            final(self).faces() == old(self).faces(),
            final(self).normals() == old(self).normals(),
    {
        self.vertices.push(v);
    }

    /// Appends a face with its normal.
    pub fn add_face(&mut self, face: Vec<usize>, normal: Vec3)
        requires
            old(self).wf(),
        ensures
            final(self).wf(),
            final(self).vertices@ == old(self).vertices@,
            final(self).faces() == old(self).faces().push(face),
            final(self).normals() == old(self).normals().push(normal),
    {
        self.polygons.push(face);
        self.face_normals.push(normal);
    }

    /// The number of vertices.
    pub fn vertex_count(&self) -> (n: usize)
        ensures
            n == self.vertices@.len(),
    {
        self.vertices.len()
    }

    /// The number of faces.
    pub fn face_count(&self) -> (n: usize)
        ensures
            n == self.faces().len(),
    {
        self.polygons.len()
    }
}

} // verus!
