use glam::{Mat4, Vec3};
use helix_render::entity::{Camera, Mesh, MeshObject};
use helix_render::error::SceneError;
use helix_render::handle::{CameraHandle, MeshHandle, MeshObjectHandle, TransformNodeHandle};
use helix_render::scene::Scene;
use helix_render::transform::LocalOp;

#[test]
fn new_scene_has_one_active_camera() {
    let s = Scene::new();
    let active = s.active_camera();
    assert_eq!(active, CameraHandle::new(0, 0));
    let camera = s.camera(active).expect("camera");
    assert_eq!(camera.name, "");
    assert_eq!(camera.transform_node_handle, TransformNodeHandle::new(0, 0));
    let node = s.nodes().get_node(camera.transform_node_handle).expect("node");
    assert!(node.dirty);
    assert!(node.parent.is_none());
    assert!(node.children.is_empty());
    assert_eq!(node.local.position, Vec3::ZERO);
    assert_eq!(node.local.rotation, Vec3::ZERO);
    assert_eq!(node.local.scale, Vec3::ONE);
    assert_eq!(node.world, Mat4::ZERO);
    assert!(s.camera(CameraHandle::new(1, 0)).is_none());
    assert!(s.object(MeshObjectHandle::new(0, 0)).is_none());
    assert!(s.mesh(MeshHandle::new(0, 0)).is_none());
    assert!(!s.nodes().is_valid(TransformNodeHandle::new(1, 0)));
}

#[test]
fn add_object_creates_object_and_node() {
    let mut s = Scene::new();
    let h = s.add_object(String::from("cube"));
    let o = s.object(h).expect("object");
    assert_eq!(o.name, "cube");
    assert_eq!(o.mesh_handle, None);
    let node = o.transform_node_handle;
    assert!(s.nodes().is_valid(node));
    assert_eq!(s.get_name(h), Ok(&String::from("cube")));
    assert_eq!(s.get_name(MeshObjectHandle::new(3, 0)), Err(SceneError::InvalidHandle));
}

#[test]
fn create_mesh_object_under_parent() {
    let mut s = Scene::new();
    let base = s.add_object(String::from("base"));
    let base_node = s.object(base).expect("base").transform_node_handle;
    let mesh = s.add_mesh(Mesh::new());
    let (arm, report) = s.create_mesh_object(String::from("arm"), Some(mesh), Some(base_node));
    assert_eq!(report, Ok(()));
    let arm_node = s.object(arm).expect("arm").transform_node_handle;
    assert_eq!(s.object(arm).expect("arm").mesh_handle, Some(mesh));
    assert_eq!(s.nodes().get_node(arm_node).expect("node").parent, Some(base_node));
    assert_eq!(s.nodes().get_node(base_node).expect("node").children, vec![arm_node]);
    let (lost, report) = s.create_mesh_object(String::from("lost"), None, Some(TransformNodeHandle::new(40, 0)));
    assert_eq!(report, Err(SceneError::InvalidHandle));
    let lost_node = s.object(lost).expect("lost").transform_node_handle;
    assert_eq!(s.nodes().get_node(lost_node).expect("node").parent, None);
}

#[test]
fn get_object_finds_the_lowest_slot_with_the_name() {
    let mut s = Scene::new();
    let a = s.add_object(String::from("a"));
    let b = s.add_object(String::from("b"));
    let b2 = s.add_object(String::from("b"));
    assert_eq!(s.get_object("a"), Some(a));
    assert_eq!(s.get_object("b"), Some(b));
    assert_eq!(s.get_object("c"), None);
    assert_eq!(s.delete_object(b), Ok(()));
    assert_eq!(s.get_object("b"), Some(b2));
    assert_eq!(s.delete_object(b2), Ok(()));
    assert_eq!(s.get_object("b"), None);
}

#[test]
fn delete_object_frees_object_and_node() {
    let mut s = Scene::new();
    let h = s.add_object(String::from("cube"));
    let node = s.object(h).expect("object").transform_node_handle;
    assert_eq!(s.delete_object(h), Ok(()));
    assert!(s.object(h).is_none());
    assert!(!s.nodes().is_valid(node));
    assert_eq!(s.delete_object(h), Err(SceneError::InvalidHandle));
    let again = s.add_object(String::from("sphere"));
    assert_eq!(again, MeshObjectHandle::new(h.index, h.generation + 1));
    assert!(s.object(h).is_none());
    assert_eq!(s.translate_object(h, Vec3::ONE), Err(SceneError::InvalidHandle));
}

#[test]
fn deleting_a_parent_object_re_roots_the_children() {
    let mut s = Scene::new();
    let base = s.add_object(String::from("base"));
    let base_node = s.object(base).expect("base").transform_node_handle;
    let (arm, _) = s.create_mesh_object(String::from("arm"), None, Some(base_node));
    assert_eq!(s.translate_object(base, Vec3::new(1.0, 0.0, 0.0)), Ok(()));
    assert_eq!(s.translate_object(arm, Vec3::new(0.0, 2.0, 0.0)), Ok(()));
    assert_eq!(
        s.get_object_matrix(arm),
        Ok(Mat4::from_translation(Vec3::new(1.0, 2.0, 0.0)))
    );
    assert_eq!(s.delete_object(base), Ok(()));
    assert_eq!(
        s.get_object_matrix(arm),
        Ok(Mat4::from_translation(Vec3::new(0.0, 2.0, 0.0)))
    );
}

#[test]
fn object_transforms() {
    let mut s = Scene::new();
    let h = s.add_object(String::from("cube"));
    assert_eq!(s.translate_object(h, Vec3::new(1.0, 2.0, 3.0)), Ok(()));
    assert_eq!(s.scale_object(h, Vec3::new(2.0, 2.0, 2.0)), Ok(()));
    assert_eq!(s.rotate_object(h, Vec3::new(0.0, 0.0, 0.0)), Ok(()));
    assert_eq!(s.transform_object(h, LocalOp::Scale, Vec3::new(1.0, 0.5, 1.0)), Ok(()));
    let expected = Mat4::from_translation(Vec3::new(1.0, 2.0, 3.0))
        * Mat4::from_scale(Vec3::new(2.0, 1.0, 2.0));
    assert_eq!(s.get_object_matrix(h), Ok(expected));
    let bad = MeshObjectHandle::new(h.index, h.generation + 1);
    assert_eq!(s.translate_object(bad, Vec3::ONE), Err(SceneError::InvalidHandle));
    assert_eq!(s.rotate_object(bad, Vec3::ONE), Err(SceneError::InvalidHandle));
    assert_eq!(s.scale_object(bad, Vec3::ONE), Err(SceneError::InvalidHandle));
    assert_eq!(s.get_object_matrix(bad), Err(SceneError::InvalidHandle));
    assert_eq!(s.get_object_matrix(h), Ok(expected));
}

#[test]
fn reparent_object_checks_for_cycles() {
    let mut s = Scene::new();
    let a = s.add_object(String::from("a"));
    let b = s.add_object(String::from("b"));
    let a_node = s.object(a).expect("a").transform_node_handle;
    let b_node = s.object(b).expect("b").transform_node_handle;
    assert_eq!(s.reparent_object(b, Some(a_node)), Ok(()));
    assert_eq!(s.reparent_object(a, Some(b_node)), Err(SceneError::CycleError));
    assert_eq!(s.nodes().get_node(a_node).expect("a").parent, None);
    assert_eq!(s.nodes().get_node(b_node).expect("b").parent, Some(a_node));
    assert_eq!(s.reparent_object(MeshObjectHandle::new(7, 7), None), Err(SceneError::InvalidHandle));
}

#[test]
fn apply_mesh_needs_both_handles() {
    let mut s = Scene::new();
    let h = s.add_object(String::from("cube"));
    let mut m = Mesh::new();
    m.add_vertex(Vec3::new(0.0, 0.0, 0.0));
    m.add_vertex(Vec3::new(1.0, 0.0, 0.0));
    m.add_vertex(Vec3::new(0.0, 1.0, 0.0));
    m.add_face(vec![0, 1, 2], Vec3::Z);
    assert_eq!(m.vertex_count(), 3);
    assert_eq!(m.face_count(), 1);
    let mesh = s.add_mesh(m);
    assert_eq!(s.apply_mesh_to_object(h, MeshHandle::new(5, 0)), Err(SceneError::InvalidHandle));
    assert_eq!(s.apply_mesh_to_object(MeshObjectHandle::new(5, 0), mesh), Err(SceneError::InvalidHandle));
    assert_eq!(s.object(h).expect("object").mesh_handle, None);
    assert_eq!(s.apply_mesh_to_object(h, mesh), Ok(()));
    assert_eq!(s.object(h).expect("object").mesh_handle, Some(mesh));
    assert_eq!(s.object(h).expect("object").name, "cube");
    assert_eq!(s.mesh(mesh).expect("mesh").vertex_count(), 3);
}

#[test]
fn deleting_a_mesh_leaves_the_object_with_a_stale_handle() {
    let mut s = Scene::new();
    let h = s.add_object(String::from("cube"));
    let mesh = s.add_mesh(Mesh::new());
    assert_eq!(s.apply_mesh_to_object(h, mesh), Ok(()));
    assert_eq!(s.delete_mesh(mesh), Ok(()));
    assert_eq!(s.delete_mesh(mesh), Err(SceneError::InvalidHandle));
    assert_eq!(s.object(h).expect("object").mesh_handle, Some(mesh));
    assert!(s.mesh(mesh).is_none());
}

#[test]
fn mesh_clear_empties_it() {
    let mut m = Mesh::new();
    m.add_vertex(Vec3::ONE);
    m.add_face(vec![0, 0, 0], Vec3::X);
    m.clear();
    assert_eq!(m.vertex_count(), 0);
    assert_eq!(m.face_count(), 0);
    assert!(m.face_normals.is_empty());
}

#[test]
fn create_camera_leaves_the_active_camera() {
    let mut s = Scene::new();
    let start = s.active_camera();
    let first = s.create_camera(String::from("main"));
    assert_eq!(first, CameraHandle::new(1, 0));
    assert_eq!(s.active_camera(), start);
    let second = s.create_camera(String::from("side"));
    assert_eq!(s.active_camera(), start);
    assert_ne!(first, second);
    assert_eq!(s.camera(first).expect("camera").name, "main");
    assert_eq!(s.camera(second).expect("camera").name, "side");
    assert_eq!(s.camera(start).expect("camera").name, "");
    let node = s.camera(first).expect("camera").transform_node_handle;
    assert!(s.nodes().is_valid(node));
    let n = s.nodes().get_node(node).expect("node");
    assert!(n.dirty);
    assert!(n.parent.is_none());
    assert!(n.children.is_empty());
    assert_ne!(node, s.camera(second).expect("camera").transform_node_handle);
    assert_ne!(node, s.camera(start).expect("camera").transform_node_handle);
}

#[test]
fn a_created_camera_can_be_deleted() {
    let mut s = Scene::new();
    let start = s.active_camera();
    let made = s.create_camera(String::from("extra"));
    let node = s.camera(made).expect("camera").transform_node_handle;
    assert_eq!(s.delete_camera(made), Ok(()));
    assert!(s.camera(made).is_none());
    assert!(!s.nodes().is_valid(node));
    assert_eq!(s.active_camera(), start);
    assert!(s.camera(start).is_some());
    assert_eq!(s.delete_camera(made), Err(SceneError::InvalidHandle));
}

#[test]
fn active_camera_cannot_be_deleted() {
    let mut s = Scene::new();
    let first = s.active_camera();
    let second = s.create_camera(String::from("side"));
    assert_eq!(s.delete_camera(first), Err(SceneError::ActiveCamera));
    assert!(s.camera(first).is_some());
    assert_eq!(s.active_camera(), first);
    assert_eq!(s.set_active_camera(second), Ok(()));
    assert_eq!(s.active_camera(), second);
    let node = s.camera(first).expect("camera").transform_node_handle;
    assert_eq!(s.delete_camera(first), Ok(()));
    assert!(s.camera(first).is_none());
    assert!(!s.nodes().is_valid(node));
    assert_eq!(s.delete_camera(first), Err(SceneError::InvalidHandle));
    assert_eq!(s.set_active_camera(first), Err(SceneError::InvalidHandle));
    assert_eq!(s.active_camera(), second);
    assert_eq!(s.delete_camera(second), Err(SceneError::ActiveCamera));
}

#[test]
fn entity_records_keep_what_they_are_given() {
    let mut o = MeshObject::new(String::from("o"), TransformNodeHandle::new(1, 2));
    assert_eq!(o.name, "o");
    assert_eq!(o.mesh_handle, None);
    assert_eq!(o.transform_node_handle, TransformNodeHandle::new(1, 2));
    o.set_mesh(MeshHandle::new(3, 4));
    assert_eq!(o.mesh_handle, Some(MeshHandle::new(3, 4)));
    let c = Camera::new(String::from("c"), TransformNodeHandle::new(5, 6));
    assert_eq!(c.name, "c");
    assert_eq!(c.transform_node_handle, TransformNodeHandle::new(5, 6));
}

#[test]
fn camera_nodes_move_through_the_scene() {
    let mut s = Scene::new();
    let rig = s.add_object(String::from("rig"));
    let rig_node = s.object(rig).expect("rig").transform_node_handle;
    let cam = s.create_camera(String::from("main"));
    let cam_node = s.camera(cam).expect("camera").transform_node_handle;
    assert_eq!(s.reparent(cam_node, Some(rig_node)), Ok(()));
    assert_eq!(s.set_local(rig_node, LocalOp::SetPosition, Vec3::new(0.0, 1.0, 0.0)), Ok(()));
    assert_eq!(s.set_local(cam_node, LocalOp::Translate, Vec3::new(0.0, 0.0, 5.0)), Ok(()));
    assert_eq!(
        s.get_world_matrix(cam_node),
        Ok(Mat4::from_translation(Vec3::new(0.0, 1.0, 5.0)))
    );
    assert_eq!(s.reparent(rig_node, Some(cam_node)), Err(SceneError::CycleError));
    assert_eq!(s.get_world_matrix(TransformNodeHandle::new(9, 9)), Err(SceneError::InvalidHandle));
    assert_eq!(
        s.set_local(TransformNodeHandle::new(9, 9), LocalOp::Rotate, Vec3::ONE),
        Err(SceneError::InvalidHandle)
    );
    assert_eq!(s.delete_object(rig), Ok(()));
    assert_eq!(
        s.get_world_matrix(cam_node),
        Ok(Mat4::from_translation(Vec3::new(0.0, 0.0, 5.0)))
    );
}

#[test]
fn clear_deletes_objects_and_meshes_and_keeps_cameras() {
    let mut s = Scene::new();
    let base = s.add_object(String::from("base"));
    let base_node = s.object(base).expect("base").transform_node_handle;
    let cam = s.create_camera(String::from("main"));
    let cam_node = s.camera(cam).expect("camera").transform_node_handle;
    let (arm, _) = s.create_mesh_object(String::from("arm"), None, Some(base_node));
    let arm_node = s.object(arm).expect("arm").transform_node_handle;
    let mesh = s.add_mesh(Mesh::new());
    assert_eq!(s.reparent(cam_node, Some(arm_node)), Ok(()));
    assert_eq!(s.set_local(cam_node, LocalOp::SetPosition, Vec3::new(0.0, 0.0, 4.0)), Ok(()));
    assert_eq!(s.translate_object(base, Vec3::new(1.0, 0.0, 0.0)), Ok(()));
    assert!(s.can_clear());
    s.clear();
    assert!(s.object(base).is_none());
    assert!(s.object(arm).is_none());
    assert!(s.mesh(mesh).is_none());
    assert!(!s.nodes().is_valid(base_node));
    assert!(!s.nodes().is_valid(arm_node));
    assert_eq!(s.get_object("base"), None);
    assert_eq!(s.active_camera(), CameraHandle::new(0, 0));
    assert!(s.camera(cam).is_some());
    assert_eq!(s.camera(cam).expect("camera").name, "main");
    assert_eq!(s.nodes().get_node(cam_node).expect("node").parent, None);
    assert_eq!(
        s.get_world_matrix(cam_node),
        Ok(Mat4::from_translation(Vec3::new(0.0, 0.0, 4.0)))
    );
    let again = s.add_object(String::from("again"));
    assert_eq!(again.generation, 1);
    assert!(s.object(base).is_none());
    assert!(s.object(arm).is_none());
    s.clear();
    assert!(s.object(again).is_none());
}

#[test]
fn deleting_an_object_bumps_both_generations_by_one() {
    let mut s = Scene::new();
    let h = s.add_object(String::from("cube"));
    let t = s.object(h).expect("object").transform_node_handle;
    assert_eq!(s.delete_object(h), Ok(()));
    assert!(s.object(h).is_none());
    assert!(!s.nodes().is_valid(t));
    assert_eq!(s.delete_object(h), Err(SceneError::InvalidHandle));
    let again = s.add_object(String::from("cube"));
    let again_node = s.object(again).expect("object").transform_node_handle;
    assert_eq!(again, MeshObjectHandle::new(h.index, h.generation + 1));
    assert_eq!(again_node, TransformNodeHandle::new(t.index, t.generation + 1));
    assert!(s.object(h).is_none());
    assert!(!s.nodes().is_valid(t));
}
