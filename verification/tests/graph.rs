use glam::{Mat4, Quat, Vec3};
use helix_render::error::SceneError;
use helix_render::graph::SceneGraph;
use helix_render::handle::TransformNodeHandle;
use helix_render::transform::LocalOp;

fn parent_of(g: &SceneGraph, h: TransformNodeHandle) -> Option<TransformNodeHandle> {
    g.get_node(h).expect("node must exist").parent
}

fn children_of(g: &SceneGraph, h: TransformNodeHandle) -> Vec<TransformNodeHandle> {
    g.get_node(h).expect("node must exist").children.clone()
}

fn is_dirty(g: &SceneGraph, h: TransformNodeHandle) -> bool {
    g.get_node(h).expect("node must exist").dirty
}

fn snapshot(g: &SceneGraph, all: &[TransformNodeHandle]) -> Vec<(Option<TransformNodeHandle>, Vec<TransformNodeHandle>, bool, Vec3, Mat4)> {
    let mut out = Vec::new();
    for h in all {
        let n = g.get_node(*h).expect("node must exist");
        out.push((n.parent, n.children.clone(), n.dirty, n.local.position, n.world));
    }
    out
}

#[test]
fn empty_graph_has_no_node() {
    let mut g = SceneGraph::new();
    assert!(!g.is_valid(TransformNodeHandle::new(0, 0)));
    assert!(g.get_node(TransformNodeHandle::new(0, 0)).is_none());
    assert_eq!(g.get_world_matrix(TransformNodeHandle::new(0, 0)), Err(SceneError::InvalidHandle));
}

#[test]
fn create_root_node() {
    let mut g = SceneGraph::new();
    let (h, report) = g.create_node(None);
    assert_eq!(report, Ok(()));
    assert_eq!(h, TransformNodeHandle::new(0, 0));
    assert!(g.is_valid(h));
    assert!(is_dirty(&g, h));
    assert_eq!(parent_of(&g, h), None);
    assert!(children_of(&g, h).is_empty());
}

#[test]
fn create_child_appends_to_parent() {
    let mut g = SceneGraph::new();
    let (root, _) = g.create_node(None);
    let (a, ra) = g.create_node(Some(root));
    let (b, rb) = g.create_node(Some(root));
    assert_eq!(ra, Ok(()));
    assert_eq!(rb, Ok(()));
    assert_eq!(parent_of(&g, a), Some(root));
    assert_eq!(parent_of(&g, b), Some(root));
    assert_eq!(children_of(&g, root), vec![a, b]);
}

#[test]
fn create_under_bad_parent_makes_a_reported_root() {
    let mut g = SceneGraph::new();
    let (root, _) = g.create_node(None);
    let stale = TransformNodeHandle::new(root.index, root.generation + 1);
    let (h, report) = g.create_node(Some(stale));
    assert_eq!(report, Err(SceneError::InvalidHandle));
    assert!(g.is_valid(h));
    assert_eq!(parent_of(&g, h), None);
    assert!(children_of(&g, root).is_empty());
    let (k, report) = g.create_node(Some(TransformNodeHandle::new(17, 0)));
    assert_eq!(report, Err(SceneError::InvalidHandle));
    assert_eq!(parent_of(&g, k), None);
}

#[test]
fn root_world_is_its_local_matrix() {
    let mut g = SceneGraph::new();
    let (root, _) = g.create_node(None);
    assert_eq!(g.translate(root, Vec3::new(1.0, 2.0, 3.0)), Ok(()));
    assert_eq!(g.rotate(root, Vec3::new(0.2, 0.4, 0.6)), Ok(()));
    assert_eq!(g.scale(root, Vec3::new(2.0, 2.0, 0.5)), Ok(()));
    let local = g.get_node(root).expect("root").local.get_matrix();
    assert_eq!(g.get_world_matrix(root), Ok(local));
    let q = (Quat::from_rotation_z(0.6) * Quat::from_rotation_y(0.4) * Quat::from_rotation_x(0.2))
        .normalize();
    let expected = Mat4::from_rotation_translation(q, Vec3::new(1.0, 2.0, 3.0))
        * Mat4::from_scale(Vec3::new(2.0, 2.0, 0.5));
    assert_eq!(g.get_world_matrix(root), Ok(expected));
}

#[test]
fn world_matrix_composition() {
    let mut g = SceneGraph::new();
    let (root, _) = g.create_node(None);
    let (child, _) = g.create_node(Some(root));
    assert_eq!(g.set_position(root, Vec3::new(1.0, 0.0, 0.0)), Ok(()));
    assert_eq!(g.set_position(child, Vec3::new(0.0, 2.0, 0.0)), Ok(()));
    assert_eq!(
        g.get_world_matrix(child),
        Ok(Mat4::from_translation(Vec3::new(1.0, 2.0, 0.0)))
    );
    assert_eq!(
        g.get_world_matrix(root),
        Ok(Mat4::from_translation(Vec3::new(1.0, 0.0, 0.0)))
    );
}

#[test]
fn world_is_parent_world_times_local() {
    let mut g = SceneGraph::new();
    let (root, _) = g.create_node(None);
    let (child, _) = g.create_node(Some(root));
    g.rotate(root, Vec3::new(0.0, 0.0, std::f32::consts::FRAC_PI_2)).expect("root");
    g.scale(root, Vec3::new(2.0, 2.0, 2.0)).expect("root");
    g.translate(child, Vec3::new(1.0, 0.0, 0.0)).expect("child");
    let root_local = g.get_node(root).expect("root").local.get_matrix();
    let child_local = g.get_node(child).expect("child").local.get_matrix();
    let world = g.get_world_matrix(child).expect("child");
    assert_eq!(world, root_local * child_local);
    assert_ne!(world, child_local * root_local);
    let origin = world.transform_point3(Vec3::ZERO);
    assert!(origin.abs_diff_eq(Vec3::new(0.0, 2.0, 0.0), 1e-5));
}

#[test]
fn dirty_propagation() {
    let mut g = SceneGraph::new();
    let (r, _) = g.create_node(None);
    let (c, _) = g.create_node(Some(r));
    let (gc, _) = g.create_node(Some(c));
    g.set_position(c, Vec3::new(0.0, 1.0, 0.0)).expect("c");
    g.set_position(gc, Vec3::new(0.0, 0.0, 1.0)).expect("gc");
    assert_eq!(
        g.get_world_matrix(gc),
        Ok(Mat4::from_translation(Vec3::new(0.0, 1.0, 1.0)))
    );
    assert!(!is_dirty(&g, r));
    assert!(!is_dirty(&g, c));
    assert!(!is_dirty(&g, gc));
    assert_eq!(g.translate(r, Vec3::new(5.0, 0.0, 0.0)), Ok(()));
    assert!(is_dirty(&g, r));
    assert!(is_dirty(&g, c));
    assert!(is_dirty(&g, gc));
    assert_eq!(
        g.get_world_matrix(gc),
        Ok(Mat4::from_translation(Vec3::new(5.0, 1.0, 1.0)))
    );
    assert!(!is_dirty(&g, r));
    assert!(!is_dirty(&g, c));
    assert!(!is_dirty(&g, gc));
}

#[test]
fn query_cleans_only_the_chain_above() {
    let mut g = SceneGraph::new();
    let (r, _) = g.create_node(None);
    let (a, _) = g.create_node(Some(r));
    let (b, _) = g.create_node(Some(r));
    let (a1, _) = g.create_node(Some(a));
    g.get_world_matrix(a).expect("a");
    assert!(!is_dirty(&g, r));
    assert!(!is_dirty(&g, a));
    assert!(is_dirty(&g, b));
    assert!(is_dirty(&g, a1));
}

#[test]
fn mutation_dirties_only_the_subtree() {
    let mut g = SceneGraph::new();
    let (r, _) = g.create_node(None);
    let (a, _) = g.create_node(Some(r));
    let (b, _) = g.create_node(Some(r));
    let (a1, _) = g.create_node(Some(a));
    g.get_world_matrix(a1).expect("a1");
    g.get_world_matrix(b).expect("b");
    g.set_scale(a, Vec3::new(2.0, 2.0, 2.0)).expect("a");
    assert!(!is_dirty(&g, r));
    assert!(is_dirty(&g, a));
    assert!(is_dirty(&g, a1));
    assert!(!is_dirty(&g, b));
}

#[test]
fn cached_world_is_kept_while_clean() {
    let mut g = SceneGraph::new();
    let (r, _) = g.create_node(None);
    g.set_position(r, Vec3::new(1.0, 1.0, 1.0)).expect("r");
    let first = g.get_world_matrix(r).expect("r");
    let second = g.get_world_matrix(r).expect("r");
    assert_eq!(first, second);
    assert_eq!(g.get_node(r).expect("r").world, first);
}

#[test]
fn every_setter_reaches_the_local_transform() {
    let mut g = SceneGraph::new();
    let (r, _) = g.create_node(None);
    g.set_position(r, Vec3::new(1.0, 2.0, 3.0)).expect("r");
    g.set_rotation(r, Vec3::new(0.5, 0.25, 0.125)).expect("r");
    g.set_scale(r, Vec3::new(2.0, 4.0, 8.0)).expect("r");
    g.translate(r, Vec3::new(1.0, 1.0, 1.0)).expect("r");
    g.rotate(r, Vec3::new(0.5, 0.25, 0.125)).expect("r");
    g.scale(r, Vec3::new(0.5, 0.5, 0.5)).expect("r");
    g.set_local(r, LocalOp::Translate, Vec3::new(0.0, 0.0, 1.0)).expect("r");
    let n = g.get_node(r).expect("r");
    assert_eq!(n.local.position, Vec3::new(2.0, 3.0, 5.0));
    assert_eq!(n.local.rotation, Vec3::new(1.0, 0.5, 0.25));
    assert_eq!(n.local.scale, Vec3::new(1.0, 2.0, 4.0));
}

#[test]
fn setters_reject_bad_handles() {
    let mut g = SceneGraph::new();
    let (r, _) = g.create_node(None);
    let bad = TransformNodeHandle::new(r.index, r.generation + 1);
    let v = Vec3::new(1.0, 1.0, 1.0);
    assert_eq!(g.translate(bad, v), Err(SceneError::InvalidHandle));
    assert_eq!(g.rotate(bad, v), Err(SceneError::InvalidHandle));
    assert_eq!(g.scale(bad, v), Err(SceneError::InvalidHandle));
    assert_eq!(g.set_position(bad, v), Err(SceneError::InvalidHandle));
    assert_eq!(g.set_rotation(bad, v), Err(SceneError::InvalidHandle));
    assert_eq!(g.set_scale(bad, v), Err(SceneError::InvalidHandle));
    assert_eq!(g.get_world_matrix(bad), Err(SceneError::InvalidHandle));
    assert_eq!(g.get_node(r).expect("r").local.position, Vec3::ZERO);
}

#[test]
fn reparent_moves_the_node() {
    let mut g = SceneGraph::new();
    let (a, _) = g.create_node(None);
    let (b, _) = g.create_node(None);
    let (x, _) = g.create_node(Some(a));
    let (y, _) = g.create_node(Some(a));
    g.set_position(a, Vec3::new(1.0, 0.0, 0.0)).expect("a");
    g.set_position(b, Vec3::new(0.0, 1.0, 0.0)).expect("b");
    g.set_position(x, Vec3::new(0.0, 0.0, 1.0)).expect("x");
    assert_eq!(
        g.get_world_matrix(x),
        Ok(Mat4::from_translation(Vec3::new(1.0, 0.0, 1.0)))
    );
    assert_eq!(g.reparent(x, Some(b)), Ok(()));
    assert_eq!(parent_of(&g, x), Some(b));
    assert_eq!(children_of(&g, a), vec![y]);
    assert_eq!(children_of(&g, b), vec![x]);
    assert!(is_dirty(&g, x));
    assert_eq!(
        g.get_world_matrix(x),
        Ok(Mat4::from_translation(Vec3::new(0.0, 1.0, 1.0)))
    );
    assert_eq!(g.reparent(x, None), Ok(()));
    assert_eq!(parent_of(&g, x), None);
    assert!(children_of(&g, b).is_empty());
    assert_eq!(
        g.get_world_matrix(x),
        Ok(Mat4::from_translation(Vec3::new(0.0, 0.0, 1.0)))
    );
}

#[test]
fn reparent_to_same_parent_moves_to_the_end() {
    let mut g = SceneGraph::new();
    let (a, _) = g.create_node(None);
    let (x, _) = g.create_node(Some(a));
    let (y, _) = g.create_node(Some(a));
    assert_eq!(g.reparent(x, Some(a)), Ok(()));
    assert_eq!(children_of(&g, a), vec![y, x]);
    assert_eq!(parent_of(&g, x), Some(a));
}

#[test]
fn reparent_dirties_the_subtree() {
    let mut g = SceneGraph::new();
    let (a, _) = g.create_node(None);
    let (b, _) = g.create_node(None);
    let (x, _) = g.create_node(Some(a));
    let (x1, _) = g.create_node(Some(x));
    g.get_world_matrix(x1).expect("x1");
    g.get_world_matrix(b).expect("b");
    assert_eq!(g.reparent(x, Some(b)), Ok(()));
    assert!(is_dirty(&g, x));
    assert!(is_dirty(&g, x1));
    assert!(!is_dirty(&g, a));
    assert!(!is_dirty(&g, b));
}

#[test]
fn cycle_rejection() {
    let mut g = SceneGraph::new();
    let (a, _) = g.create_node(None);
    let (b, _) = g.create_node(Some(a));
    let (c, _) = g.create_node(Some(b));
    g.set_position(a, Vec3::new(1.0, 0.0, 0.0)).expect("a");
    g.get_world_matrix(c).expect("c");
    let all = [a, b, c];
    let before = snapshot(&g, &all);
    assert_eq!(g.reparent(a, Some(b)), Err(SceneError::CycleError));
    assert_eq!(snapshot(&g, &all), before);
    assert_eq!(g.reparent(a, Some(c)), Err(SceneError::CycleError));
    assert_eq!(snapshot(&g, &all), before);
    assert_eq!(g.reparent(a, Some(a)), Err(SceneError::CycleError));
    assert_eq!(snapshot(&g, &all), before);
    assert_eq!(g.reparent(b, Some(c)), Err(SceneError::CycleError));
    assert_eq!(snapshot(&g, &all), before);
}

#[test]
fn reparent_rejects_bad_handles_unchanged() {
    let mut g = SceneGraph::new();
    let (a, _) = g.create_node(None);
    let (b, _) = g.create_node(Some(a));
    let all = [a, b];
    let before = snapshot(&g, &all);
    assert_eq!(g.reparent(TransformNodeHandle::new(9, 0), Some(a)), Err(SceneError::InvalidHandle));
    assert_eq!(g.reparent(b, Some(TransformNodeHandle::new(9, 0))), Err(SceneError::InvalidHandle));
    assert_eq!(g.reparent(b, Some(TransformNodeHandle::new(a.index, 5))), Err(SceneError::InvalidHandle));
    assert_eq!(snapshot(&g, &all), before);
}

#[test]
fn is_within_walks_to_the_root() {
    let mut g = SceneGraph::new();
    let (a, _) = g.create_node(None);
    let (b, _) = g.create_node(Some(a));
    let (c, _) = g.create_node(Some(b));
    let (d, _) = g.create_node(None);
    assert!(g.is_within(c, a));
    assert!(g.is_within(c, b));
    assert!(g.is_within(c, c));
    assert!(!g.is_within(a, c));
    assert!(!g.is_within(c, d));
}

#[test]
fn idempotent_removal() {
    let mut g = SceneGraph::new();
    let (a, _) = g.create_node(None);
    let (b, _) = g.create_node(None);
    assert_eq!(g.remove_node(a), Ok(()));
    assert!(!g.is_valid(a));
    assert_eq!(g.remove_node(a), Err(SceneError::InvalidHandle));
    assert!(g.is_valid(b));
    let (again, _) = g.create_node(None);
    assert_eq!(again, TransformNodeHandle::new(a.index, a.generation + 1));
    assert_eq!(g.remove_node(a), Err(SceneError::InvalidHandle));
    assert!(g.is_valid(again));
    let (next, _) = g.create_node(None);
    assert_eq!(next, TransformNodeHandle::new(2, 0));
}

#[test]
fn removal_unlinks_from_parent() {
    let mut g = SceneGraph::new();
    let (a, _) = g.create_node(None);
    let (x, _) = g.create_node(Some(a));
    let (y, _) = g.create_node(Some(a));
    let (z, _) = g.create_node(Some(a));
    assert_eq!(g.remove_node(y), Ok(()));
    assert_eq!(children_of(&g, a), vec![x, z]);
}

#[test]
fn orphan_re_rooting() {
    let mut g = SceneGraph::new();
    let (top, _) = g.create_node(None);
    let (mid, _) = g.create_node(Some(top));
    let (left, _) = g.create_node(Some(mid));
    let (right, _) = g.create_node(Some(mid));
    let (leaf, _) = g.create_node(Some(left));
    g.set_position(top, Vec3::new(10.0, 0.0, 0.0)).expect("top");
    g.set_position(mid, Vec3::new(0.0, 10.0, 0.0)).expect("mid");
    g.set_position(left, Vec3::new(1.0, 0.0, 0.0)).expect("left");
    g.set_position(right, Vec3::new(2.0, 0.0, 0.0)).expect("right");
    g.set_position(leaf, Vec3::new(0.0, 0.0, 3.0)).expect("leaf");
    assert_eq!(
        g.get_world_matrix(leaf),
        Ok(Mat4::from_translation(Vec3::new(11.0, 10.0, 3.0)))
    );
    g.get_world_matrix(right).expect("right");
    assert_eq!(g.remove_node(mid), Ok(()));
    assert!(!g.is_valid(mid));
    assert!(children_of(&g, top).is_empty());
    assert_eq!(parent_of(&g, left), None);
    assert_eq!(parent_of(&g, right), None);
    assert_eq!(parent_of(&g, leaf), Some(left));
    assert_eq!(g.get_node(left).expect("left").local.position, Vec3::new(1.0, 0.0, 0.0));
    assert_eq!(g.get_node(right).expect("right").local.position, Vec3::new(2.0, 0.0, 0.0));
    let left_local = g.get_node(left).expect("left").local.get_matrix();
    let right_local = g.get_node(right).expect("right").local.get_matrix();
    assert_eq!(g.get_world_matrix(left), Ok(left_local));
    assert_eq!(g.get_world_matrix(right), Ok(right_local));
    assert_eq!(
        g.get_world_matrix(leaf),
        Ok(Mat4::from_translation(Vec3::new(1.0, 0.0, 3.0)))
    );
    assert!(!is_dirty(&g, top));
}
