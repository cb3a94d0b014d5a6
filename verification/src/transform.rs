use vstd::prelude::*;
use glam::{Mat4, Quat, Vec3};
use crate::handle::TransformNodeHandle;
use crate::math::{
    is_mat4_product, is_mat4_zero, is_pitch, is_quat_normalized, is_quat_product, is_roll,
    is_rotation_translation, is_scaling, is_vec3_one, is_vec3_product, is_vec3_sum,
    is_vec3_zero, is_yaw, mat4_mul, mat4_rotation_translation, mat4_scaling, mat4_zero,
    quat_mul, quat_normalize, quat_pitch, quat_roll, quat_yaw, vec3_add, vec3_mul, vec3_one,
    vec3_zero,
};

verus! {

/// Position, rotation and scale of an entity relative to its parent.
///
/// The rotation is a vector of Euler angles in radians: roll about X, pitch
/// about Y, yaw about Z.
#[derive(Clone, Copy)]
pub struct Transform {
    pub position: Vec3,
    pub rotation: Vec3,
    pub scale: Vec3,
}

/// Whether `q` is a rotation that `glam` gives for the Euler angles `angles`:
/// the roll, pitch and yaw quaternions combined as yaw * pitch * roll, then
/// normalized.
pub open spec fn is_rotation_of(angles: Vec3, q: Quat) -> bool {
    exists|roll: Quat, pitch: Quat, yaw: Quat, yp: Quat, ypr: Quat|
        #![trigger is_roll(angles, roll), is_quat_product(yaw, pitch, yp), is_quat_product(yp, roll, ypr)]
        {
            &&& is_roll(angles, roll)
            &&& is_pitch(angles, pitch)
            &&& is_yaw(angles, yaw)
            &&& is_quat_product(yaw, pitch, yp)
            &&& is_quat_product(yp, roll, ypr)
            &&& is_quat_normalized(ypr, q)
        }
}

/// Whether `m` is a matrix that `glam` gives for the transform `t`:
/// translation(position) * rotation * scale, the rotation as
/// `is_rotation_of` describes it.
pub open spec fn is_matrix_of(t: Transform, m: Mat4) -> bool {
    exists|q: Quat, rt: Mat4, s: Mat4|
        #![trigger is_rotation_translation(q, t.position, rt), is_mat4_product(rt, s, m)]
        {
            &&& is_rotation_of(t.rotation, q)
            &&& is_rotation_translation(q, t.position, rt)
            &&& is_scaling(t.scale, s)
            &&& is_mat4_product(rt, s, m)
        }
}

/// The ways to change a local transform.
#[derive(Copy, Clone, Debug, PartialEq, Eq, Structural)]
pub enum LocalOp {
    /// Add a vector to the position.
    Translate,
    /// Add a vector of angles to the rotation.
    Rotate,
    /// Multiply the scale component-wise by a vector.
    Scale,
    /// Replace the position.
    SetPosition,
    /// Replace the rotation.
    SetRotation,
    /// Replace the scale.
    SetScale,
}

/// Whether `after` is what `op` with the vector `v` makes of `before`.
pub open spec fn op_applied(op: LocalOp, v: Vec3, before: Transform, after: Transform) -> bool {
    match op {
        LocalOp::Translate => {
            &&& is_vec3_sum(before.position, v, after.position)
            &&& after.rotation == before.rotation
            &&& after.scale == before.scale
        },
        LocalOp::Rotate => {
            &&& is_vec3_sum(before.rotation, v, after.rotation)
            &&& after.position == before.position
            &&& after.scale == before.scale
        },
        LocalOp::Scale => {
            &&& is_vec3_product(before.scale, v, after.scale)
            &&& after.position == before.position
            &&& after.rotation == before.rotation
        },
        LocalOp::SetPosition => after == (Transform { position: v, ..before }),
        LocalOp::SetRotation => after == (Transform { rotation: v, ..before }),
        LocalOp::SetScale => after == (Transform { scale: v, ..before }),
    }
}

impl Transform {
    /// The default transform: position zero, rotation zero, scale one.
    pub fn new() -> (t: Transform)
        ensures
            is_vec3_zero(t.position),
            is_vec3_zero(t.rotation),
            is_vec3_one(t.scale),
    {
        Transform { position: vec3_zero(), rotation: vec3_zero(), scale: vec3_one() }
    }

    /// The 4x4 matrix of this transform.
    ///
    /// The rotation is built from the three Euler angles in a fixed order and
    /// the matrix is translation * rotation * scale.
    pub fn get_matrix(&self) -> (m: Mat4)
        ensures
            is_matrix_of(*self, m),
    {
        let roll = quat_roll(self.rotation);
        let pitch = quat_pitch(self.rotation);
        let yaw = quat_yaw(self.rotation);
        let yp = quat_mul(yaw, pitch);
        let ypr = quat_mul(yp, roll);
        let q = quat_normalize(ypr);
        let rt = mat4_rotation_translation(q, self.position);
        let s = mat4_scaling(self.scale);
        let m = mat4_mul(rt, s);
        proof {
            assert(is_rotation_of(self.rotation, q));
        }
        m
    }

    /// Moves the position by `delta`; rotation and scale stay.
    pub fn translate(&mut self, delta: Vec3)
        ensures
            is_vec3_sum(old(self).position, delta, final(self).position),
            final(self).rotation == old(self).rotation,
            final(self).scale == old(self).scale,
    {
        self.position = vec3_add(self.position, delta);
    }

    /// Adds `delta` to the Euler angles; position and scale stay.
    pub fn rotate(&mut self, delta: Vec3)
        ensures
            is_vec3_sum(old(self).rotation, delta, final(self).rotation),
            final(self).position == old(self).position,
            final(self).scale == old(self).scale,
    {
        self.rotation = vec3_add(self.rotation, delta);
    }

    /// Multiplies the scale component-wise by `s`; position and rotation stay.
    pub fn scale(&mut self, s: Vec3)
        ensures
            is_vec3_product(old(self).scale, s, final(self).scale),
            final(self).position == old(self).position,
            final(self).rotation == old(self).rotation,
    {
        self.scale = vec3_mul(self.scale, s);
    }

    /// Changes the transform as `op` says, with the vector `v`.
    pub fn apply(&mut self, op: LocalOp, v: Vec3)
        ensures
            op_applied(op, v, *old(self), *final(self)),
    {
        match op {
            LocalOp::Translate => self.translate(v),
            LocalOp::Rotate => self.rotate(v),
            LocalOp::Scale => self.scale(v),
            LocalOp::SetPosition => {
                self.position = v;
            },
            LocalOp::SetRotation => {
                self.rotation = v;
            },
            LocalOp::SetScale => {
                self.scale = v;
            },
        }
    }
}

/// One node of the transform hierarchy.
pub struct TransformNode {
    /// Transform relative to the parent, or to the scene for a root.
    pub local: Transform,
    /// The node above this one; `None` for a root.
    pub parent: Option<TransformNodeHandle>,
    /// The nodes directly below this one, in the order they were attached.
    pub children: Vec<TransformNodeHandle>,
    /// Cached object-to-root matrix; stale while `dirty` is set.
    pub world: Mat4,
    /// Whether `world` has to be computed again before it is used.
    pub dirty: bool,
}

impl TransformNode {
    /// A fresh node under `parent`: default local transform, no children,
    /// and dirty, so that its world matrix is computed on first use.
    pub fn new(parent: Option<TransformNodeHandle>) -> (n: TransformNode)
        ensures
            is_vec3_zero(n.local.position),
            is_vec3_zero(n.local.rotation),
            is_vec3_one(n.local.scale),
            n.parent == parent,
            n.children@.len() == 0,
            is_mat4_zero(n.world),
            n.dirty,
    {
        TransformNode {
            local: Transform::new(),
            parent,
            children: Vec::new(),
            world: mat4_zero(),
            dirty: true,
        }
    }
}

} // verus!
