//! The floating-point linear algebra that the scene rests on, done by `glam`.
//!
//! Nothing is proved of floating-point arithmetic here, and nothing is claimed
//! of it: a vector, a quaternion or a matrix is an opaque value to the
//! verifier. Each operation is a thin call into `glam`, and each has a
//! relation that names what the call may return: the relation holds of the
//! arguments and a value when the call on those arguments can return that
//! value. No relation says that a call returns the same value twice. The
//! contracts of the library say which operations were applied to what, in
//! which order, and leave the arithmetic to `glam`.

use vstd::prelude::*;
use glam::{Mat4, Quat, Vec3};

verus! {

#[verifier::external_type_specification]
#[verifier::external_body]
pub struct ExVec3(Vec3);

#[verifier::external_type_specification]
#[verifier::external_body]
pub struct ExQuat(Quat);

#[verifier::external_type_specification]
#[verifier::external_body]
pub struct ExMat4(Mat4);

/// `r` is `glam::Vec3::ZERO`.
pub uninterp spec fn is_vec3_zero(r: Vec3) -> bool;

/// `r` is `glam::Vec3::ONE`.
pub uninterp spec fn is_vec3_one(r: Vec3) -> bool;

/// `r` is `glam::Mat4::ZERO`.
pub uninterp spec fn is_mat4_zero(r: Mat4) -> bool;

/// `r` is what `a + b` gives on `glam::Vec3`.
pub uninterp spec fn is_vec3_sum(a: Vec3, b: Vec3, r: Vec3) -> bool;

/// `r` is what `a * b`, the component-wise product, gives on `glam::Vec3`.
pub uninterp spec fn is_vec3_product(a: Vec3, b: Vec3, r: Vec3) -> bool;

/// `r` is what `glam::Quat::from_rotation_x` gives on the `x` of `angles`.
pub uninterp spec fn is_roll(angles: Vec3, r: Quat) -> bool;

/// `r` is what `glam::Quat::from_rotation_y` gives on the `y` of `angles`.
pub uninterp spec fn is_pitch(angles: Vec3, r: Quat) -> bool;

/// `r` is what `glam::Quat::from_rotation_z` gives on the `z` of `angles`.
pub uninterp spec fn is_yaw(angles: Vec3, r: Quat) -> bool;

/// `r` is what `a * b` gives on `glam::Quat`.
pub uninterp spec fn is_quat_product(a: Quat, b: Quat, r: Quat) -> bool;

/// `r` is what `glam::Quat::normalize` gives on `q`.
pub uninterp spec fn is_quat_normalized(q: Quat, r: Quat) -> bool;

/// `r` is what `glam::Mat4::from_rotation_translation` gives on `q` and `t`.
pub uninterp spec fn is_rotation_translation(q: Quat, t: Vec3, r: Mat4) -> bool;

/// `r` is what `glam::Mat4::from_scale` gives on `s`.
pub uninterp spec fn is_scaling(s: Vec3, r: Mat4) -> bool;

/// `r` is what `a * b` gives on `glam::Mat4`.
pub uninterp spec fn is_mat4_product(a: Mat4, b: Mat4, r: Mat4) -> bool;

/// The constant `glam::Vec3::ZERO`. Trusted: the result is that constant.
#[verifier::external_body]
pub(crate) fn vec3_zero() -> (r: Vec3)
    ensures
        is_vec3_zero(r),
{
    Vec3::ZERO
}

/// The constant `glam::Vec3::ONE`. Trusted: the result is that constant.
#[verifier::external_body]
pub(crate) fn vec3_one() -> (r: Vec3)
    ensures
        is_vec3_one(r),
{
    Vec3::ONE
}

/// The constant `glam::Mat4::ZERO`. Trusted: the result is that constant.
#[verifier::external_body]
pub(crate) fn mat4_zero() -> (r: Mat4)
    ensures
        is_mat4_zero(r),
{
    Mat4::ZERO
}

/// `glam`'s `Vec3 + Vec3`. Trusted: the result is what that addition returned.
#[verifier::external_body]
pub(crate) fn vec3_add(a: Vec3, b: Vec3) -> (r: Vec3)
    ensures
        is_vec3_sum(a, b, r),
{
    a + b
}

/// `glam`'s `Vec3 * Vec3`. Trusted: the result is what that component-wise
/// multiplication returned.
#[verifier::external_body]
pub(crate) fn vec3_mul(a: Vec3, b: Vec3) -> (r: Vec3)
    ensures
        is_vec3_product(a, b, r),
{
    a * b
}

/// `glam::Quat::from_rotation_x` on the first component of `angles`. Trusted:
/// the result is what that call returned.
#[verifier::external_body]
pub(crate) fn quat_roll(angles: Vec3) -> (r: Quat)
    ensures
        is_roll(angles, r),
{
    Quat::from_rotation_x(angles.x)
}

/// `glam::Quat::from_rotation_y` on the second component of `angles`. Trusted:
/// the result is what that call returned.
#[verifier::external_body]
pub(crate) fn quat_pitch(angles: Vec3) -> (r: Quat)
    ensures
        is_pitch(angles, r),
{
    Quat::from_rotation_y(angles.y)
}

/// `glam::Quat::from_rotation_z` on the third component of `angles`. Trusted:
/// the result is what that call returned.
#[verifier::external_body]
pub(crate) fn quat_yaw(angles: Vec3) -> (r: Quat)
    ensures
        is_yaw(angles, r),
{
    Quat::from_rotation_z(angles.z)
}

/// `glam`'s `Quat * Quat`. Trusted: the result is what that multiplication
/// returned.
#[verifier::external_body]
pub(crate) fn quat_mul(a: Quat, b: Quat) -> (r: Quat)
    ensures
        is_quat_product(a, b, r),
{
    a * b
}

/// `glam::Quat::normalize`. Trusted: the result is what that call returned.
/// `glam` asserts that the quaternion is not of length zero only when it is
/// built with its `glam-assert` features, which this library does not turn
/// on; without them the call returns for every argument.
#[verifier::external_body]
pub(crate) fn quat_normalize(q: Quat) -> (r: Quat)
    ensures
        is_quat_normalized(q, r),
{
    q.normalize()
}

/// `glam::Mat4::from_rotation_translation`. Trusted: the result is what that
/// call returned. `glam` asserts that the rotation is normalized only when it
/// is built with its `glam-assert` features, which this library does not turn
/// on; without them the call returns for every argument.
#[verifier::external_body]
pub(crate) fn mat4_rotation_translation(q: Quat, t: Vec3) -> (r: Mat4)
    ensures
        is_rotation_translation(q, t, r),
{
    Mat4::from_rotation_translation(q, t)
}

/// `glam::Mat4::from_scale`. Trusted: the result is what that call returned.
/// `glam` asserts that the scale is not zero only when it is built with its
/// `glam-assert` features, which this library does not turn on; without them
/// the call returns for every argument.
#[verifier::external_body]
pub(crate) fn mat4_scaling(s: Vec3) -> (r: Mat4)
    ensures
        is_scaling(s, r),
{
    Mat4::from_scale(s)
}

/// `glam`'s `Mat4 * Mat4`. Trusted: the result is what that multiplication
/// returned.
#[verifier::external_body]
pub(crate) fn mat4_mul(a: Mat4, b: Mat4) -> (r: Mat4)
    ensures
        is_mat4_product(a, b, r),
{
    a * b
}

} // verus!
