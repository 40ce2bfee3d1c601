//! Scalar and 3-vector single-precision arithmetic, carried by bit pattern.
//!
//! Numeric values are held as the `u32` bit patterns of IEEE-754
//! single-precision numbers.  Every arithmetic operation is performed by
//! glam through a small trusted wrapper, and the result of each operation
//! is given a name by an uninterpreted spec function, so that everything
//! built on top of these operations has an exact functional description.

use vstd::prelude::*;

verus! {

/// A 3-vector of single-precision values, each component carried as its
/// IEEE-754 bit pattern.
#[derive(Clone, Copy, Debug, PartialEq, Eq, Structural)]
pub struct V3 {
    pub x: u32,
    pub y: u32,
    pub z: u32,
}

/// The sign bit of a single-precision bit pattern.
pub const SIGN_MASK: u32 = 0x8000_0000;

/// Bit pattern of 0.0.
pub const F_ZERO: u32 = 0;

/// Bit pattern of 1.0.
pub const F_ONE: u32 = 0x3F80_0000;

/// Bit pattern of -1.0.
pub const F_NEG_ONE: u32 = 0xBF80_0000;

/// Bit pattern of 0.5.
pub const F_HALF: u32 = 0x3F00_0000;

/// Bit pattern of 2.0.
pub const F_TWO: u32 = 0x4000_0000;

/// Bit pattern of the full turn, two pi.
pub const F_TAU: u32 = 0x40C9_0FDB;

/// Bit pattern of two to the minus sixteenth power.
pub const F_TWO_NEG16: u32 = 0x3780_0000;

/// The zero vector.
pub open spec fn v3_zero() -> V3 {
    V3 { x: F_ZERO, y: F_ZERO, z: F_ZERO }
}

/// The vector whose first component carries `a` and whose other
/// components carry 0.0; used to run scalar arithmetic through the
/// componentwise vector operations.
pub open spec fn lane(a: u32) -> V3 {
    V3 { x: a, y: F_ZERO, z: F_ZERO }
}

pub fn v3_zero_e() -> (r: V3)
    ensures
        r == v3_zero(),
{
    V3 { x: F_ZERO, y: F_ZERO, z: F_ZERO }
}

pub uninterp spec fn vadd(a: V3, b: V3) -> V3;

pub uninterp spec fn vsub(a: V3, b: V3) -> V3;

pub uninterp spec fn vcross(a: V3, b: V3) -> V3;

pub uninterp spec fn vdot(a: V3, b: V3) -> u32;

pub uninterp spec fn vscale(s: u32, v: V3) -> V3;

pub uninterp spec fn vdivs(v: V3, s: u32) -> V3;

pub uninterp spec fn vnormalize(v: V3) -> V3;

pub uninterp spec fn vlength(v: V3) -> u32;

pub uninterp spec fn flt(a: u32, b: u32) -> bool;

pub uninterp spec fn float_of_int(x: u64) -> u32;

pub uninterp spec fn f32_of_f64(x: u64) -> u32;

/// Relies on glam's componentwise `Add` for `Vec3`.
#[verifier::external_body]
pub(crate) fn vadd_w(a: V3, b: V3) -> (r: V3)
    ensures
        r == vadd(a, b),
{
    let va = glam::Vec3::new(bytemuck::cast(a.x), bytemuck::cast(a.y), bytemuck::cast(a.z));
    let vb = glam::Vec3::new(bytemuck::cast(b.x), bytemuck::cast(b.y), bytemuck::cast(b.z));
    let vc = va + vb;
    V3 { x: bytemuck::cast(vc.x), y: bytemuck::cast(vc.y), z: bytemuck::cast(vc.z) }
}

/// Relies on glam's componentwise `Sub` for `Vec3`.
#[verifier::external_body]
pub(crate) fn vsub_w(a: V3, b: V3) -> (r: V3)
    ensures
        r == vsub(a, b),
{
    let va = glam::Vec3::new(bytemuck::cast(a.x), bytemuck::cast(a.y), bytemuck::cast(a.z));
    let vb = glam::Vec3::new(bytemuck::cast(b.x), bytemuck::cast(b.y), bytemuck::cast(b.z));
    let vc = va - vb;
    V3 { x: bytemuck::cast(vc.x), y: bytemuck::cast(vc.y), z: bytemuck::cast(vc.z) }
}

/// Relies on `glam::Vec3::cross`.
#[verifier::external_body]
pub(crate) fn vcross_w(a: V3, b: V3) -> (r: V3)
    ensures
        r == vcross(a, b),
{
    let va = glam::Vec3::new(bytemuck::cast(a.x), bytemuck::cast(a.y), bytemuck::cast(a.z));
    let vb = glam::Vec3::new(bytemuck::cast(b.x), bytemuck::cast(b.y), bytemuck::cast(b.z));
    let vc = va.cross(vb);
    V3 { x: bytemuck::cast(vc.x), y: bytemuck::cast(vc.y), z: bytemuck::cast(vc.z) }
}

/// Relies on `glam::Vec3::dot`.
#[verifier::external_body]
pub(crate) fn vdot_w(a: V3, b: V3) -> (r: u32)
    ensures
        r == vdot(a, b),
{
    let va = glam::Vec3::new(bytemuck::cast(a.x), bytemuck::cast(a.y), bytemuck::cast(a.z));
    let vb = glam::Vec3::new(bytemuck::cast(b.x), bytemuck::cast(b.y), bytemuck::cast(b.z));
    bytemuck::cast(va.dot(vb))
}

/// Relies on glam's componentwise `Mul` for `Vec3`, with the scalar
/// broadcast by `Vec3::splat`; this is how glam itself multiplies a
/// vector by a scalar.
#[verifier::external_body]
pub(crate) fn vscale_w(s: u32, v: V3) -> (r: V3)
    ensures
        r == vscale(s, v),
{
    let vs = glam::Vec3::splat(bytemuck::cast(s));
    let vv = glam::Vec3::new(bytemuck::cast(v.x), bytemuck::cast(v.y), bytemuck::cast(v.z));
    let vc = vs * vv;
    V3 { x: bytemuck::cast(vc.x), y: bytemuck::cast(vc.y), z: bytemuck::cast(vc.z) }
}

/// Relies on glam's componentwise `Div` for `Vec3`, with the scalar
/// broadcast by `Vec3::splat`; this is how glam itself divides a vector
/// by a scalar.
#[verifier::external_body]
pub(crate) fn vdivs_w(v: V3, s: u32) -> (r: V3)
    ensures
        r == vdivs(v, s),
{
    let vv = glam::Vec3::new(bytemuck::cast(v.x), bytemuck::cast(v.y), bytemuck::cast(v.z));
    let vs = glam::Vec3::splat(bytemuck::cast(s));
    let vc = vv / vs;
    V3 { x: bytemuck::cast(vc.x), y: bytemuck::cast(vc.y), z: bytemuck::cast(vc.z) }
}

/// Relies on `glam::Vec3::normalize`: scales the vector by the
/// reciprocal of its length.  With glam's default features it never
/// panics; a zero or non-finite input yields a non-finite result.
#[verifier::external_body]
pub(crate) fn vnormalize_w(v: V3) -> (r: V3)
    ensures
        r == vnormalize(v),
{
    let vv = glam::Vec3::new(bytemuck::cast(v.x), bytemuck::cast(v.y), bytemuck::cast(v.z));
    let vc = vv.normalize();
    V3 { x: bytemuck::cast(vc.x), y: bytemuck::cast(vc.y), z: bytemuck::cast(vc.z) }
}

/// Relies on `glam::Vec3::length`: the square root of the dot product
/// of the vector with itself.
#[verifier::external_body]
pub(crate) fn vlength_w(v: V3) -> (r: u32)
    ensures
        r == vlength(v),
{
    let vv = glam::Vec3::new(bytemuck::cast(v.x), bytemuck::cast(v.y), bytemuck::cast(v.z));
    bytemuck::cast(vv.length())
}

/// Relies on `glam::Vec3::cmplt`, the componentwise strict order on
/// single-precision values; only the first lane is used.
#[verifier::external_body]
pub(crate) fn flt_w(a: u32, b: u32) -> (r: bool)
    ensures
        r == flt(a, b),
{
    let va = glam::Vec3::new(bytemuck::cast(a), bytemuck::cast(0u32), bytemuck::cast(0u32));
    let vb = glam::Vec3::new(bytemuck::cast(b), bytemuck::cast(0u32), bytemuck::cast(0u32));
    va.cmplt(vb).x
}

/// Relies on `glam::U64Vec3::as_vec3`, the numeric conversion of an
/// unsigned integer to the nearest single-precision value; only the
/// first lane is used.
#[verifier::external_body]
pub(crate) fn float_of_int_w(x: u64) -> (r: u32)
    ensures
        r == float_of_int(x),
{
    let v = glam::U64Vec3::new(x, 0, 0).as_vec3();
    bytemuck::cast(v.x)
}

/// Relies on `glam::DVec3::as_vec3`, the numeric demotion of a
/// double-precision value to single precision; only the first lane is
/// used.
#[verifier::external_body]
pub(crate) fn f32_of_f64_w(x: u64) -> (r: u32)
    ensures
        r == f32_of_f64(x),
{
    let v = glam::DVec3::new(bytemuck::cast(x), bytemuck::cast(0u64), bytemuck::cast(0u64));
    bytemuck::cast(v.as_vec3().x)
}

/// Relies on `glam::Vec2::from_angle`, which returns the cosine and the
/// sine of the angle.  The standard library's trigonometry behind it has
/// unspecified precision, so nothing is promised of the result.
#[verifier::external_body]
pub(crate) fn cos_sin_w(theta: u32) -> (u32, u32) {
    let v = glam::Vec2::from_angle(bytemuck::cast(theta));
    (bytemuck::cast(v.x), bytemuck::cast(v.y))
}

/// Negation of a single-precision value: the sign bit flips, on every
/// input, including NaN.
pub open spec fn fneg(a: u32) -> u32 {
    a ^ SIGN_MASK
}

/// Componentwise negation.
pub open spec fn vneg(v: V3) -> V3 {
    V3 { x: fneg(v.x), y: fneg(v.y), z: fneg(v.z) }
}

pub fn fneg_e(a: u32) -> (r: u32)
    ensures
        r == fneg(a),
{
    a ^ SIGN_MASK
}

pub fn vneg_e(v: V3) -> (r: V3)
    ensures
        r == vneg(v),
{
    V3 { x: v.x ^ SIGN_MASK, y: v.y ^ SIGN_MASK, z: v.z ^ SIGN_MASK }
}

/// Scalar addition, run through the first lane of the vector addition.
pub open spec fn fadd(a: u32, b: u32) -> u32 {
    vadd(lane(a), lane(b)).x
}

/// Scalar multiplication, run through the first lane of the scaled vector.
pub open spec fn fmul(a: u32, b: u32) -> u32 {
    vscale(a, lane(b)).x
}

/// Scalar division, run through the first lane of the vector division.
pub open spec fn fdiv(a: u32, b: u32) -> u32 {
    vdivs(lane(a), b).x
}

pub fn lane_e(a: u32) -> (r: V3)
    ensures
        r == lane(a),
{
    V3 { x: a, y: F_ZERO, z: F_ZERO }
}

pub fn fadd_e(a: u32, b: u32) -> (r: u32)
    ensures
        r == fadd(a, b),
{
    vadd_w(lane_e(a), lane_e(b)).x
}

pub fn fmul_e(a: u32, b: u32) -> (r: u32)
    ensures
        r == fmul(a, b),
{
    vscale_w(a, lane_e(b)).x
}

pub fn fdiv_e(a: u32, b: u32) -> (r: u32)
    ensures
        r == fdiv(a, b),
{
    vdivs_w(lane_e(a), b).x
}

/// Whether the bit pattern denotes a NaN: the exponent is all ones and
/// the significand is not zero.
pub open spec fn is_nan_bits(a: u32) -> bool {
    (a & 0x7FFF_FFFF) > 0x7F80_0000
}

pub fn is_nan_bits_e(a: u32) -> (r: bool)
    ensures
        r == is_nan_bits(a),
{
    (a & 0x7FFF_FFFF) > 0x7F80_0000
}

/// The total order used to pick the best-aligned candidate pair: NaN
/// ranks above every number and equal to itself, and numbers compare as
/// usual.  This is the order a float-ordering newtype would give.
pub open spec fn of_ge(a: u32, b: u32) -> bool {
    if is_nan_bits(a) {
        true
    } else if is_nan_bits(b) {
        false
    } else {
        !flt(a, b)
    }
}

pub fn of_ge_e(a: u32, b: u32) -> (r: bool)
    ensures
        r == of_ge(a, b),
{
    if is_nan_bits_e(a) {
        true
    } else if is_nan_bits_e(b) {
        false
    } else {
        !flt_w(a, b)
    }
}

/// A key that orders single-precision bit patterns: ascending key order
/// is the standard total order on the values, with every NaN placed
/// beyond the infinity of its sign.
pub open spec fn sort_key(r: u32) -> u32 {
    if r & SIGN_MASK != 0 {
        !r
    } else {
        r | SIGN_MASK
    }
}

pub fn sort_key_e(r: u32) -> (k: u32)
    ensures
        k == sort_key(r),
{
    if r & SIGN_MASK != 0 {
        !r
    } else {
        r | SIGN_MASK
    }
}

} // verus!
