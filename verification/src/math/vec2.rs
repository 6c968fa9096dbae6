//! 2D vectors over Q16.16 fixed-point numbers.
//!
//! Sums, differences and scalings wrap componentwise like the scalars they
//! are made of. Products of two vectors and lengths are computed exactly in
//! a wide intermediate and rounded once.

use super::fixed_point::{isqrt, isqrt_u128, scale_down, wrap32, wrap_wide, FixedPoint};
use core::ops::Neg;
use vstd::prelude::*;

verus! {

/// 2D Vector
#[derive(Clone, Copy, Debug, PartialEq, Eq, Structural, Hash)]
pub struct Vec2 {
    pub x: FixedPoint,
    pub y: FixedPoint,
}

/// Exact squared length of the integer vector `(dx, dy)`.
pub open spec fn norm_sq(dx: int, dy: int) -> int {
    dx * dx + dy * dy
}

impl Vec2 {
    pub open spec fn spec_zero() -> Vec2 {
        Vec2 { x: FixedPoint(0), y: FixedPoint(0) }
    }

    pub open spec fn spec_up() -> Vec2 {
        Vec2 { x: FixedPoint(0), y: FixedPoint(-65536i32) }
    }

    pub open spec fn spec_add(self, other: Vec2) -> Vec2 {
        Vec2 { x: self.x.spec_add(other.x), y: self.y.spec_add(other.y) }
    }

    pub open spec fn spec_sub(self, other: Vec2) -> Vec2 {
        Vec2 { x: self.x.spec_sub(other.x), y: self.y.spec_sub(other.y) }
    }

    pub open spec fn spec_neg(self) -> Vec2 {
        Vec2 { x: self.x.spec_neg(), y: self.y.spec_neg() }
    }

    /// Each component multiplied by `s`.
    pub open spec fn spec_scale(self, s: FixedPoint) -> Vec2 {
        Vec2 { x: self.x.spec_mul(s), y: self.y.spec_mul(s) }
    }

    /// Each component divided by `s`.
    pub open spec fn spec_shrink(self, s: FixedPoint) -> Vec2 {
        Vec2 { x: self.x.spec_div(s), y: self.y.spec_div(s) }
    }

    /// The exact dot product, rounded down to Q16.16 and wrapped.
    pub open spec fn spec_dot(self, other: Vec2) -> FixedPoint {
        FixedPoint::wrapped((self.x@ * other.x@ + self.y@ * other.y@) / 65536)
    }

    /// The exact cross product, rounded down to Q16.16 and wrapped.
    pub open spec fn spec_cross(self, other: Vec2) -> FixedPoint {
        FixedPoint::wrapped((self.x@ * other.y@ - self.y@ * other.x@) / 65536)
    }

    /// The exact Euclidean length, rounded down and wrapped.
    pub open spec fn spec_length(self) -> FixedPoint {
        FixedPoint::wrapped(isqrt(norm_sq(self.x@, self.y@)))
    }

    pub open spec fn spec_normalize(self) -> Vec2 {
        if self.spec_length()@ > 0 {
            self.spec_shrink(self.spec_length())
        } else {
            Vec2::spec_zero()
        }
    }

    pub open spec fn spec_min(self, other: Vec2) -> Vec2 {
        Vec2 { x: self.x.spec_min(other.x), y: self.y.spec_min(other.y) }
    }

    pub open spec fn spec_max(self, other: Vec2) -> Vec2 {
        Vec2 { x: self.x.spec_max(other.x), y: self.y.spec_max(other.y) }
    }

    /// The exact distance between two points, rounded down and wrapped.
    pub open spec fn spec_distance(self, other: Vec2) -> FixedPoint {
        FixedPoint::wrapped(isqrt(norm_sq(self.x@ - other.x@, self.y@ - other.y@)))
    }

    /// The exact squared distance between two points, rounded down to
    /// Q16.16 and wrapped.
    pub open spec fn spec_distance_squared(self, other: Vec2) -> FixedPoint {
        FixedPoint::wrapped(norm_sq(self.x@ - other.x@, self.y@ - other.y@) / 65536)
    }

    /// The vector (0, 0).
    #[verifier::when_used_as_spec(spec_zero)]
    pub fn zero() -> (r: Vec2)
        ensures
            r == Vec2::spec_zero(),
    {
        Vec2 { x: FixedPoint(0), y: FixedPoint(0) }
    }

    /// The vector (1, 1).
    pub fn one() -> (r: Vec2)
        ensures
            r == (Vec2 { x: FixedPoint(65536), y: FixedPoint(65536) }),
    {
        Vec2 { x: FixedPoint(65536), y: FixedPoint(65536) }
    }

    /// The vector (0, -1): screen coordinates grow downward.
    #[verifier::when_used_as_spec(spec_up)]
    pub fn up() -> (r: Vec2)
        ensures
            r == Vec2::spec_up(),
    {
        Vec2 { x: FixedPoint(0), y: FixedPoint(-65536) }
    }

    /// The vector (0, 1).
    pub fn down() -> (r: Vec2)
        ensures
            r == (Vec2 { x: FixedPoint(0), y: FixedPoint(65536) }),
    {
        Vec2 { x: FixedPoint(0), y: FixedPoint(65536) }
    }

    /// The vector (-1, 0).
    pub fn left() -> (r: Vec2)
        ensures
            r == (Vec2 { x: FixedPoint(-65536i32), y: FixedPoint(0) }),
    {
        Vec2 { x: FixedPoint(-65536), y: FixedPoint(0) }
    }

    /// The vector (1, 0).
    pub fn right() -> (r: Vec2)
        ensures
            r == (Vec2 { x: FixedPoint(65536), y: FixedPoint(0) }),
    {
        Vec2 { x: FixedPoint(65536), y: FixedPoint(0) }
    }

    #[inline]
    pub fn new(x: FixedPoint, y: FixedPoint) -> (r: Self)
        ensures
            r == (Vec2 { x, y }),
    {
        Vec2 { x, y }
    }

    #[inline]
    pub fn splat(v: FixedPoint) -> (r: Self)
        ensures
            r == (Vec2 { x: v, y: v }),
    {
        Vec2 { x: v, y: v }
    }

    #[inline]
    pub fn dot(self, other: Self) -> (r: FixedPoint)
        ensures
            r == self.spec_dot(other),
    {
        let p: i128 = wide_product(self.x, other.x) + wide_product(self.y, other.y);
        scale_down(p)
    }

    #[inline]
    pub fn cross(self, other: Self) -> (r: FixedPoint)
        ensures
            r == self.spec_cross(other),
    {
        let p: i128 = wide_product(self.x, other.y) - wide_product(self.y, other.x);
        scale_down(p)
    }

    #[inline]
    pub fn length_squared(self) -> (r: FixedPoint)
        ensures
            r == self.spec_dot(self),
    {
        self.dot(self)
    }

    #[inline]
    pub fn length(self) -> (r: FixedPoint)
        ensures
            r == self.spec_length(),
    {
        let n: u128 = wide_norm_sq(self.x.0 as i64, self.y.0 as i64);
        wrap_wide(isqrt_u128(n) as i128)
    }

    /// The vector of length one in the same direction; the zero vector
    /// where the length rounds down to zero or wraps below it.
    #[inline]
    pub fn normalize(self) -> (r: Self)
        ensures
            r == self.spec_normalize(),
    {
        let len: FixedPoint = self.length();
        if len.0 > 0 {
            self / len
        } else {
            Vec2::zero()
        }
    }

    /// The same as `normalize`: in fixed point the only length that is too
    /// small to divide by is zero itself.
    #[inline]
    pub fn normalize_or_zero(self) -> (r: Self)
        ensures
            r == self.spec_normalize(),
    {
        self.normalize()
    }

    #[inline]
    pub fn perpendicular(self) -> (r: Self)
        ensures
            r == (Vec2 { x: self.y.spec_neg(), y: self.x }),
    {
        Vec2 { x: self.y.neg(), y: self.x }
    }

    /// `self - normal * 2 * (self . normal)`
    #[inline]
    pub fn reflect(self, normal: Self) -> (r: Self)
        ensures
            r == self.spec_sub(
                normal.spec_scale(FixedPoint(131072)).spec_scale(self.spec_dot(normal)),
            ),
    {
        self - normal * FixedPoint(131072) * self.dot(normal)
    }

    /// `self + (other - self) * t`
    #[inline]
    pub fn lerp(self, other: Self, t: FixedPoint) -> (r: Self)
        ensures
            r == self.spec_add(other.spec_sub(self).spec_scale(t)),
    {
        self + (other - self) * t
    }

    #[inline]
    pub fn min(self, other: Self) -> (r: Self)
        ensures
            r == self.spec_min(other),
    {
        Vec2 { x: self.x.min(other.x), y: self.y.min(other.y) }
    }

    #[inline]
    pub fn max(self, other: Self) -> (r: Self)
        ensures
            r == self.spec_max(other),
    {
        Vec2 { x: self.x.max(other.x), y: self.y.max(other.y) }
    }

    #[inline]
    pub fn abs(self) -> (r: Self)
        ensures
            r == (Vec2 { x: self.x.spec_abs(), y: self.y.spec_abs() }),
    {
        Vec2 { x: self.x.abs(), y: self.y.abs() }
    }

    #[inline]
    pub fn clamp(self, min: Self, max: Self) -> (r: Self)
        ensures
            r == self.spec_max(min).spec_min(max),
    {
        self.max(min).min(max)
    }

    #[inline]
    pub fn distance(self, other: Self) -> (r: FixedPoint)
        ensures
            r == self.spec_distance(other),
    {
        let dx: i64 = self.x.0 as i64 - other.x.0 as i64;
        let dy: i64 = self.y.0 as i64 - other.y.0 as i64;
        wrap_wide(isqrt_u128(wide_norm_sq(dx, dy)) as i128)
    }

    #[inline]
    pub fn distance_squared(self, other: Self) -> (r: FixedPoint)
        ensures
            r == self.spec_distance_squared(other),
    {
        let dx: i64 = self.x.0 as i64 - other.x.0 as i64;
        let dy: i64 = self.y.0 as i64 - other.y.0 as i64;
        scale_down(wide_norm_sq(dx, dy) as i128)
    }
}

/// The exact product of two raw values.
pub(crate) fn wide_product(a: FixedPoint, b: FixedPoint) -> (p: i128)
    ensures
        p == a@ * b@,
        -0x4000_0000_0000_0000 <= p <= 0x4000_0000_0000_0000,
{
    let x: i128 = a.0 as i128;
    let y: i128 = b.0 as i128;
    assert(-0x4000_0000_0000_0000 <= x * y <= 0x4000_0000_0000_0000) by (nonlinear_arith)
        requires
            -0x8000_0000 <= x < 0x8000_0000,
            -0x8000_0000 <= y < 0x8000_0000,
    ;
    x * y
}

/// The exact squared length of `(dx, dy)`, for differences of raw values.
pub(crate) fn wide_norm_sq(dx: i64, dy: i64) -> (n: u128)
    requires
        -0x1_0000_0000 < dx < 0x1_0000_0000,
        -0x1_0000_0000 < dy < 0x1_0000_0000,
    ensures
        n == norm_sq(dx as int, dy as int),
        n < 0x2_0000_0000_0000_0000,
{
    let x: u128 = (if dx < 0 { -dx } else { dx }) as u128;
    let y: u128 = (if dy < 0 { -dy } else { dy }) as u128;
    assert(x * x < 0x1_0000_0000_0000_0000 && x * x == dx * dx) by (nonlinear_arith)
        requires
            0 <= x < 0x1_0000_0000,
            x == dx || x == -dx,
    ;
    assert(y * y < 0x1_0000_0000_0000_0000 && y * y == dy * dy) by (nonlinear_arith)
        requires
            0 <= y < 0x1_0000_0000,
            y == dy || y == -dy,
    ;
    x * x + y * y
}

impl core::ops::Add for Vec2 {
    type Output = Vec2;

    #[inline]
    fn add(self, other: Vec2) -> (r: Vec2)
        ensures
            r == self.spec_add(other),
    {
        Vec2 { x: self.x + other.x, y: self.y + other.y }
    }
}

impl vstd::std_specs::ops::AddSpecImpl for Vec2 {
    open spec fn obeys_add_spec() -> bool {
        true
    }

    open spec fn add_req(self, other: Vec2) -> bool {
        true
    }

    open spec fn add_spec(self, other: Vec2) -> Vec2 {
        self.spec_add(other)
    }
}

impl core::ops::Sub for Vec2 {
    type Output = Vec2;

    #[inline]
    fn sub(self, other: Vec2) -> (r: Vec2)
        ensures
            r == self.spec_sub(other),
    {
        Vec2 { x: self.x - other.x, y: self.y - other.y }
    }
}

impl vstd::std_specs::ops::SubSpecImpl for Vec2 {
    open spec fn obeys_sub_spec() -> bool {
        true
    }

    open spec fn sub_req(self, other: Vec2) -> bool {
        true
    }

    open spec fn sub_spec(self, other: Vec2) -> Vec2 {
        self.spec_sub(other)
    }
}

impl core::ops::Mul<FixedPoint> for Vec2 {
    type Output = Vec2;

    #[inline]
    fn mul(self, scalar: FixedPoint) -> (r: Vec2)
        ensures
            r == self.spec_scale(scalar),
    {
        Vec2 { x: self.x * scalar, y: self.y * scalar }
    }
}

impl vstd::std_specs::ops::MulSpecImpl<FixedPoint> for Vec2 {
    open spec fn obeys_mul_spec() -> bool {
        true
    }

    open spec fn mul_req(self, scalar: FixedPoint) -> bool {
        true
    }

    open spec fn mul_spec(self, scalar: FixedPoint) -> Vec2 {
        self.spec_scale(scalar)
    }
}

impl core::ops::Mul<Vec2> for FixedPoint {
    type Output = Vec2;

    #[inline]
    fn mul(self, vec: Vec2) -> (r: Vec2)
        ensures
            r == (Vec2 { x: self.spec_mul(vec.x), y: self.spec_mul(vec.y) }),
    {
        Vec2 { x: self * vec.x, y: self * vec.y }
    }
}

impl vstd::std_specs::ops::MulSpecImpl<Vec2> for FixedPoint {
    open spec fn obeys_mul_spec() -> bool {
        true
    }

    open spec fn mul_req(self, vec: Vec2) -> bool {
        true
    }

    open spec fn mul_spec(self, vec: Vec2) -> Vec2 {
        Vec2 { x: self.spec_mul(vec.x), y: self.spec_mul(vec.y) }
    }
}

impl core::ops::Div<FixedPoint> for Vec2 {
    type Output = Vec2;

    #[inline]
    fn div(self, scalar: FixedPoint) -> (r: Vec2)
        ensures
            r == self.spec_shrink(scalar),
    {
        Vec2 { x: self.x / scalar, y: self.y / scalar }
    }
}

impl vstd::std_specs::ops::DivSpecImpl<FixedPoint> for Vec2 {
    open spec fn obeys_div_spec() -> bool {
        true
    }

    open spec fn div_req(self, scalar: FixedPoint) -> bool {
        true
    }

    open spec fn div_spec(self, scalar: FixedPoint) -> Vec2 {
        self.spec_shrink(scalar)
    }
}

impl core::ops::Neg for Vec2 {
    type Output = Vec2;

    #[inline]
    fn neg(self) -> (r: Vec2)
        ensures
            r == self.spec_neg(),
    {
        Vec2 { x: self.x.neg(), y: self.y.neg() }
    }
}

impl vstd::std_specs::ops::NegSpecImpl for Vec2 {
    open spec fn obeys_neg_spec() -> bool {
        true
    }

    open spec fn neg_req(self) -> bool {
        true
    }

    open spec fn neg_spec(self) -> Vec2 {
        self.spec_neg()
    }
}

impl core::ops::AddAssign for Vec2 {
    #[inline]
    fn add_assign(&mut self, other: Vec2)
        ensures
            *final(self) == old(self).spec_add(other),
    {
        self.x = self.x + other.x;
        self.y = self.y + other.y;
    }
}

impl core::ops::SubAssign for Vec2 {
    #[inline]
    fn sub_assign(&mut self, other: Vec2)
        ensures
            *final(self) == old(self).spec_sub(other),
    {
        self.x = self.x - other.x;
        self.y = self.y - other.y;
    }
}

impl core::ops::MulAssign<FixedPoint> for Vec2 {
    #[inline]
    fn mul_assign(&mut self, scalar: FixedPoint)
        ensures
            *final(self) == old(self).spec_scale(scalar),
    {
        self.x = self.x * scalar;
        self.y = self.y * scalar;
    }
}

impl core::ops::DivAssign<FixedPoint> for Vec2 {
    #[inline]
    fn div_assign(&mut self, scalar: FixedPoint)
        ensures
            *final(self) == old(self).spec_shrink(scalar),
    {
        self.x = self.x / scalar;
        self.y = self.y / scalar;
    }
}

impl Default for Vec2 {
    fn default() -> (r: Vec2)
        ensures
            r == Vec2::spec_zero(),
    {
        Vec2::zero()
    }
}

impl From<(FixedPoint, FixedPoint)> for Vec2 {
    fn from(pair: (FixedPoint, FixedPoint)) -> (r: Vec2)
        ensures
            r == (Vec2 { x: pair.0, y: pair.1 }),
    {
        Vec2 { x: pair.0, y: pair.1 }
    }
}

impl vstd::std_specs::convert::FromSpecImpl<(FixedPoint, FixedPoint)> for Vec2 {
    open spec fn obeys_from_spec() -> bool {
        true
    }

    open spec fn from_spec(pair: (FixedPoint, FixedPoint)) -> Vec2 {
        Vec2 { x: pair.0, y: pair.1 }
    }
}

impl From<[FixedPoint; 2]> for Vec2 {
    fn from(pair: [FixedPoint; 2]) -> (r: Vec2)
        ensures
            r == (Vec2 { x: pair@[0], y: pair@[1] }),
    {
        Vec2 { x: pair[0], y: pair[1] }
    }
}

impl vstd::std_specs::convert::FromSpecImpl<[FixedPoint; 2]> for Vec2 {
    open spec fn obeys_from_spec() -> bool {
        true
    }

    open spec fn from_spec(pair: [FixedPoint; 2]) -> Vec2 {
        Vec2 { x: pair@[0], y: pair@[1] }
    }
}

} // verus!
