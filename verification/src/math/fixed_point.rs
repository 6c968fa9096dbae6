//! Q16.16 fixed-point numbers.
//!
//! A value is a signed 32-bit integer `raw` that stands for `raw / 65536`.
//! Every operation wraps modulo 2^32 instead of failing, so that a step of
//! the simulation never aborts and gives the same bits everywhere.

use core::cmp::Ordering;
use vstd::prelude::*;

verus! {

/// The representative of `x` modulo 2^32 in the range of a signed 32-bit
/// integer.
pub open spec fn wrap32(x: int) -> int {
    let m = x % 0x1_0000_0000;
    if m >= 0x8000_0000 {
        m - 0x1_0000_0000
    } else {
        m
    }
}

/// Quotient of `n` by `d` rounded toward zero (`d` must not be zero).
pub open spec fn trunc_div(n: int, d: int) -> int {
    if n >= 0 && d > 0 {
        n / d
    } else if n >= 0 {
        -(n / (-d))
    } else if d > 0 {
        -((-n) / d)
    } else {
        (-n) / (-d)
    }
}

/// Raw result of multiplying two raw Q16.16 values: the exact product,
/// scaled back by 2^16 rounding toward negative infinity, then wrapped.
pub open spec fn fx_mul(a: int, b: int) -> int {
    wrap32((a * b) / 65536)
}

/// Raw result of dividing two raw Q16.16 values: zero for a zero divisor,
/// otherwise the scaled quotient rounded toward zero, then wrapped.
pub open spec fn fx_div(a: int, b: int) -> int {
    if b == 0 {
        0
    } else {
        wrap32(trunc_div(a * 65536, b))
    }
}

/// 16.16 fixed-point number.
#[derive(Clone, Copy, Debug, PartialEq, Eq, Structural, Ord, Hash)]
pub struct FixedPoint(pub i32);

impl View for FixedPoint {
    type V = int;

    /// The raw 32-bit representation as a mathematical integer.
    open spec fn view(&self) -> int {
        self.0 as int
    }
}

impl FixedPoint {
    pub open spec fn spec_zero() -> FixedPoint {
        FixedPoint(0)
    }

    pub open spec fn spec_one() -> FixedPoint {
        FixedPoint(65536)
    }

    pub open spec fn spec_half() -> FixedPoint {
        FixedPoint(32768)
    }

    pub open spec fn spec_neg_one() -> FixedPoint {
        FixedPoint(-65536i32)
    }

    /// The number 0.
    #[verifier::when_used_as_spec(spec_zero)]
    pub fn zero() -> (r: FixedPoint)
        ensures
            r == FixedPoint(0),
    {
        FixedPoint(0)
    }

    /// The number 1.
    #[verifier::when_used_as_spec(spec_one)]
    pub fn one() -> (r: FixedPoint)
        ensures
            r == FixedPoint(65536),
    {
        FixedPoint(65536)
    }

    /// The number 1/2.
    #[verifier::when_used_as_spec(spec_half)]
    pub fn half() -> (r: FixedPoint)
        ensures
            r == FixedPoint(32768),
    {
        FixedPoint(32768)
    }

    /// The number -1.
    #[verifier::when_used_as_spec(spec_neg_one)]
    pub fn neg_one() -> (r: FixedPoint)
        ensures
            r == FixedPoint(-65536i32),
    {
        FixedPoint(-65536)
    }

    /// The value whose raw representation is `wrap32(x)`.
    pub open spec fn wrapped(x: int) -> FixedPoint {
        FixedPoint(wrap32(x) as i32)
    }

    pub open spec fn spec_add(self, other: FixedPoint) -> FixedPoint {
        FixedPoint::wrapped(self@ + other@)
    }

    pub open spec fn spec_sub(self, other: FixedPoint) -> FixedPoint {
        FixedPoint::wrapped(self@ - other@)
    }

    pub open spec fn spec_neg(self) -> FixedPoint {
        FixedPoint::wrapped(-self@)
    }

    pub open spec fn spec_mul(self, other: FixedPoint) -> FixedPoint {
        FixedPoint(fx_mul(self@, other@) as i32)
    }

    pub open spec fn spec_div(self, other: FixedPoint) -> FixedPoint {
        FixedPoint(fx_div(self@, other@) as i32)
    }

    pub open spec fn spec_min(self, other: FixedPoint) -> FixedPoint {
        if self@ <= other@ {
            self
        } else {
            other
        }
    }

    pub open spec fn spec_max(self, other: FixedPoint) -> FixedPoint {
        if self@ >= other@ {
            self
        } else {
            other
        }
    }

    pub open spec fn spec_abs(self) -> FixedPoint {
        FixedPoint::wrapped(if self@ < 0 { -self@ } else { self@ })
    }

    pub open spec fn spec_floor(self) -> FixedPoint {
        FixedPoint((self@ - self@ % 65536) as i32)
    }

    pub open spec fn spec_ceil(self) -> FixedPoint {
        FixedPoint::wrapped((self@ + 65535) - (self@ + 65535) % 65536)
    }

    pub open spec fn spec_lerp(self, other: FixedPoint, t: FixedPoint) -> FixedPoint {
        self.spec_add(other.spec_sub(self).spec_mul(t))
    }

    #[inline]
    pub fn from_raw(raw: i32) -> (r: Self)
        ensures
            r@ == raw,
            r == FixedPoint(raw),
    {
        FixedPoint(raw)
    }

    #[inline]
    pub fn raw(self) -> (r: i32)
        ensures
            r == self@,
    {
        self.0
    }

    /// The whole number `n`; whole numbers outside -32768..=32767 wrap.
    #[inline]
    pub fn from_int(n: i32) -> (r: Self)
        ensures
            r == FixedPoint::wrapped(n * 65536),
            -32768 <= n <= 32767 ==> r@ == n * 65536,
    {
        let raw: i32 = n.wrapping_mul(65536);
        proof {
            lemma_wrap32_range(n * 65536);
        }
        FixedPoint(raw)
    }

    /// The whole part, rounded toward negative infinity.
    #[inline]
    pub fn to_int(self) -> (r: i32)
        ensures
            r == self@ / 65536,
    {
        let x: i32 = self.0;
        assert(x >> 16u32 == x / 65536) by (bit_vector);
        x >> 16u32
    }

    /// The fractional part, in `[0, 1)`.
    #[inline]
    pub fn frac(self) -> (r: Self)
        ensures
            r@ == self@ % 65536,
    {
        let x: i32 = self.0;
        assert(x & 65535 == x % 65536) by (bit_vector);
        FixedPoint(x & 65535)
    }

    /// The largest whole number that is not above `self`.
    #[inline]
    pub fn floor(self) -> (r: Self)
        ensures
            r == self.spec_floor(),
            r@ == self@ - self@ % 65536,
    {
        let x: i32 = self.0;
        assert(x & !65535i32 == x - x % 65536) by (bit_vector);
        FixedPoint(x & !65535i32)
    }

    /// The smallest whole number that is not below `self`; wraps where that
    /// number is 32768.
    #[inline]
    pub fn ceil(self) -> (r: Self)
        ensures
            r == self.spec_ceil(),
    {
        let x: i32 = self.0;
        let f: i32 = self.floor().0;
        if f == x {
            self
        } else {
            FixedPoint(f.wrapping_add(65536))
        }
    }

    /// The absolute value; the most negative value is its own absolute value.
    #[inline]
    pub fn abs(self) -> (r: Self)
        ensures
            r == self.spec_abs(),
    {
        if self.0 < 0 {
            FixedPoint(0i32.wrapping_sub(self.0))
        } else {
            self
        }
    }

    #[inline]
    pub fn min(self, other: Self) -> (r: Self)
        ensures
            r == self.spec_min(other),
    {
        if self.0 <= other.0 {
            self
        } else {
            other
        }
    }

    #[inline]
    pub fn max(self, other: Self) -> (r: Self)
        ensures
            r == self.spec_max(other),
    {
        if self.0 >= other.0 {
            self
        } else {
            other
        }
    }

    /// `self` raised to at least `min`, then lowered to at most `max`.
    #[inline]
    pub fn clamp(self, min: Self, max: Self) -> (r: Self)
        ensures
            r == self.spec_max(min).spec_min(max),
            min@ <= max@ ==> min@ <= r@ <= max@,
            min@ <= self@ <= max@ ==> r == self,
    {
        self.max(min).min(max)
    }

    /// Multiply with full precision (uses 64-bit intermediate)
    #[inline]
    pub fn mul_full(self, other: Self) -> (r: Self)
        ensures
            r == self.spec_mul(other),
            r@ == fx_mul(self@, other@),
    {
        let a: i64 = self.0 as i64;
        let b: i64 = other.0 as i64;
        assert(-0x4000_0000_0000_0000 <= a * b <= 0x4000_0000_0000_0000) by (nonlinear_arith)
            requires
                -0x8000_0000 <= a < 0x8000_0000,
                -0x8000_0000 <= b < 0x8000_0000,
        ;
        let p: i64 = a * b;
        let q: i64 = p >> 16u32;
        assert(p >> 16u32 == p / 65536) by (bit_vector);
        FixedPoint(narrow(q))
    }

    /// Divide with full precision. A zero divisor gives zero: a step of the
    /// simulation never stops on a degenerate divisor, at the price of a
    /// result that is not a quotient.
    #[inline]
    pub fn div_full(self, other: Self) -> (r: Self)
        ensures
            r == self.spec_div(other),
            r@ == fx_div(self@, other@),
    {
        if other.0 == 0 {
            return FixedPoint(0);
        }
        ratio(self.0 as i64, other.0 as i64)
    }

    /// One over `self`, at most the largest number, for a positive
    /// `self`; zero for one that is not positive. What comes back for a
    /// positive number is positive, never zero.
    #[inline]
    pub fn saturating_recip(self) -> (r: Self)
        ensures
            r@ == saturating_recip(self@),
            self@ > 0 ==> r@ > 0,
            self@ <= 0 ==> r@ == 0,
            self@ >= 3 ==> r == FixedPoint(65536).spec_div(self),
    {
        if self.0 <= 0 {
            return FixedPoint(0);
        }
        let d: i64 = self.0 as i64;
        let q: i64 = 0x1_0000_0000i64 / d;
        proof {
            vstd::arithmetic::div_mod::lemma_fundamental_div_mod(0x1_0000_0000, d as int);
            assert(q >= 2) by (nonlinear_arith)
                requires
                    0x1_0000_0000 == d * q + 0x1_0000_0000int % (d as int),
                    0 <= 0x1_0000_0000int % (d as int) < d,
                    0 < d < 0x8000_0000,
            ;
            if d >= 3 {
                assert(q < 0x8000_0000) by (nonlinear_arith)
                    requires
                        0x1_0000_0000 == d * q + 0x1_0000_0000int % (d as int),
                        0 <= 0x1_0000_0000int % (d as int),
                        d >= 3,
                ;
                assert(65536int * 65536 == 0x1_0000_0000);
            }
        }
        clamp_wide(q)
    }

    /// Four fifths of `self`, rounded toward negative infinity.
    #[inline]
    pub fn four_fifths(self) -> (r: Self)
        ensures
            r@ == four_fifths(self@),
    {
        let n: i64 = self.0 as i64 * 4;
        let q: i64 = if n >= 0 {
            n / 5
        } else {
            -((-n + 4) / 5)
        };
        FixedPoint(q as i32)
    }

    /// Linear interpolation
    #[inline]
    pub fn lerp(self, other: Self, t: Self) -> (r: Self)
        ensures
            r == self.spec_lerp(other, t),
    {
        self + (other - self).mul_full(t)
    }
}

/// The low 32 bits of `q`, read as a signed number.
fn narrow(q: i64) -> (r: i32)
    ensures
        r == wrap32(q as int),
{
    assert(q as i32 == (if (q % 0x1_0000_0000) >= 0x8000_0000 {
        q % 0x1_0000_0000 - 0x1_0000_0000
    } else {
        (q % 0x1_0000_0000) as int
    })) by (bit_vector);
    q as i32
}

/// The low 32 bits of a wide intermediate, read as a signed number.
pub(crate) fn wrap_wide(q: i128) -> (r: FixedPoint)
    ensures
        r == FixedPoint::wrapped(q as int),
        r@ == wrap32(q as int),
{
    assert(q as i32 == (if (q % 0x1_0000_0000) >= 0x8000_0000 {
        q % 0x1_0000_0000 - 0x1_0000_0000
    } else {
        (q % 0x1_0000_0000) as int
    })) by (bit_vector);
    FixedPoint(q as i32)
}

/// Scales an exact product of two raw values back to Q16.16: divides by
/// 2^16 rounding toward negative infinity, then wraps.
pub(crate) fn scale_down(p: i128) -> (r: FixedPoint)
    ensures
        r == FixedPoint::wrapped((p as int) / 65536),
        r@ == wrap32((p as int) / 65536),
{
    assert(p >> 16u32 == p / 65536) by (bit_vector);
    wrap_wide(p >> 16u32)
}

/// The quotient `n / d` of two raw quantities as a Q16.16 number: scaled by
/// 2^16, rounded toward zero, then wrapped.
pub(crate) fn ratio(n: i64, d: i64) -> (r: FixedPoint)
    requires
        d != 0,
        -0x2_0000_0000 <= n <= 0x2_0000_0000,
        -0x2_0000_0000 <= d <= 0x2_0000_0000,
    ensures
        r == FixedPoint::wrapped(trunc_div(n * 65536, d as int)),
        r@ == wrap32(trunc_div(n * 65536, d as int)),
{
    let a: i64 = if n < 0 { -n } else { n };
    let b: i64 = if d < 0 { -d } else { d };
    let m: i64 = a * 65536 / b;
    let q: i64 = if (n < 0) != (d < 0) { -m } else { m };
    assert(q == trunc_div(n * 65536, d as int));
    FixedPoint(narrow(q))
}

/// Half of `v`, rounded toward negative infinity.
pub(crate) fn half_floor(v: i64) -> (r: i64)
    ensures
        r == v / 2,
{
    assert(v >> 1u32 == v / 2) by (bit_vector);
    v >> 1u32
}

/// `v` kept within the range of raw values: the nearest end of the range
/// where it lies outside.
pub open spec fn clamp32(v: int) -> int {
    if v < -0x8000_0000 {
        -0x8000_0000
    } else if v > 0x7fff_ffff {
        0x7fff_ffff
    } else {
        v
    }
}

/// The value of the range that is nearest to the wide intermediate `v`.
pub(crate) fn clamp_wide(v: i64) -> (r: FixedPoint)
    ensures
        r@ == clamp32(v as int),
        r == FixedPoint(clamp32(v as int) as i32),
{
    if v < -0x8000_0000 {
        FixedPoint(-0x8000_0000)
    } else if v > 0x7fff_ffff {
        FixedPoint(0x7fff_ffff)
    } else {
        FixedPoint(v as i32)
    }
}

/// The raw inverse of a raw value: `1 / v` rounded down for a positive
/// `v`, but no more than the largest number; zero for a `v` that is not
/// positive.
pub open spec fn saturating_recip(v: int) -> int {
    if v <= 0 {
        0
    } else {
        clamp32(0x1_0000_0000int / v)
    }
}

/// Four fifths of a raw value, rounded toward negative infinity.
pub open spec fn four_fifths(v: int) -> int {
    (v * 4) / 5
}

/// True when `s` is the square root of `n` rounded down.
pub open spec fn is_isqrt(n: int, s: int) -> bool {
    0 <= s && s * s <= n < (s + 1) * (s + 1)
}

/// The square root of `n` rounded down, for `n >= 0`.
pub open spec fn isqrt(n: int) -> int {
    choose|s: int| is_isqrt(n, s)
}

/// Only one number is the rounded-down square root of `n`.
pub proof fn lemma_isqrt_unique(n: int, s: int)
    requires
        is_isqrt(n, s),
    ensures
        isqrt(n) == s,
{
    let t = isqrt(n);
    assert(is_isqrt(n, t));
    assert(t == s) by (nonlinear_arith)
        requires
            0 <= s,
            s * s <= n < (s + 1) * (s + 1),
            0 <= t,
            t * t <= n < (t + 1) * (t + 1),
    ;
}

/// Every number that is not negative has a rounded-down square root.
pub proof fn lemma_isqrt(n: int)
    requires
        n >= 0,
    ensures
        is_isqrt(n, isqrt(n)),
    decreases n,
{
    if n == 0 {
        assert(is_isqrt(0, 0));
    } else {
        lemma_isqrt(n - 1);
        let s = isqrt(n - 1);
        if (s + 1) * (s + 1) <= n {
            assert((s + 2) * (s + 2) > n) by (nonlinear_arith)
                requires
                    0 <= s,
                    (s + 1) * (s + 1) > n - 1,
            ;
            assert(is_isqrt(n, s + 1));
        } else {
            assert(is_isqrt(n, s));
        }
    }
}

/// The quotient rounded toward zero, times the divisor, stays within one
/// divisor below the dividend in size, and has its sign.
pub proof fn lemma_trunc_div(n: int, d: int)
    requires
        d > 0,
    ensures
        n >= 0 ==> 0 <= trunc_div(n, d) * d <= n < (trunc_div(n, d) + 1) * d,
        n < 0 ==> 0 >= trunc_div(n, d) * d >= n > (trunc_div(n, d) - 1) * d,
{
    if n >= 0 {
        vstd::arithmetic::div_mod::lemma_fundamental_div_mod(n, d);
        let q = n / d;
        assert(q * d == d * q && (q + 1) * d == d * q + d) by (nonlinear_arith);
        vstd::arithmetic::div_mod::lemma_div_pos_is_pos(n, d);
        assert(0 <= q * d) by (nonlinear_arith)
            requires
                0 <= q,
                0 < d,
        ;
    } else {
        vstd::arithmetic::div_mod::lemma_fundamental_div_mod(-n, d);
        let q = (-n) / d;
        assert((-q) * d == -(d * q) && (-q - 1) * d == -(d * q) - d) by (nonlinear_arith);
        vstd::arithmetic::div_mod::lemma_div_pos_is_pos(-n, d);
        assert(0 <= d * q) by (nonlinear_arith)
            requires
                0 <= q,
                0 < d,
        ;
    }
}

/// Square root rounded down.
pub fn isqrt_u128(n: u128) -> (s: u64)
    ensures
        is_isqrt(n as int, s as int),
        s == isqrt(n as int),
{
    let mut lo: u128 = 0;
    let mut hi: u128 = 0x1_0000_0000_0000_0000;
    assert(0x1_0000_0000_0000_0000int * 0x1_0000_0000_0000_0000int
        == 0x1_0000_0000_0000_0000_0000_0000_0000_0000int) by (nonlinear_arith);
    while hi - lo > 1
        invariant
            lo < hi <= 0x1_0000_0000_0000_0000,
            lo * lo <= n < hi * hi,
        decreases hi - lo,
    {
        let mid: u128 = lo + (hi - lo) / 2;
        assert(mid * mid <= 0xffff_ffff_ffff_ffffint * 0xffff_ffff_ffff_ffffint)
            by (nonlinear_arith)
            requires
                0 <= mid <= 0xffff_ffff_ffff_ffff,
        ;
        assert(0xffff_ffff_ffff_ffffint * 0xffff_ffff_ffff_ffffint
            < 0x1_0000_0000_0000_0000_0000_0000_0000_0000int) by (nonlinear_arith);
        if mid * mid <= n {
            lo = mid;
        } else {
            hi = mid;
        }
    }
    proof {
        assert(hi == lo + 1);
        lemma_isqrt_unique(n as int, lo as int);
    }
    lo as u64
}

impl core::ops::Add for FixedPoint {
    type Output = FixedPoint;

    #[inline]
    fn add(self, other: FixedPoint) -> (r: FixedPoint)
        ensures
            r == self.spec_add(other),
    {
        FixedPoint(self.0.wrapping_add(other.0))
    }
}

impl vstd::std_specs::ops::AddSpecImpl for FixedPoint {
    open spec fn obeys_add_spec() -> bool {
        true
    }

    open spec fn add_req(self, other: FixedPoint) -> bool {
        true
    }

    open spec fn add_spec(self, other: FixedPoint) -> FixedPoint {
        self.spec_add(other)
    }
}

impl core::ops::Sub for FixedPoint {
    type Output = FixedPoint;

    #[inline]
    fn sub(self, other: FixedPoint) -> (r: FixedPoint)
        ensures
            r == self.spec_sub(other),
    {
        FixedPoint(self.0.wrapping_sub(other.0))
    }
}

impl vstd::std_specs::ops::SubSpecImpl for FixedPoint {
    open spec fn obeys_sub_spec() -> bool {
        true
    }

    open spec fn sub_req(self, other: FixedPoint) -> bool {
        true
    }

    open spec fn sub_spec(self, other: FixedPoint) -> FixedPoint {
        self.spec_sub(other)
    }
}

impl core::ops::Mul for FixedPoint {
    type Output = FixedPoint;

    #[inline]
    fn mul(self, other: FixedPoint) -> (r: FixedPoint)
        ensures
            r == self.spec_mul(other),
    {
        self.mul_full(other)
    }
}

impl vstd::std_specs::ops::MulSpecImpl for FixedPoint {
    open spec fn obeys_mul_spec() -> bool {
        true
    }

    open spec fn mul_req(self, other: FixedPoint) -> bool {
        true
    }

    open spec fn mul_spec(self, other: FixedPoint) -> FixedPoint {
        self.spec_mul(other)
    }
}

impl core::ops::Div for FixedPoint {
    type Output = FixedPoint;

    #[inline]
    fn div(self, other: FixedPoint) -> (r: FixedPoint)
        ensures
            r == self.spec_div(other),
    {
        self.div_full(other)
    }
}

impl vstd::std_specs::ops::DivSpecImpl for FixedPoint {
    open spec fn obeys_div_spec() -> bool {
        true
    }

    open spec fn div_req(self, other: FixedPoint) -> bool {
        true
    }

    open spec fn div_spec(self, other: FixedPoint) -> FixedPoint {
        self.spec_div(other)
    }
}

impl core::ops::Neg for FixedPoint {
    type Output = FixedPoint;

    #[inline]
    fn neg(self) -> (r: FixedPoint)
        ensures
            r == self.spec_neg(),
    {
        FixedPoint(0i32.wrapping_sub(self.0))
    }
}

impl vstd::std_specs::ops::NegSpecImpl for FixedPoint {
    open spec fn obeys_neg_spec() -> bool {
        true
    }

    open spec fn neg_req(self) -> bool {
        true
    }

    open spec fn neg_spec(self) -> FixedPoint {
        self.spec_neg()
    }
}

impl PartialOrd for FixedPoint {
    /// Exact integer ordering of the raw representation.
    fn partial_cmp(&self, other: &FixedPoint) -> (r: Option<Ordering>) {
        if self.0 < other.0 {
            Some(Ordering::Less)
        } else if self.0 > other.0 {
            Some(Ordering::Greater)
        } else {
            Some(Ordering::Equal)
        }
    }
}

impl vstd::std_specs::cmp::PartialOrdSpecImpl for FixedPoint {
    open spec fn obeys_partial_cmp_spec() -> bool {
        true
    }

    open spec fn partial_cmp_spec(&self, other: &FixedPoint) -> Option<Ordering> {
        if self.0 < other.0 {
            Some(Ordering::Less)
        } else if self.0 > other.0 {
            Some(Ordering::Greater)
        } else {
            Some(Ordering::Equal)
        }
    }
}

impl Default for FixedPoint {
    fn default() -> (r: FixedPoint)
        ensures
            r == FixedPoint(0),
    {
        FixedPoint(0)
    }
}

impl From<i32> for FixedPoint {
    fn from(n: i32) -> (r: FixedPoint)
        ensures
            r == FixedPoint::wrapped(n * 65536),
    {
        FixedPoint::from_int(n)
    }
}

impl vstd::std_specs::convert::FromSpecImpl<i32> for FixedPoint {
    open spec fn obeys_from_spec() -> bool {
        true
    }

    open spec fn from_spec(n: i32) -> FixedPoint {
        FixedPoint::wrapped(n * 65536)
    }
}

/// `wrap32` lands in the signed 32-bit range, differs from its argument by a
/// multiple of 2^32, and leaves values already in range alone.
pub proof fn lemma_wrap32_range(x: int)
    ensures
        -0x8000_0000 <= wrap32(x) < 0x8000_0000,
        (x - wrap32(x)) % 0x1_0000_0000 == 0,
        -0x8000_0000 <= x < 0x8000_0000 ==> wrap32(x) == x,
{
}

/// Adding a number and then taking it away again gives back the number
/// started from, whether or not the sum wrapped.
pub proof fn lemma_add_then_sub(a: FixedPoint, b: FixedPoint)
    ensures
        a.spec_add(b).spec_sub(b) == a,
{
}

/// Taking a number away and then adding it again gives back the number
/// started from, whether or not the difference wrapped.
pub proof fn lemma_sub_then_add(a: FixedPoint, b: FixedPoint)
    ensures
        a.spec_sub(b).spec_add(b) == a,
{
}

/// Multiplying by one changes nothing.
pub proof fn lemma_mul_one(a: FixedPoint)
    ensures
        a.spec_mul(FixedPoint::spec_one()) == a,
        FixedPoint::spec_one().spec_mul(a) == a,
{
    assert((a@ * 65536) / 65536 == a@) by (nonlinear_arith);
    assert((65536 * a@) / 65536 == a@) by (nonlinear_arith);
}

/// Dividing by one changes nothing.
pub proof fn lemma_div_one(a: FixedPoint)
    ensures
        a.spec_div(FixedPoint::spec_one()) == a,
{
    assert((a@ * 65536) / 65536 == a@) by (nonlinear_arith);
    assert((-(a@ * 65536)) / 65536 == -a@) by (nonlinear_arith);
}

} // verus!
