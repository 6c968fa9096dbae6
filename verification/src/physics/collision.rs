//! Narrow-phase collision tests.
//!
//! Whether two shapes touch is decided in exact integer arithmetic on the
//! raw coordinates, so the tests have no false answers near the limits of
//! the number range. Only the reported depth, normal and point are rounded
//! to Q16.16.

use super::{Body, Contact};
use crate::math::fixed_point::{
    clamp32, clamp_wide, four_fifths, fx_mul, half_floor, isqrt, isqrt_u128, lemma_isqrt,
    lemma_mul_one, lemma_trunc_div, lemma_wrap32_range, ratio, saturating_recip, trunc_div,
    wrap32, FixedPoint,
};
use crate::math::vec2::{norm_sq, wide_norm_sq, Vec2};
use core::ops::Neg;
use vstd::prelude::*;

verus! {

/// AABB for broad phase
#[derive(Clone, Copy, Debug)]
pub struct AABB {
    pub min: Vec2,
    pub max: Vec2,
}

/// One or minus one, by the sign of `d`; zero counts as positive.
pub open spec fn sign_of(d: int) -> FixedPoint {
    if d >= 0 {
        FixedPoint(65536)
    } else {
        FixedPoint(-65536i32)
    }
}

pub open spec fn abs_int(d: int) -> int {
    if d >= 0 {
        d
    } else {
        -d
    }
}

impl AABB {
    /// True when the boxes share a point; touching edges count.
    pub open spec fn spec_intersects(&self, other: &AABB) -> bool {
        &&& self.min.x@ <= other.max.x@
        &&& self.max.x@ >= other.min.x@
        &&& self.min.y@ <= other.max.y@
        &&& self.max.y@ >= other.min.y@
    }

    /// True when the `min` corner is not beyond the `max` corner on either
    /// axis.
    pub open spec fn spec_is_ordered(&self) -> bool {
        self.min.x@ <= self.max.x@ && self.min.y@ <= self.max.y@
    }

    /// The midpoint of the two corners, each coordinate rounded down.
    pub open spec fn spec_center(&self) -> Vec2 {
        Vec2 {
            x: FixedPoint(((self.min.x@ + self.max.x@) / 2) as i32),
            y: FixedPoint(((self.min.y@ + self.max.y@) / 2) as i32),
        }
    }

    /// Half of the extent along each axis, rounded down.
    pub open spec fn spec_half_extents(&self) -> Vec2 {
        Vec2 {
            x: FixedPoint(((self.max.x@ - self.min.x@) / 2) as i32),
            y: FixedPoint(((self.max.y@ - self.min.y@) / 2) as i32),
        }
    }

    pub fn new(min: Vec2, max: Vec2) -> (r: Self)
        ensures
            r == (AABB { min, max }),
    {
        AABB { min, max }
    }

    pub fn from_center(center: Vec2, half_extents: Vec2) -> (r: Self)
        ensures
            r == (AABB {
                min: center.spec_sub(half_extents),
                max: center.spec_add(half_extents),
            }),
    {
        AABB { min: center - half_extents, max: center + half_extents }
    }

    #[inline]
    pub fn intersects(&self, other: &AABB) -> (r: bool)
        ensures
            r == self.spec_intersects(other),
    {
        self.min.x.0 <= other.max.x.0 && self.max.x.0 >= other.min.x.0 && self.min.y.0
            <= other.max.y.0 && self.max.y.0 >= other.min.y.0
    }

    pub fn center(&self) -> (r: Vec2)
        ensures
            r == self.spec_center(),
    {
        let cx: i64 = half_floor(self.min.x.0 as i64 + self.max.x.0 as i64);
        let cy: i64 = half_floor(self.min.y.0 as i64 + self.max.y.0 as i64);
        Vec2 { x: FixedPoint(cx as i32), y: FixedPoint(cy as i32) }
    }

    pub fn half_extents(&self) -> (r: Vec2)
        ensures
            r == self.spec_half_extents(),
    {
        let hx: i64 = half_floor(self.max.x.0 as i64 - self.min.x.0 as i64);
        let hy: i64 = half_floor(self.max.y.0 as i64 - self.min.y.0 as i64);
        Vec2 { x: FixedPoint(hx as i32), y: FixedPoint(hy as i32) }
    }

    /// The box grown by `amount` on every side.
    pub fn expand(&self, amount: FixedPoint) -> (r: AABB)
        ensures
            r == (AABB {
                min: self.min.spec_sub(Vec2 { x: amount, y: amount }),
                max: self.max.spec_add(Vec2 { x: amount, y: amount }),
            }),
    {
        AABB { min: self.min - Vec2::splat(amount), max: self.max + Vec2::splat(amount) }
    }
}

impl Default for AABB {
    fn default() -> (r: AABB)
        ensures
            r == (AABB { min: Vec2::spec_zero(), max: Vec2::spec_zero() }),
    {
        AABB { min: Vec2::zero(), max: Vec2::zero() }
    }
}

/// Circle collider
#[derive(Clone, Copy, Debug)]
pub struct Circle {
    pub center: Vec2,
    pub radius: FixedPoint,
}

impl Circle {
    /// True when the centers are closer than the sum of the radii.
    pub open spec fn spec_intersects(&self, other: &Circle) -> bool {
        norm_sq(other.center.x@ - self.center.x@, other.center.y@ - self.center.y@) < (
        self.radius@ + other.radius@) * (self.radius@ + other.radius@)
    }

    pub fn new(center: Vec2, radius: FixedPoint) -> (r: Self)
        ensures
            r == (Circle { center, radius }),
    {
        Circle { center, radius }
    }

    #[inline]
    pub fn intersects(&self, other: &Circle) -> (r: bool)
        ensures
            r == self.spec_intersects(other),
    {
        let dx: i64 = other.center.x.0 as i64 - self.center.x.0 as i64;
        let dy: i64 = other.center.y.0 as i64 - self.center.y.0 as i64;
        let radii_sum: i64 = self.radius.0 as i64 + other.radius.0 as i64;
        wide_norm_sq(dx, dy) < wide_square(radii_sum)
    }

    /// The smallest box around the circle.
    pub fn to_aabb(&self) -> (r: AABB)
        ensures
            r == (AABB {
                min: self.center.spec_sub(Vec2 { x: self.radius, y: self.radius }),
                max: self.center.spec_add(Vec2 { x: self.radius, y: self.radius }),
            }),
    {
        AABB::from_center(self.center, Vec2::splat(self.radius))
    }
}

/// The exact square of a sum or difference of two raw values.
fn wide_square(v: i64) -> (n: u128)
    requires
        -0x1_0000_0000 <= v <= 0x1_0000_0000,
    ensures
        n == v * v,
{
    let x: u128 = (if v < 0 { -v } else { v }) as u128;
    assert(x * x <= 0x1_0000_0000_0000_0000 && x * x == v * v) by (nonlinear_arith)
        requires
            0 <= x <= 0x1_0000_0000,
            x == v || x == -v,
    ;
    x * x
}

/// What `circle_vs_circle` reports for two circles.
///
/// The normal is the difference of the centers divided by their distance
/// (rounded down), each component rounded toward zero; for coincident
/// centers it is the fixed direction "up". The depth is the sum of the radii
/// less the distance. The point lies on the first circle along the normal.
pub open spec fn circle_contact(a: Circle, b: Circle) -> Option<Contact> {
    let dx = b.center.x@ - a.center.x@;
    let dy = b.center.y@ - a.center.y@;
    let dist = isqrt(norm_sq(dx, dy));
    let normal = if dist > 0 {
        Vec2 {
            x: FixedPoint::wrapped(trunc_div(dx * 65536, dist)),
            y: FixedPoint::wrapped(trunc_div(dy * 65536, dist)),
        }
    } else {
        Vec2::spec_up()
    };
    if a.spec_intersects(&b) {
        Some(
            Contact {
                body_a: 0,
                body_b: 0,
                normal,
                penetration: FixedPoint(clamp32(abs_int(a.radius@ + b.radius@) - dist) as i32),
                point: a.center.spec_add(normal.spec_scale(a.radius)),
            },
        )
    } else {
        None
    }
}

/// Circle vs Circle collision
pub fn circle_vs_circle(a: &Circle, b: &Circle) -> (r: Option<Contact>)
    ensures
        r == circle_contact(*a, *b),
        r is Some <==> a.spec_intersects(b),
        r matches Some(contact) ==> contact.penetration@ > 0,
{
    let dx: i64 = b.center.x.0 as i64 - a.center.x.0 as i64;
    let dy: i64 = b.center.y.0 as i64 - a.center.y.0 as i64;
    let dist_sq: u128 = wide_norm_sq(dx, dy);
    let radii_sum: i64 = a.radius.0 as i64 + b.radius.0 as i64;

    if dist_sq >= wide_square(radii_sum) {
        return None;
    }
    let root: u64 = isqrt_u128(dist_sq);
    assert(root < 0x2_0000_0000) by (nonlinear_arith)
        requires
            root * root <= dist_sq,
            dist_sq < 0x2_0000_0000_0000_0000,
            0 <= root,
    ;
    let dist: i64 = root as i64;
    let reach: i64 = if radii_sum < 0 { -radii_sum } else { radii_sum };
    assert(dist < reach) by (nonlinear_arith)
        requires
            0 <= dist,
            0 <= reach,
            dist * dist <= dist_sq,
            dist_sq < radii_sum * radii_sum,
            reach == radii_sum || reach == -radii_sum,
    ;
    let normal: Vec2 = if dist > 0 {
        Vec2 { x: ratio(dx, dist), y: ratio(dy, dist) }
    } else {
        Vec2::up()
    };

    Some(
        Contact {
            body_a: 0,
            body_b: 0,
            normal,
            penetration: clamp_wide(reach - dist),
            point: a.center + normal * a.radius,
        },
    )
}

/// The depth of a contact between circles is positive.
///
/// Two circles in contact are reported with a depth above zero: the size
/// of the sum of the radii less the distance of the centers, or the
/// largest number where that lies beyond it.
pub proof fn lemma_circle_depth_is_positive(a: Circle, b: Circle)
    requires
        a.spec_intersects(&b),
    ensures
        circle_contact(a, b) is Some,
        circle_contact(a, b)->Some_0.penetration@ > 0,
        circle_contact(a, b)->Some_0.penetration@ == clamp32(
            abs_int(a.radius@ + b.radius@) - isqrt(
                norm_sq(b.center.x@ - a.center.x@, b.center.y@ - a.center.y@),
            ),
        ),
{
    let dx = b.center.x@ - a.center.x@;
    let dy = b.center.y@ - a.center.y@;
    let n = norm_sq(dx, dy);
    assert(n >= 0) by (nonlinear_arith)
        requires
            n == dx * dx + dy * dy,
    ;
    lemma_isqrt(n);
    let dist = isqrt(n);
    let sum = a.radius@ + b.radius@;
    let reach = abs_int(sum);
    assert(dist < reach) by (nonlinear_arith)
        requires
            0 <= dist,
            0 <= reach,
            reach == sum || reach == -sum,
            dist * dist <= n,
            n < sum * sum,
    ;
}

/// The normal of a contact between circles has length one up to rounding.
///
/// Where the centers differ, the squared length of the normal is at most
/// that of the exact direction scaled to one, and adding the smallest step
/// to the size of each component takes it above one.
pub proof fn lemma_circle_normal_is_near_unit(a: Circle, b: Circle)
    requires
        a.spec_intersects(&b),
        isqrt(norm_sq(b.center.x@ - a.center.x@, b.center.y@ - a.center.y@)) > 0,
    ensures
        circle_contact(a, b) is Some,
        ({
            let normal = circle_contact(a, b)->Some_0.normal;
            let dx = b.center.x@ - a.center.x@;
            let dy = b.center.y@ - a.center.y@;
            let dist = isqrt(norm_sq(dx, dy));
            &&& -65536 <= normal.x@ <= 65536
            &&& -65536 <= normal.y@ <= 65536
            &&& (normal.x@ * normal.x@ + normal.y@ * normal.y@) * (dist * dist) <= (65536 * 65536)
                * norm_sq(dx, dy)
            &&& (abs_int(normal.x@) + 1) * (abs_int(normal.x@) + 1) + (abs_int(normal.y@) + 1) * (
            abs_int(normal.y@) + 1) > 65536 * 65536
        }),
{
    let dx = b.center.x@ - a.center.x@;
    let dy = b.center.y@ - a.center.y@;
    let n = norm_sq(dx, dy);
    assert(n >= 0) by (nonlinear_arith)
        requires
            n == dx * dx + dy * dy,
    ;
    lemma_isqrt(n);
    let dist = isqrt(n);
    let qx = trunc_div(dx * 65536, dist);
    let qy = trunc_div(dy * 65536, dist);
    lemma_trunc_div(dx * 65536, dist);
    lemma_trunc_div(dy * 65536, dist);
    let ax = abs_int(qx);
    let ay = abs_int(qy);
    let mx = abs_int(dx);
    let my = abs_int(dy);
    // the size of each quotient, times the distance, is within one distance
    // below the size of the scaled difference
    assert(ax * dist <= mx * 65536 < (ax + 1) * dist && ay * dist <= my * 65536 < (ay + 1)
        * dist) by (nonlinear_arith)
        requires
            dist > 0,
            ax == abs_int(qx),
            ay == abs_int(qy),
            mx == abs_int(dx),
            my == abs_int(dy),
            dx * 65536 >= 0 ==> 0 <= qx * dist <= dx * 65536 < (qx + 1) * dist,
            dx * 65536 < 0 ==> 0 >= qx * dist >= dx * 65536 > (qx - 1) * dist,
            dy * 65536 >= 0 ==> 0 <= qy * dist <= dy * 65536 < (qy + 1) * dist,
            dy * 65536 < 0 ==> 0 >= qy * dist >= dy * 65536 > (qy - 1) * dist,
    ;
    assert(mx * mx + my * my == n) by (nonlinear_arith)
        requires
            n == dx * dx + dy * dy,
            mx == abs_int(dx),
            my == abs_int(dy),
    ;
    // no difference is longer than the distance, so no quotient exceeds one
    assert(mx <= dist && my <= dist) by (nonlinear_arith)
        requires
            mx * mx + my * my == n,
            n < (dist + 1) * (dist + 1),
            0 <= mx,
            0 <= my,
            0 <= dist,
    ;
    assert(ax <= 65536 && ay <= 65536) by (nonlinear_arith)
        requires
            ax * dist <= mx * 65536,
            ay * dist <= my * 65536,
            mx <= dist,
            my <= dist,
            dist > 0,
            0 <= ax,
            0 <= ay,
    ;
    assert(qx * qx == ax * ax && qy * qy == ay * ay) by (nonlinear_arith)
        requires
            ax == abs_int(qx),
            ay == abs_int(qy),
    ;
    assert((ax * ax + ay * ay) * (dist * dist) <= (65536 * 65536) * n) by (nonlinear_arith)
        requires
            0 <= ax * dist <= mx * 65536,
            0 <= ay * dist <= my * 65536,
            mx * mx + my * my == n,
    ;
    assert(((ax + 1) * (ax + 1) + (ay + 1) * (ay + 1)) * (dist * dist) > (65536 * 65536) * n)
        by (nonlinear_arith)
        requires
            0 <= mx * 65536 < (ax + 1) * dist,
            0 <= my * 65536 < (ay + 1) * dist,
            mx * mx + my * my == n,
    ;
    assert((ax + 1) * (ax + 1) + (ay + 1) * (ay + 1) > 65536 * 65536) by (nonlinear_arith)
        requires
            ((ax + 1) * (ax + 1) + (ay + 1) * (ay + 1)) * (dist * dist) > (65536 * 65536) * n,
            n >= dist * dist,
            dist > 0,
    ;
}

/// What `aabb_vs_aabb` reports for two boxes.
///
/// The overlap along an axis is the sum of the half extents less the
/// distance of the centers. The boxes are in contact when both overlaps are
/// positive; the axis of the smaller overlap separates them, the X axis
/// where the two are equal.
pub open spec fn aabb_contact(a: AABB, b: AABB) -> Option<Contact> {
    let ac = a.spec_center();
    let bc = b.spec_center();
    let ah = a.spec_half_extents();
    let bh = b.spec_half_extents();
    let dx = bc.x@ - ac.x@;
    let dy = bc.y@ - ac.y@;
    let overlap_x = ah.x@ + bh.x@ - abs_int(dx);
    let overlap_y = ah.y@ + bh.y@ - abs_int(dy);
    let normal = if overlap_x <= overlap_y {
        Vec2 { x: sign_of(dx), y: FixedPoint(0) }
    } else {
        Vec2 { x: FixedPoint(0), y: sign_of(dy) }
    };
    if overlap_x <= 0 || overlap_y <= 0 {
        None
    } else {
        Some(
            Contact {
                body_a: 0,
                body_b: 0,
                normal,
                penetration: FixedPoint(
                    clamp32(
                        if overlap_x <= overlap_y {
                            overlap_x
                        } else {
                            overlap_y
                        },
                    ) as i32,
                ),
                point: ac.spec_add(normal.spec_scale(ah.x.spec_min(ah.y))),
            },
        )
    }
}

/// AABB vs AABB collision
pub fn aabb_vs_aabb(a: &AABB, b: &AABB) -> (r: Option<Contact>)
    ensures
        r == aabb_contact(*a, *b),
        r matches Some(contact) ==> contact.penetration@ > 0,
{
    let a_center: Vec2 = a.center();
    let b_center: Vec2 = b.center();
    let a_half: Vec2 = a.half_extents();
    let b_half: Vec2 = b.half_extents();

    let dx: i64 = b_center.x.0 as i64 - a_center.x.0 as i64;
    let dy: i64 = b_center.y.0 as i64 - a_center.y.0 as i64;
    let overlap_x: i64 = a_half.x.0 as i64 + b_half.x.0 as i64 - (if dx < 0 { -dx } else { dx });
    let overlap_y: i64 = a_half.y.0 as i64 + b_half.y.0 as i64 - (if dy < 0 { -dy } else { dy });

    if overlap_x <= 0 || overlap_y <= 0 {
        return None;
    }
    let one: FixedPoint = FixedPoint::one();
    let neg_one: FixedPoint = FixedPoint::neg_one();
    let zero: FixedPoint = FixedPoint::zero();
    let (normal, penetration): (Vec2, i64) = if overlap_x <= overlap_y {
        (Vec2 { x: if dx >= 0 { one } else { neg_one }, y: zero }, overlap_x)
    } else {
        (Vec2 { x: zero, y: if dy >= 0 { one } else { neg_one } }, overlap_y)
    };

    Some(
        Contact {
            body_a: 0,
            body_b: 0,
            normal,
            penetration: clamp_wide(penetration),
            point: a_center + normal * a_half.x.min(a_half.y),
        },
    )
}

/// The normal of a contact between boxes lies along an axis.
pub proof fn lemma_box_normal_is_along_an_axis(a: AABB, b: AABB)
    requires
        aabb_contact(a, b) is Some,
    ensures
        is_axis_unit(aabb_contact(a, b)->Some_0.normal),
{
    let dx = b.spec_center().x@ - a.spec_center().x@;
    let dy = b.spec_center().y@ - a.spec_center().y@;
    assert(sign_of(dx) == FixedPoint(65536) || sign_of(dx) == FixedPoint(-65536i32));
    assert(sign_of(dy) == FixedPoint(65536) || sign_of(dy) == FixedPoint(-65536i32));
}

/// The depth of a contact between boxes is positive: the smaller of the
/// two overlaps, or the largest number where that lies beyond it.
pub proof fn lemma_box_depth_is_positive(a: AABB, b: AABB)
    requires
        aabb_contact(a, b) is Some,
    ensures
        aabb_contact(a, b)->Some_0.penetration@ > 0,
{
    let ah = a.spec_half_extents();
    let bh = b.spec_half_extents();
    let dx = b.spec_center().x@ - a.spec_center().x@;
    let dy = b.spec_center().y@ - a.spec_center().y@;
    let overlap_x = ah.x@ + bh.x@ - abs_int(dx);
    let overlap_y = ah.y@ + bh.y@ - abs_int(dy);
    assert(0 < overlap_x && 0 < overlap_y);
}

/// Boxes that share no point are never reported as in contact.
pub proof fn lemma_separated_boxes_have_no_contact(a: AABB, b: AABB)
    requires
        !a.spec_intersects(&b),
    ensures
        aabb_contact(a, b) is None,
{
}

/// The radius that `detect_collisions` gives to every body: 10 units.
pub open spec fn body_radius() -> FixedPoint {
    FixedPoint(655360)
}

/// The contact between bodies `i` and `j`, taken as circles of
/// `body_radius()` around their positions, if they touch.
pub open spec fn body_contact(bodies: Seq<Body>, i: int, j: int) -> Option<Contact> {
    match circle_contact(
        Circle { center: bodies[i].position, radius: body_radius() },
        Circle { center: bodies[j].position, radius: body_radius() },
    ) {
        Some(c) => Some(Contact { body_a: i as usize, body_b: j as usize, ..c }),
        None => None,
    }
}

/// The contacts of body `i` with the bodies `i + 1 .. j`, in that order.
pub open spec fn row_contacts(bodies: Seq<Body>, i: int, j: int) -> Seq<Contact>
    decreases j - i,
{
    if j <= i + 1 {
        Seq::empty()
    } else {
        match body_contact(bodies, i, j - 1) {
            Some(c) => row_contacts(bodies, i, j - 1).push(c),
            None => row_contacts(bodies, i, j - 1),
        }
    }
}

/// The contacts of all pairs `(a, b)` with `a < i` and `a < b`, ordered by
/// `a` and then by `b`.
pub open spec fn all_contacts(bodies: Seq<Body>, i: int) -> Seq<Contact>
    decreases i,
{
    if i <= 0 {
        Seq::empty()
    } else {
        all_contacts(bodies, i - 1) + row_contacts(bodies, i - 1, bodies.len() as int)
    }
}

/// True when both bodies that `c` names exist among `len` bodies.
pub open spec fn contact_in_bounds(c: Contact, len: int) -> bool {
    c.body_a < len && c.body_b < len
}

/// Every contact found among `bodies` names two of them.
pub proof fn lemma_row_contacts_in_bounds(bodies: Seq<Body>, i: int, j: int)
    requires
        0 <= i,
        j <= bodies.len() <= usize::MAX,
    ensures
        forall|k: int|
            0 <= k < row_contacts(bodies, i, j).len() ==> contact_in_bounds(
                #[trigger] row_contacts(bodies, i, j)[k],
                bodies.len() as int,
            ),
    decreases j - i,
{
    if j > i + 1 {
        lemma_row_contacts_in_bounds(bodies, i, j - 1);
        let prev = row_contacts(bodies, i, j - 1);
        assert forall|k: int| 0 <= k < row_contacts(bodies, i, j).len() implies contact_in_bounds(
            #[trigger] row_contacts(bodies, i, j)[k],
            bodies.len() as int,
        ) by {
            if k < prev.len() {
                assert(row_contacts(bodies, i, j)[k] == prev[k]);
            } else {
                let c = body_contact(bodies, i, j - 1)->Some_0;
                assert(row_contacts(bodies, i, j)[k] == c);
                assert(c.body_a == i as usize && c.body_b == (j - 1) as usize);
            }
        }
    }
}

/// Every contact found among `bodies` names two of them.
pub proof fn lemma_all_contacts_in_bounds(bodies: Seq<Body>, i: int)
    requires
        i <= bodies.len() <= usize::MAX,
    ensures
        forall|k: int|
            0 <= k < all_contacts(bodies, i).len() ==> contact_in_bounds(
                #[trigger] all_contacts(bodies, i)[k],
                bodies.len() as int,
            ),
    decreases i,
{
    if i > 0 {
        lemma_all_contacts_in_bounds(bodies, i - 1);
        lemma_row_contacts_in_bounds(bodies, i - 1, bodies.len() as int);
        let head = all_contacts(bodies, i - 1);
        let row = row_contacts(bodies, i - 1, bodies.len() as int);
        assert forall|k: int| 0 <= k < all_contacts(bodies, i).len() implies contact_in_bounds(
            #[trigger] all_contacts(bodies, i)[k],
            bodies.len() as int,
        ) by {
            if k < head.len() {
                assert(all_contacts(bodies, i)[k] == head[k]);
            } else {
                assert(all_contacts(bodies, i)[k] == row[k - head.len()]);
            }
        }
    }
}

/// Detect collisions between all bodies (simple O(n²) for now)
///
/// Appends to `contacts` the contact of every pair of bodies whose circles
/// of `body_radius()` touch, ordered by the first index and then the second.
pub fn detect_collisions(bodies: &[Body], contacts: &mut Vec<Contact>)
    ensures
        final(contacts)@ == old(contacts)@ + all_contacts(bodies@, bodies.len() as int),
{
    let radius: FixedPoint = FixedPoint::from_raw(655360);
    let n: usize = bodies.len();
    let mut i: usize = 0;
    while i < n
        invariant
            i <= n,
            n == bodies.len(),
            radius == body_radius(),
            contacts@ == old(contacts)@ + all_contacts(bodies@, i as int),
        decreases n - i,
    {
        let ghost before = contacts@;
        let mut j: usize = i + 1;
        while j < n
            invariant
                i < n,
                i + 1 <= j <= n,
                n == bodies.len(),
                radius == body_radius(),
                contacts@ == before + row_contacts(bodies@, i as int, j as int),
            decreases n - j,
        {
            let a: Circle = Circle::new(bodies[i].position, radius);
            let b: Circle = Circle::new(bodies[j].position, radius);
            if let Some(mut contact) = circle_vs_circle(&a, &b) {
                contact.body_a = i;
                contact.body_b = j;
                contacts.push(contact);
            }
            j += 1;
        }
        i += 1;
    }
}

/// The share of the penetration depth that one resolution pushes apart:
/// four fifths of it, rounded once.
pub open spec fn correction_depth(depth: FixedPoint) -> FixedPoint {
    FixedPoint(four_fifths(depth@) as i32)
}

/// The velocity of B relative to A along the contact normal; positive when
/// the two move apart.
pub open spec fn separating_speed(a: Body, b: Body, c: Contact) -> FixedPoint {
    b.velocity.spec_sub(a.velocity).spec_dot(c.normal)
}

/// True when resolving `c` changes anything: not both bodies are static,
/// and they do not already move apart.
pub open spec fn contact_is_active(a: Body, b: Body, c: Contact) -> bool {
    !(a.spec_is_static() && b.spec_is_static()) && separating_speed(a, b, c)@ <= 0
}

/// The impulse along the normal: `j = -(1 + e) * v_n / (1/m_a + 1/m_b)`,
/// with `e` the smaller of the two restitutions and `v_n` the separating
/// speed.
pub open spec fn contact_impulse(a: Body, b: Body, c: Contact) -> Vec2 {
    let e = a.restitution.spec_min(b.restitution);
    let j = FixedPoint::spec_one().spec_add(e).spec_neg().spec_mul(
        separating_speed(a, b, c),
    ).spec_div(a.inv_mass.spec_add(b.inv_mass));
    c.normal.spec_scale(j)
}

/// The push along the normal that takes the bodies out of each other:
/// `correction_depth` of the penetration depth, per unit of inverse mass.
pub open spec fn contact_correction(a: Body, b: Body, c: Contact) -> Vec2 {
    c.normal.spec_scale(
        correction_depth(c.penetration).spec_div(a.inv_mass.spec_add(b.inv_mass)),
    )
}

/// The bodies after one contact has been resolved.
///
/// Nothing changes unless the contact is active. Otherwise the impulse is
/// taken from the velocity of A and given to that of B, each scaled by the
/// body's inverse mass, and the positions are pushed apart by the
/// correction in the same way. With A and B the same body the four changes
/// apply to it in this order.
pub open spec fn resolve_contact(bodies: Seq<Body>, c: Contact) -> Seq<Body> {
    let ia = c.body_a as int;
    let ib = c.body_b as int;
    let a = bodies[ia];
    let b = bodies[ib];
    let impulse = contact_impulse(a, b, c);
    let correction = contact_correction(a, b, c);
    let s1 = bodies.update(
        ia,
        Body {
            velocity: bodies[ia].velocity.spec_sub(impulse.spec_scale(a.inv_mass)),
            ..bodies[ia]
        },
    );
    let s2 = s1.update(
        ib,
        Body { velocity: s1[ib].velocity.spec_add(impulse.spec_scale(b.inv_mass)), ..s1[ib] },
    );
    let s3 = s2.update(
        ia,
        Body { position: s2[ia].position.spec_sub(correction.spec_scale(a.inv_mass)), ..s2[ia] },
    );
    let s4 = s3.update(
        ib,
        Body { position: s3[ib].position.spec_add(correction.spec_scale(b.inv_mass)), ..s3[ib] },
    );
    if contact_is_active(a, b, c) {
        s4
    } else {
        bodies
    }
}

/// The bodies after the contacts have been resolved one after the other.
pub open spec fn resolve_all(bodies: Seq<Body>, contacts: Seq<Contact>) -> Seq<Body>
    decreases contacts.len(),
{
    if contacts.len() == 0 {
        bodies
    } else {
        resolve_contact(resolve_all(bodies, contacts.drop_last()), contacts.last())
    }
}

/// Resolving a contact neither adds nor removes a body.
pub proof fn lemma_resolve_contact_len(bodies: Seq<Body>, c: Contact)
    requires
        contact_in_bounds(c, bodies.len() as int),
    ensures
        resolve_contact(bodies, c).len() == bodies.len(),
{
}

/// Resolving contacts neither adds nor removes a body.
pub proof fn lemma_resolve_all_len(bodies: Seq<Body>, contacts: Seq<Contact>)
    requires
        forall|k: int|
            0 <= k < contacts.len() ==> contact_in_bounds(
                #[trigger] contacts[k],
                bodies.len() as int,
            ),
    ensures
        resolve_all(bodies, contacts).len() == bodies.len(),
    decreases contacts.len(),
{
    if contacts.len() > 0 {
        let init = contacts.drop_last();
        assert forall|k: int| 0 <= k < init.len() implies contact_in_bounds(
            #[trigger] init[k],
            bodies.len() as int,
        ) by {
            assert(init[k] == contacts[k]);
        }
        lemma_resolve_all_len(bodies, init);
        assert(contact_in_bounds(contacts[contacts.len() - 1], bodies.len() as int));
        lemma_resolve_contact_len(resolve_all(bodies, init), contacts.last());
    }
}

/// Resolve contact constraints
pub fn resolve_contacts(bodies: &mut [Body], contacts: &[Contact])
    requires
        forall|k: int|
            0 <= k < contacts.len() ==> contact_in_bounds(
                #[trigger] contacts[k],
                old(bodies).len() as int,
            ),
    ensures
        final(bodies)@ == resolve_all(old(bodies)@, contacts@),
{
    let n: usize = contacts.len();
    let mut k: usize = 0;
    while k < n
        invariant
            k <= n,
            n == contacts.len(),
            bodies.len() == old(bodies).len(),
            forall|m: int|
                0 <= m < contacts.len() ==> contact_in_bounds(
                    #[trigger] contacts[m],
                    bodies.len() as int,
                ),
            bodies@ == resolve_all(old(bodies)@, contacts@.take(k as int)),
        decreases n - k,
    {
        let contact: Contact = contacts[k];
        let ghost before = bodies@;
        proof {
            assert(contacts@.take(k as int + 1).drop_last() == contacts@.take(k as int));
            assert(contacts@.take(k as int + 1).last() == contact);
            assert(contact_in_bounds(contacts[k as int], bodies.len() as int));
        }
        k += 1;

        let a: Body = bodies[contact.body_a];
        let b: Body = bodies[contact.body_b];
        if a.is_static() && b.is_static() {
            continue;
        }
        let a_inv_mass: FixedPoint = a.inv_mass;
        let b_inv_mass: FixedPoint = b.inv_mass;
        let relative_vel: Vec2 = b.velocity - a.velocity;

        let vel_along_normal: FixedPoint = relative_vel.dot(contact.normal);
        if vel_along_normal.0 > 0 {
            continue;
        }
        let e: FixedPoint = a.restitution.min(b.restitution);
        let inv_sum: FixedPoint = a_inv_mass + b_inv_mass;
        let j: FixedPoint = (FixedPoint::one() + e).neg() * vel_along_normal / inv_sum;
        let impulse: Vec2 = contact.normal * j;

        bodies[contact.body_a].velocity = bodies[contact.body_a].velocity - impulse * a_inv_mass;
        bodies[contact.body_b].velocity = bodies[contact.body_b].velocity + impulse * b_inv_mass;

        // Position correction
        let correction: Vec2 = contact.normal * (contact.penetration.four_fifths() / inv_sum);
        bodies[contact.body_a].position = bodies[contact.body_a].position - correction * a_inv_mass;
        bodies[contact.body_b].position = bodies[contact.body_b].position + correction * b_inv_mass;
        assert(bodies@ == resolve_contact(before, contact));
    }
    assert(contacts@.take(n as int) == contacts@);
}

/// The two impulses of a contact are equal and opposite.
///
/// Where a contact between two different bodies is active, A loses the
/// impulse scaled by its inverse mass and B gains the same impulse scaled
/// by its own; the positions part by the correction in the same way.
pub proof fn lemma_impulses_are_equal_and_opposite(bodies: Seq<Body>, c: Contact)
    requires
        contact_in_bounds(c, bodies.len() as int),
        c.body_a != c.body_b,
        contact_is_active(bodies[c.body_a as int], bodies[c.body_b as int], c),
    ensures
        ({
            let a = bodies[c.body_a as int];
            let b = bodies[c.body_b as int];
            let after = resolve_contact(bodies, c);
            let impulse = contact_impulse(a, b, c);
            let correction = contact_correction(a, b, c);
            &&& after[c.body_a as int].velocity == a.velocity.spec_sub(
                impulse.spec_scale(a.inv_mass),
            )
            &&& after[c.body_b as int].velocity == b.velocity.spec_add(
                impulse.spec_scale(b.inv_mass),
            )
            &&& after[c.body_a as int].position == a.position.spec_sub(
                correction.spec_scale(a.inv_mass),
            )
            &&& after[c.body_b as int].position == b.position.spec_add(
                correction.spec_scale(b.inv_mass),
            )
        }),
{
    let ia = c.body_a as int;
    let ib = c.body_b as int;
    let a = bodies[ia];
    let b = bodies[ib];
    let impulse = contact_impulse(a, b, c);
    let correction = contact_correction(a, b, c);
    let s1 = bodies.update(
        ia,
        Body { velocity: a.velocity.spec_sub(impulse.spec_scale(a.inv_mass)), ..a },
    );
    assert(s1[ib] == b);
    let s2 = s1.update(
        ib,
        Body { velocity: s1[ib].velocity.spec_add(impulse.spec_scale(b.inv_mass)), ..s1[ib] },
    );
    assert(s2[ia] == s1[ia]);
    let s3 = s2.update(
        ia,
        Body { position: s2[ia].position.spec_sub(correction.spec_scale(a.inv_mass)), ..s2[ia] },
    );
    assert(s3[ib] == s2[ib]);
    let s4 = s3.update(
        ib,
        Body { position: s3[ib].position.spec_add(correction.spec_scale(b.inv_mass)), ..s3[ib] },
    );
    assert(s4[ia] == s3[ia]);
    assert(resolve_contact(bodies, c) == s4);
}

/// The raw momentum along one axis of a body of raw mass `mass` whose raw
/// velocity changes by `change`.
pub open spec fn momentum_of(change: int, mass: int) -> int {
    (change * mass) / 65536
}

/// True when the momentum that `change` gives a body of mass `mass` is the
/// impulse up to rounding: the two differ by no more than
/// `|impulse| * mass / 2^32 + mass / 2^16 + 1` raw units, which is what
/// rounding the inverse mass and the two products can lose.
pub open spec fn within_rounding(impulse: int, change: int, mass: int) -> bool {
    abs_int(impulse - momentum_of(change, mass)) * 0x1_0000_0000 <= abs_int(impulse) * mass + 65536
        * mass + 0x1_0000_0000
}

/// An impulse scaled by the inverse of a mass and then by the mass is the
/// impulse up to rounding.
proof fn lemma_mass_times_inverse(impulse: int, mass: int)
    requires
        3 <= mass <= 0x7fff_ffff,
    ensures
        within_rounding(impulse, (impulse * saturating_recip(mass)) / 65536, mass),
{
    let inv = saturating_recip(mass);
    let n = 0x1_0000_0000int;
    vstd::arithmetic::div_mod::lemma_fundamental_div_mod(n, mass);
    assert(inv == n / mass) by {
        assert(0 <= n / mass < 0x8000_0000) by (nonlinear_arith)
            requires
                n == mass * (n / mass) + n % mass,
                0 <= n % mass < mass,
                mass >= 3,
                n == 0x1_0000_0000,
        ;
    }
    let e1 = n % mass;
    let change = (impulse * inv) / 65536;
    vstd::arithmetic::div_mod::lemma_fundamental_div_mod(impulse * inv, 65536);
    let e2 = (impulse * inv) % 65536;
    let back = (change * mass) / 65536;
    vstd::arithmetic::div_mod::lemma_fundamental_div_mod(change * mass, 65536);
    let e3 = (change * mass) % 65536;
    assert(n * (impulse - back) == impulse * e1 + mass * e2 + 65536 * e3) by (nonlinear_arith)
        requires
            n == mass * inv + e1,
            impulse * inv == 65536 * change + e2,
            change * mass == 65536 * back + e3,
            n == 65536 * 65536,
    ;
    assert(abs_int(impulse - back) * n <= abs_int(impulse) * mass + 65536 * mass + n)
        by (nonlinear_arith)
        requires
            n * (impulse - back) == impulse * e1 + mass * e2 + 65536 * e3,
            0 <= e1 < mass,
            0 <= e2 < 65536,
            0 <= e3 < 65536,
            n == 65536 * 65536,
            mass >= 3,
    ;
}

/// True when scaling the raw value `v` by the raw factor `by` stays within
/// the number range, so that nothing wraps.
pub open spec fn scales_without_wrap(v: int, by: int) -> bool {
    -0x8000_0000 <= (v * by) / 65536 < 0x8000_0000
}

/// One component of an impulse, scaled by the inverse of a mass without
/// wrapping, gives the body that component of momentum up to rounding.
proof fn lemma_share_of_impulse(impulse: FixedPoint, mass: FixedPoint, inv: FixedPoint)
    requires
        mass@ >= 3,
        inv@ == saturating_recip(mass@),
        scales_without_wrap(impulse@, inv@),
    ensures
        within_rounding(impulse@, impulse.spec_mul(inv)@, mass@),
{
    lemma_mass_times_inverse(impulse@, mass@);
    let q = (impulse@ * inv@) / 65536;
    assert(wrap32(q) == q);
    assert(impulse.spec_mul(inv)@ == q);
}

/// Momentum is kept up to rounding, whatever the masses.
///
/// Resolving an active contact between two different bodies, each with the
/// inverse mass of its mass, takes an impulse from A and gives the same
/// impulse to B. The momentum that A loses and the momentum that B gains,
/// each the body's mass times its change of velocity, are both that
/// impulse up to rounding, as long as scaling the impulse did not wrap.
pub proof fn lemma_momentum_is_kept_up_to_rounding(bodies: Seq<Body>, c: Contact)
    requires
        contact_in_bounds(c, bodies.len() as int),
        c.body_a != c.body_b,
        contact_is_active(bodies[c.body_a as int], bodies[c.body_b as int], c),
        bodies[c.body_a as int].mass@ >= 3,
        bodies[c.body_b as int].mass@ >= 3,
        bodies[c.body_a as int].inv_mass@ == saturating_recip(bodies[c.body_a as int].mass@),
        bodies[c.body_b as int].inv_mass@ == saturating_recip(bodies[c.body_b as int].mass@),
        ({
            let a = bodies[c.body_a as int];
            let b = bodies[c.body_b as int];
            let impulse = contact_impulse(a, b, c);
            &&& scales_without_wrap(impulse.x@, a.inv_mass@)
            &&& scales_without_wrap(impulse.y@, a.inv_mass@)
            &&& scales_without_wrap(impulse.x@, b.inv_mass@)
            &&& scales_without_wrap(impulse.y@, b.inv_mass@)
        }),
    ensures
        ({
            let a = bodies[c.body_a as int];
            let b = bodies[c.body_b as int];
            let after = resolve_contact(bodies, c);
            let impulse = contact_impulse(a, b, c);
            let lost = impulse.spec_scale(a.inv_mass);
            let gained = impulse.spec_scale(b.inv_mass);
            &&& after[c.body_a as int].velocity == a.velocity.spec_sub(lost)
            &&& after[c.body_b as int].velocity == b.velocity.spec_add(gained)
            &&& within_rounding(impulse.x@, lost.x@, a.mass@)
            &&& within_rounding(impulse.y@, lost.y@, a.mass@)
            &&& within_rounding(impulse.x@, gained.x@, b.mass@)
            &&& within_rounding(impulse.y@, gained.y@, b.mass@)
        }),
{
    let a = bodies[c.body_a as int];
    let b = bodies[c.body_b as int];
    let impulse = contact_impulse(a, b, c);
    lemma_impulses_are_equal_and_opposite(bodies, c);
    lemma_share_of_impulse(impulse.x, a.mass, a.inv_mass);
    lemma_share_of_impulse(impulse.y, a.mass, a.inv_mass);
    lemma_share_of_impulse(impulse.x, b.mass, b.inv_mass);
    lemma_share_of_impulse(impulse.y, b.mass, b.inv_mass);
}

/// What one number loses and another gains leaves their sum as it was,
/// whether or not anything wrapped.
proof fn lemma_give_and_take(p: FixedPoint, q: FixedPoint, d: FixedPoint)
    ensures
        p.spec_sub(d).spec_add(q.spec_add(d)) == p.spec_add(q),
{
    let s = p@ - d@;
    let t = q@ + d@;
    lemma_wrapped_sum(s, t);
    lemma_wrap32_range(s);
    lemma_wrap32_range(t);
    assert(p.spec_sub(d)@ == wrap32(s));
    assert(q.spec_add(d)@ == wrap32(t));
    assert(s + t == p@ + q@);
}

/// Wrapping two numbers before adding them changes nothing once the sum is
/// wrapped.
proof fn lemma_wrapped_sum(s: int, t: int)
    ensures
        wrap32(wrap32(s) + wrap32(t)) == wrap32(s + t),
{
    let m = 0x1_0000_0000int;
    let ks: int = if s % m >= 0x8000_0000 { -1 } else { 0 };
    let kt: int = if t % m >= 0x8000_0000 { -1 } else { 0 };
    assert(wrap32(s) == s % m + m * ks);
    assert(wrap32(t) == t % m + m * kt);
    vstd::arithmetic::div_mod::lemma_mod_multiples_vanish(ks + kt, s % m + t % m, m);
    assert(m * (ks + kt) + (s % m + t % m) == wrap32(s) + wrap32(t));
    vstd::arithmetic::div_mod::lemma_add_mod_noop(s, t, m);
    assert((wrap32(s) + wrap32(t)) % m == (s + t) % m);
}

/// Bodies of equal mass keep the sum of their velocities.
///
/// Resolving a contact between two different bodies of the same inverse
/// mass leaves the sum of their velocities as it was, whatever the normal,
/// the restitution and the velocities are, and whether or not anything
/// wrapped: what one loses the other gains.
pub proof fn lemma_equal_masses_keep_momentum(bodies: Seq<Body>, c: Contact)
    requires
        contact_in_bounds(c, bodies.len() as int),
        c.body_a != c.body_b,
        bodies[c.body_a as int].inv_mass == bodies[c.body_b as int].inv_mass,
    ensures
        resolve_contact(bodies, c)[c.body_a as int].velocity.spec_add(
            resolve_contact(bodies, c)[c.body_b as int].velocity,
        ) == bodies[c.body_a as int].velocity.spec_add(bodies[c.body_b as int].velocity),
{
    let a = bodies[c.body_a as int];
    let b = bodies[c.body_b as int];
    let after = resolve_contact(bodies, c);
    if contact_is_active(a, b, c) {
        lemma_impulses_are_equal_and_opposite(bodies, c);
        let change = contact_impulse(a, b, c).spec_scale(a.inv_mass);
        lemma_give_and_take(a.velocity.x, b.velocity.x, change.x);
        lemma_give_and_take(a.velocity.y, b.velocity.y, change.y);
        assert(after[c.body_a as int].velocity == a.velocity.spec_sub(change));
        assert(after[c.body_b as int].velocity == b.velocity.spec_add(change));
    } else {
        assert(after == bodies);
    }
}

/// True for the four unit vectors along the axes.
pub open spec fn is_axis_unit(n: Vec2) -> bool {
    ||| n == (Vec2 { x: FixedPoint(65536), y: FixedPoint(0) })
    ||| n == (Vec2 { x: FixedPoint(-65536i32), y: FixedPoint(0) })
    ||| n == (Vec2 { x: FixedPoint(0), y: FixedPoint(65536) })
    ||| n == (Vec2 { x: FixedPoint(0), y: FixedPoint(-65536i32) })
}

/// Scaling by a whole factor of -1, 0 or 1 is exact.
proof fn lemma_axis_mul(s: int, t: int)
    requires
        -1 <= s <= 1,
    ensures
        fx_mul(s * 65536, t) == wrap32(s * t),
        fx_mul(t, s * 65536) == wrap32(s * t),
{
    assert(((s * 65536) * t) / 65536 == s * t) by (nonlinear_arith);
    assert((t * (s * 65536)) / 65536 == s * t) by (nonlinear_arith);
}

/// The impulse of a head-on elastic contact between two bodies of mass one
/// whose normal is `(sx, sy)`, one of the four axis directions: twice the
/// velocity of A.
proof fn lemma_elastic_impulse(a: Body, b: Body, c: Contact, v: FixedPoint, sx: int, sy: int)
    requires
        (sx == 0 && (sy == 1 || sy == -1)) || (sy == 0 && (sx == 1 || sx == -1)),
        c.normal.x@ == sx * 65536,
        c.normal.y@ == sy * 65536,
        0 <= v@ < 0x2000_0000,
        a.inv_mass == FixedPoint::spec_one(),
        b.inv_mass == FixedPoint::spec_one(),
        a.restitution == FixedPoint::spec_one(),
        b.restitution == FixedPoint::spec_one(),
        a.velocity == c.normal.spec_scale(v),
        b.velocity == c.normal.spec_scale(v).spec_neg(),
    ensures
        contact_is_active(a, b, c),
        a.velocity.x@ == sx * v@,
        a.velocity.y@ == sy * v@,
        b.velocity.x@ == -(sx * v@),
        b.velocity.y@ == -(sy * v@),
        contact_impulse(a, b, c).x@ == 2 * (sx * v@),
        contact_impulse(a, b, c).y@ == 2 * (sy * v@),
{
    let x = v@;
    lemma_axis_mul(sx, x);
    lemma_axis_mul(sy, x);
    assert(sx * x == 0 || sx * x == x || sx * x == -x) by (nonlinear_arith)
        requires
            -1 <= sx <= 1,
    ;
    assert(sy * x == 0 || sy * x == x || sy * x == -x) by (nonlinear_arith)
        requires
            -1 <= sy <= 1,
    ;
    assert(a.velocity.x@ == sx * x && a.velocity.y@ == sy * x);
    assert(b.velocity.x@ == -(sx * x) && b.velocity.y@ == -(sy * x));
    let rel = b.velocity.spec_sub(a.velocity);
    assert(rel.x@ == -2 * (sx * x) && rel.y@ == -2 * (sy * x));
    assert(rel.x@ * c.normal.x@ + rel.y@ * c.normal.y@ == (-2 * x) * 65536) by (nonlinear_arith)
        requires
            rel.x@ == -2 * (sx * x),
            rel.y@ == -2 * (sy * x),
            c.normal.x@ == sx * 65536,
            c.normal.y@ == sy * 65536,
            (sx == 0 && (sy == 1 || sy == -1)) || (sy == 0 && (sx == 1 || sx == -1)),
    ;
    assert(((-2 * x) * 65536) / 65536 == -2 * x) by (nonlinear_arith);
    let speed = separating_speed(a, b, c);
    assert(speed@ == -2 * x);
    let scale = FixedPoint::spec_one().spec_add(a.restitution.spec_min(b.restitution)).spec_neg();
    assert(scale@ == -131072);
    let scaled = scale.spec_mul(speed);
    assert((-131072 * (-2 * x)) / 65536 == 4 * x) by (nonlinear_arith);
    assert(scaled@ == 4 * x);
    let j = scaled.spec_div(a.inv_mass.spec_add(b.inv_mass));
    assert(((4 * x) * 65536) / 131072 == 2 * x) by (nonlinear_arith);
    assert(j@ == 2 * x);
    lemma_axis_mul(sx, 2 * x);
    lemma_axis_mul(sy, 2 * x);
    assert(sx * (2 * x) == 2 * (sx * x) && sy * (2 * x) == 2 * (sy * x)) by (nonlinear_arith);
}

/// The velocities after resolving a head-on elastic contact whose normal is
/// `(sx, sy)`, one of the four axis directions.
#[verifier::rlimit(40)]
proof fn lemma_elastic_axis(bodies: Seq<Body>, c: Contact, v: FixedPoint, sx: int, sy: int)
    requires
        contact_in_bounds(c, bodies.len() as int),
        c.body_a != c.body_b,
        (sx == 0 && (sy == 1 || sy == -1)) || (sy == 0 && (sx == 1 || sx == -1)),
        c.normal.x@ == sx * 65536,
        c.normal.y@ == sy * 65536,
        0 <= v@ < 0x2000_0000,
        bodies[c.body_a as int].inv_mass == FixedPoint::spec_one(),
        bodies[c.body_b as int].inv_mass == FixedPoint::spec_one(),
        bodies[c.body_a as int].restitution == FixedPoint::spec_one(),
        bodies[c.body_b as int].restitution == FixedPoint::spec_one(),
        bodies[c.body_a as int].velocity == c.normal.spec_scale(v),
        bodies[c.body_b as int].velocity == c.normal.spec_scale(v).spec_neg(),
    ensures
        resolve_contact(bodies, c)[c.body_a as int].velocity == bodies[c.body_b as int].velocity,
        resolve_contact(bodies, c)[c.body_b as int].velocity == bodies[c.body_a as int].velocity,
        bodies[c.body_a as int].velocity.spec_neg() == bodies[c.body_b as int].velocity,
        bodies[c.body_b as int].velocity.spec_neg() == bodies[c.body_a as int].velocity,
{
    let ia = c.body_a as int;
    let ib = c.body_b as int;
    let a = bodies[ia];
    let b = bodies[ib];
    lemma_elastic_impulse(a, b, c, v, sx, sy);
    let impulse = contact_impulse(a, b, c);
    lemma_mul_one(impulse.x);
    lemma_mul_one(impulse.y);
    assert(impulse.spec_scale(a.inv_mass) == impulse);
    assert(impulse.spec_scale(b.inv_mass) == impulse);
    let correction = contact_correction(a, b, c);
    let va = a.velocity.spec_sub(impulse);
    let vb = b.velocity.spec_add(impulse);
    assert(va == b.velocity);
    assert(vb == a.velocity);
    let s1 = bodies.update(ia, Body { velocity: va, ..bodies[ia] });
    assert(s1[ia].velocity == va && s1[ib] == bodies[ib]);
    let s2 = s1.update(ib, Body { velocity: vb, ..s1[ib] });
    assert(s2[ib].velocity == vb && s2[ia] == s1[ia]);
    let s3 = s2.update(
        ia,
        Body { position: s2[ia].position.spec_sub(correction.spec_scale(a.inv_mass)), ..s2[ia] },
    );
    assert(s3[ia].velocity == va && s3[ib] == s2[ib]);
    let s4 = s3.update(
        ib,
        Body { position: s3[ib].position.spec_add(correction.spec_scale(b.inv_mass)), ..s3[ib] },
    );
    assert(s4[ib].velocity == vb && s4[ia] == s3[ia]);
    assert(resolve_contact(bodies, c) == s4);
}

/// A perfectly elastic head-on collision turns both bodies round.
///
/// Two bodies of mass one and restitution one approach each other along
/// the contact normal, A with speed `v` and B with the same speed the other
/// way. After the contact is resolved each has its own velocity negated,
/// and the sum of the two velocities is what it was. The normal lies along
/// an axis and the speed is below 8192, so that no intermediate value is
/// rounded or wraps.
pub proof fn lemma_elastic_head_on(bodies: Seq<Body>, c: Contact, v: FixedPoint)
    requires
        contact_in_bounds(c, bodies.len() as int),
        c.body_a != c.body_b,
        is_axis_unit(c.normal),
        0 <= v@ < 0x2000_0000,
        bodies[c.body_a as int].inv_mass == FixedPoint::spec_one(),
        bodies[c.body_b as int].inv_mass == FixedPoint::spec_one(),
        bodies[c.body_a as int].restitution == FixedPoint::spec_one(),
        bodies[c.body_b as int].restitution == FixedPoint::spec_one(),
        bodies[c.body_a as int].velocity == c.normal.spec_scale(v),
        bodies[c.body_b as int].velocity == c.normal.spec_scale(v).spec_neg(),
    ensures
        resolve_contact(bodies, c)[c.body_a as int].velocity
            == bodies[c.body_a as int].velocity.spec_neg(),
        resolve_contact(bodies, c)[c.body_b as int].velocity
            == bodies[c.body_b as int].velocity.spec_neg(),
        resolve_contact(bodies, c)[c.body_a as int].velocity.spec_add(
            resolve_contact(bodies, c)[c.body_b as int].velocity,
        ) == bodies[c.body_a as int].velocity.spec_add(bodies[c.body_b as int].velocity),
{
    if c.normal == (Vec2 { x: FixedPoint(65536), y: FixedPoint(0) }) {
        lemma_elastic_axis(bodies, c, v, 1, 0);
    } else if c.normal == (Vec2 { x: FixedPoint(-65536i32), y: FixedPoint(0) }) {
        lemma_elastic_axis(bodies, c, v, -1, 0);
    } else if c.normal == (Vec2 { x: FixedPoint(0), y: FixedPoint(65536) }) {
        lemma_elastic_axis(bodies, c, v, 0, 1);
    } else {
        lemma_elastic_axis(bodies, c, v, 0, -1);
    }
}

} // verus!
