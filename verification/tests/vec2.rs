use engine::math::fixed_point::FixedPoint;
use engine::math::simd::{
    dot_product_batch, normalize_batch, vec2_add_batch, vec2_mul_scalar_batch, Vec2Array,
};
use engine::math::vec2::Vec2;

fn v(x: i32, y: i32) -> Vec2 {
    Vec2::new(FixedPoint::from_int(x), FixedPoint::from_int(y))
}

#[test]
fn named_vectors() {
    assert_eq!(Vec2::zero(), v(0, 0));
    assert_eq!(Vec2::one(), v(1, 1));
    assert_eq!(Vec2::up(), v(0, -1));
    assert_eq!(Vec2::down(), v(0, 1));
    assert_eq!(Vec2::left(), v(-1, 0));
    assert_eq!(Vec2::right(), v(1, 0));
    assert_eq!(Vec2::default(), v(0, 0));
    assert_eq!(Vec2::splat(FixedPoint::from_int(3)), v(3, 3));
}

#[test]
fn sums_and_scalings_work_by_component() {
    assert_eq!(v(1, 2) + v(3, 4), v(4, 6));
    assert_eq!(v(1, 2) - v(3, 5), v(-2, -3));
    assert_eq!(v(1, 2) * FixedPoint::from_int(3), v(3, 6));
    assert_eq!(FixedPoint::from_int(3) * v(1, 2), v(3, 6));
    assert_eq!(v(6, 9) / FixedPoint::from_int(3), v(2, 3));
    assert_eq!(-v(1, -2), v(-1, 2));
    assert_eq!(v(6, 9) / FixedPoint::zero(), v(0, 0));
}

#[test]
fn assigning_operators() {
    let mut a = v(1, 2);
    a += v(3, 4);
    assert_eq!(a, v(4, 6));
    a -= v(1, 1);
    assert_eq!(a, v(3, 5));
    a *= FixedPoint::from_int(2);
    assert_eq!(a, v(6, 10));
    a /= FixedPoint::from_int(2);
    assert_eq!(a, v(3, 5));
}

#[test]
fn conversions() {
    let a: Vec2 = (FixedPoint::from_int(1), FixedPoint::from_int(2)).into();
    assert_eq!(a, v(1, 2));
    let b: Vec2 = [FixedPoint::from_int(3), FixedPoint::from_int(4)].into();
    assert_eq!(b, v(3, 4));
}

#[test]
fn dot_and_cross_products() {
    assert_eq!(v(1, 2).dot(v(3, 4)), FixedPoint::from_int(11));
    assert_eq!(v(1, 2).cross(v(3, 4)), FixedPoint::from_int(-2));
    assert_eq!(v(3, 4).length_squared(), FixedPoint::from_int(25));
    // the sum is rounded once, not each product
    let h = Vec2::new(FixedPoint::from_raw(1), FixedPoint::from_raw(1));
    let big = Vec2::new(FixedPoint::from_raw(32768), FixedPoint::from_raw(32768));
    assert_eq!(h.dot(big).raw(), 1);
}

#[test]
fn length_of_a_three_four_five_triangle() {
    assert_eq!(v(3, 4).length(), FixedPoint::from_int(5));
    assert_eq!(v(0, 0).length(), FixedPoint::zero());
    assert_eq!(v(-3, -4).length(), FixedPoint::from_int(5));
    assert_eq!(v(1, 1).distance(v(4, 5)), FixedPoint::from_int(5));
    assert_eq!(v(1, 1).distance_squared(v(4, 5)), FixedPoint::from_int(25));
    // the root of 2 rounded down
    assert_eq!(v(1, 1).length().raw(), 92681);
}

#[test]
fn distance_does_not_wrap_between_far_points() {
    let a = Vec2::new(FixedPoint::from_raw(i32::MIN), FixedPoint::zero());
    let b = Vec2::new(FixedPoint::from_raw(i32::MAX), FixedPoint::zero());
    // the true distance is 2^32 - 1 raw units, which wraps to -1
    assert_eq!(a.distance(b).raw(), -1);
    let c = v(-100, 0);
    let d = v(100, 0);
    assert_eq!(c.distance(d), FixedPoint::from_int(200));
}

#[test]
fn normalize_divides_by_the_length() {
    let n = v(3, 4).normalize();
    assert_eq!(n.x.raw(), 39321);
    assert_eq!(n.y.raw(), 52428);
    assert_eq!(v(0, 0).normalize(), v(0, 0));
    assert_eq!(v(0, -7).normalize(), v(0, -1));
    assert_eq!(v(3, 4).normalize_or_zero(), n);
    assert_eq!(v(0, 0).normalize_or_zero(), v(0, 0));
}

#[test]
fn perpendicular_reflect_and_lerp() {
    assert_eq!(v(1, 2).perpendicular(), v(-2, 1));
    assert_eq!(v(1, -1).reflect(v(0, 1)), v(1, 1));
    assert_eq!(v(0, 0).lerp(v(10, 20), FixedPoint::half()), v(5, 10));
}

#[test]
fn min_max_abs_and_clamp_work_by_component() {
    assert_eq!(v(1, 5).min(v(3, 2)), v(1, 2));
    assert_eq!(v(1, 5).max(v(3, 2)), v(3, 5));
    assert_eq!(v(-1, 5).abs(), v(1, 5));
    assert_eq!(v(-5, 9).clamp(v(0, 0), v(4, 4)), v(0, 4));
}

#[test]
fn batch_operations_stop_at_the_shortest_array() {
    let a = [v(1, 2), v(3, 4), v(5, 6)];
    let b = [v(10, 20), v(30, 40)];
    let mut out = [v(-1, -1); 4];
    vec2_add_batch(&a, &b, &mut out);
    assert_eq!(out, [v(11, 22), v(33, 44), v(-1, -1), v(-1, -1)]);

    let mut scaled = [v(0, 0); 2];
    vec2_mul_scalar_batch(&a, FixedPoint::from_int(2), &mut scaled);
    assert_eq!(scaled, [v(2, 4), v(6, 8)]);

    let mut dots = [FixedPoint::zero(); 3];
    dot_product_batch(&a, &b, &mut dots);
    assert_eq!(dots, [FixedPoint::from_int(50), FixedPoint::from_int(250), FixedPoint::zero()]);

    let mut units = [v(9, 9); 2];
    normalize_batch(&[v(0, 5)], &mut units);
    assert_eq!(units, [v(0, 1), v(9, 9)]);
}

#[test]
fn vec2_array_grows_and_clears() {
    let mut array = Vec2Array::new(4);
    assert!(array.is_empty());
    assert_eq!(array.len(), 0);
    array.push(v(1, 2));
    array.push(v(3, 4));
    assert_eq!(array.len(), 2);
    assert!(!array.is_empty());
    assert_eq!(array.data[1], v(3, 4));
    array.clear();
    assert!(array.is_empty());
    let from = Vec2Array::from_vec(vec![v(7, 8)]);
    assert_eq!(from.len(), 1);
    assert_eq!(from.data[0], v(7, 8));
}
