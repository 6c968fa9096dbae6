use engine::math::fixed_point::FixedPoint;
use engine::math::vec2::Vec2;
use engine::physics::collision::{
    aabb_vs_aabb, circle_vs_circle, detect_collisions, resolve_contacts, Circle, AABB,
};
use engine::physics::{Body, Contact};

fn fx(n: i32) -> FixedPoint {
    FixedPoint::from_int(n)
}

fn v(x: i32, y: i32) -> Vec2 {
    Vec2::new(fx(x), fx(y))
}

fn boxed(x0: i32, y0: i32, x1: i32, y1: i32) -> AABB {
    AABB::new(v(x0, y0), v(x1, y1))
}

#[test]
fn circles_of_radius_five_eight_apart() {
    let a = Circle::new(v(0, 0), fx(5));
    let b = Circle::new(v(8, 0), fx(5));
    let contact = circle_vs_circle(&a, &b).expect("the circles overlap");
    assert_eq!(contact.penetration, fx(2));
    assert_eq!(contact.normal, v(1, 0));
    assert_eq!(contact.point, v(5, 0));
    assert_eq!(contact.body_a, 0);
    assert_eq!(contact.body_b, 0);
    assert!(a.intersects(&b));
}

#[test]
fn circle_normal_points_from_first_to_second() {
    let a = Circle::new(v(0, 0), fx(5));
    let b = Circle::new(v(0, -6), fx(5));
    let contact = circle_vs_circle(&a, &b).expect("the circles overlap");
    assert_eq!(contact.normal, v(0, -1));
    assert_eq!(contact.penetration, fx(4));
    let back = circle_vs_circle(&b, &a).expect("the circles overlap");
    assert_eq!(back.normal, v(0, 1));
}

#[test]
fn circle_normal_along_a_diagonal_is_rounded_toward_zero() {
    let a = Circle::new(v(0, 0), fx(5));
    let b = Circle::new(v(3, 4), fx(5));
    let contact = circle_vs_circle(&a, &b).expect("the circles overlap");
    assert_eq!(contact.normal.x.raw(), 39321);
    assert_eq!(contact.normal.y.raw(), 52428);
    assert_eq!(contact.penetration, fx(5));
}

#[test]
fn touching_circles_are_not_in_contact() {
    let a = Circle::new(v(0, 0), fx(5));
    let b = Circle::new(v(10, 0), fx(5));
    assert!(circle_vs_circle(&a, &b).is_none());
    assert!(!a.intersects(&b));
    let c = Circle::new(v(20, 0), fx(5));
    assert!(circle_vs_circle(&a, &c).is_none());
    // one raw unit closer is enough
    let d = Circle::new(Vec2::new(FixedPoint::from_raw(10 * 65536 - 1), fx(0)), fx(5));
    assert!(circle_vs_circle(&a, &d).is_some());
}

#[test]
fn coincident_circles_get_the_fixed_direction() {
    let a = Circle::new(v(3, 3), fx(2));
    let contact = circle_vs_circle(&a, &a).expect("a circle overlaps itself");
    assert_eq!(contact.normal, Vec2::up());
    assert_eq!(contact.penetration, fx(4));
    assert_eq!(contact.point, v(3, 1));
}

#[test]
fn far_apart_circles_do_not_wrap_into_contact() {
    let a = Circle::new(v(-30000, 0), fx(5));
    let b = Circle::new(v(30000, 0), fx(5));
    assert!(circle_vs_circle(&a, &b).is_none());
    assert!(!a.intersects(&b));
}

#[test]
fn circle_to_aabb_is_the_box_around_it() {
    let c = Circle::new(v(3, 4), fx(2));
    let b = c.to_aabb();
    assert_eq!(b.min, v(1, 2));
    assert_eq!(b.max, v(5, 6));
}

#[test]
fn aabb_basics() {
    let b = boxed(0, 2, 10, 8);
    assert_eq!(b.center(), v(5, 5));
    assert_eq!(b.half_extents(), v(5, 3));
    let g = b.expand(fx(1));
    assert_eq!(g.min, v(-1, 1));
    assert_eq!(g.max, v(11, 9));
    let c = AABB::from_center(v(5, 5), v(5, 3));
    assert_eq!(c.min, b.min);
    assert_eq!(c.max, b.max);
    let d = AABB::default();
    assert_eq!(d.min, v(0, 0));
    assert_eq!(d.max, v(0, 0));
}

#[test]
fn aabb_center_rounds_down_and_does_not_wrap() {
    let b = AABB::new(
        Vec2::new(FixedPoint::from_raw(i32::MAX - 1), FixedPoint::from_raw(-3)),
        Vec2::new(FixedPoint::from_raw(i32::MAX), FixedPoint::from_raw(0)),
    );
    assert_eq!(b.center().x.raw(), i32::MAX - 1);
    assert_eq!(b.center().y.raw(), -2);
    assert_eq!(b.half_extents().x.raw(), 0);
    assert_eq!(b.half_extents().y.raw(), 1);
}

#[test]
fn aabb_intersection_counts_touching_edges() {
    let a = boxed(0, 0, 10, 10);
    assert!(a.intersects(&boxed(5, 5, 15, 15)));
    assert!(a.intersects(&boxed(10, 10, 20, 20)));
    assert!(!a.intersects(&boxed(11, 0, 20, 10)));
    assert!(!a.intersects(&boxed(0, 11, 10, 20)));
    assert!(!a.intersects(&boxed(-20, 0, -1, 10)));
}

#[test]
fn separated_boxes_give_no_contact() {
    let a = boxed(0, 0, 10, 10);
    assert!(aabb_vs_aabb(&a, &boxed(20, 20, 30, 30)).is_none());
    assert!(aabb_vs_aabb(&a, &boxed(11, 0, 20, 10)).is_none());
    assert!(aabb_vs_aabb(&a, &boxed(0, -30, 10, -1)).is_none());
    // touching edges overlap by nothing
    assert!(aabb_vs_aabb(&a, &boxed(10, 0, 20, 10)).is_none());
}

#[test]
fn overlapping_boxes_separate_along_the_smaller_overlap() {
    let a = boxed(0, 0, 10, 10);
    let right = aabb_vs_aabb(&a, &boxed(8, 1, 18, 11)).expect("the boxes overlap");
    assert_eq!(right.normal, v(1, 0));
    assert_eq!(right.penetration, fx(2));
    assert_eq!(right.point, v(10, 5));

    let above = aabb_vs_aabb(&a, &boxed(1, -7, 11, 3)).expect("the boxes overlap");
    assert_eq!(above.normal, v(0, -1));
    assert_eq!(above.penetration, fx(3));
    assert_eq!(above.point, v(5, 0));

    let left = aabb_vs_aabb(&a, &boxed(-9, 2, 1, 12)).expect("the boxes overlap");
    assert_eq!(left.normal, v(-1, 0));
    assert_eq!(left.penetration, fx(1));
}

#[test]
fn equal_overlaps_separate_along_x() {
    let a = boxed(0, 0, 10, 10);
    let contact = aabb_vs_aabb(&a, &boxed(5, 5, 15, 15)).expect("the boxes overlap");
    assert_eq!(contact.normal, v(1, 0));
    assert_eq!(contact.penetration, fx(5));
    assert_eq!(contact.point, v(10, 5));
    // boxes on top of each other: zero counts as positive
    let same = aabb_vs_aabb(&a, &a).expect("a box overlaps itself");
    assert_eq!(same.normal, v(1, 0));
    assert_eq!(same.penetration, fx(10));
}

#[test]
fn all_pairs_within_twenty_units_collide() {
    let bodies = [
        Body::new(v(0, 0), fx(1)),
        Body::new(v(15, 0), fx(1)),
        Body::new(v(100, 100), fx(1)),
        Body::new(v(15, 12), fx(1)),
    ];
    let mut contacts: Vec<Contact> = Vec::new();
    detect_collisions(&bodies, &mut contacts);
    assert_eq!(contacts.len(), 3);
    assert_eq!((contacts[0].body_a, contacts[0].body_b), (0, 1));
    assert_eq!(contacts[0].normal, v(1, 0));
    assert_eq!(contacts[0].penetration, fx(5));
    assert_eq!(contacts[0].point, v(10, 0));
    assert_eq!((contacts[1].body_a, contacts[1].body_b), (0, 3));
    assert_eq!((contacts[2].body_a, contacts[2].body_b), (1, 3));
    assert_eq!(contacts[2].normal, v(0, 1));
    assert_eq!(contacts[2].penetration, fx(8));
}

#[test]
fn detection_appends_to_what_is_there() {
    let bodies = [Body::new(v(0, 0), fx(1)), Body::new(v(1, 0), fx(1))];
    let mut contacts: Vec<Contact> = Vec::new();
    detect_collisions(&bodies, &mut contacts);
    detect_collisions(&bodies, &mut contacts);
    assert_eq!(contacts.len(), 2);
    let mut none: Vec<Contact> = Vec::new();
    detect_collisions(&[], &mut none);
    assert!(none.is_empty());
    detect_collisions(&bodies[..1], &mut none);
    assert!(none.is_empty());
}

fn head_on(speed: i32, normal: Vec2) -> ([Body; 2], Contact) {
    let mut a = Body::new(v(0, 0), fx(1));
    let mut b = Body::new(v(10, 0), fx(1));
    a.restitution = fx(1);
    b.restitution = fx(1);
    a.velocity = normal * fx(speed);
    b.velocity = -(normal * fx(speed));
    let contact = Contact {
        body_a: 0,
        body_b: 1,
        normal,
        penetration: fx(0),
        point: v(5, 0),
    };
    ([a, b], contact)
}

#[test]
fn elastic_head_on_collision_negates_the_velocities() {
    for normal in [v(1, 0), v(-1, 0), v(0, 1), v(0, -1)] {
        for speed in [0, 1, 3, 100, 8191] {
            let (mut bodies, contact) = head_on(speed, normal);
            let before = [bodies[0].velocity, bodies[1].velocity];
            resolve_contacts(&mut bodies, &[contact]);
            assert_eq!(bodies[0].velocity, -before[0]);
            assert_eq!(bodies[1].velocity, -before[1]);
            assert_eq!(bodies[0].velocity + bodies[1].velocity, before[0] + before[1]);
            assert_eq!(bodies[0].position, v(0, 0));
            assert_eq!(bodies[1].position, v(10, 0));
        }
    }
}

#[test]
fn elastic_head_on_collision_breaks_where_the_impulse_wraps() {
    let (mut bodies, contact) = head_on(8192, v(1, 0));
    resolve_contacts(&mut bodies, &[contact]);
    assert_ne!(bodies[0].velocity, v(-8192, 0));
}

#[test]
fn bodies_of_equal_mass_keep_the_sum_of_their_velocities() {
    let masses = [FixedPoint::from_raw(3), FixedPoint::half(), fx(1), fx(7), fx(300)];
    let normals = [v(1, 0), Vec2::new(FixedPoint::from_raw(39321), FixedPoint::from_raw(52428))];
    for mass in masses {
        for normal in normals {
            let mut a = Body::new(v(0, 0), mass);
            let mut b = Body::new(v(3, 4), mass);
            a.velocity = Vec2::new(FixedPoint::from_raw(123456), FixedPoint::from_raw(7));
            b.velocity = Vec2::new(FixedPoint::from_raw(-999999), FixedPoint::from_raw(-31));
            a.restitution = FixedPoint::from_raw(20000);
            let sum = a.velocity + b.velocity;
            let mut bodies = [a, b];
            let contact =
                Contact { body_a: 0, body_b: 1, normal, penetration: fx(1), point: v(0, 0) };
            resolve_contacts(&mut bodies, &[contact]);
            assert_ne!(bodies[0].velocity, a.velocity);
            assert_eq!(bodies[0].velocity + bodies[1].velocity, sum);
        }
    }
}

#[test]
fn momentum_is_kept_up_to_rounding_for_any_masses() {
    let pairs = [(2, 5), (1, 300), (7, 7), (40, 3)];
    for (mass_a, mass_b) in pairs {
        let mut a = Body::new(v(0, 0), fx(mass_a));
        let mut b = Body::new(v(5, 0), fx(mass_b));
        a.velocity = v(9, 2);
        b.velocity = v(-4, -1);
        let normal = Vec2::new(FixedPoint::from_raw(39321), FixedPoint::from_raw(52428));
        let contact =
            Contact { body_a: 0, body_b: 1, normal, penetration: fx(0), point: v(0, 0) };
        let mut bodies = [a, b];
        resolve_contacts(&mut bodies, &[contact]);
        assert_ne!(bodies[0].velocity, a.velocity);
        let lost = a.velocity - bodies[0].velocity;
        let gained = bodies[1].velocity - b.velocity;
        for (l, g) in [(lost.x, gained.x), (lost.y, gained.y)] {
            let taken = (l.raw() as i64 * a.mass.raw() as i64) >> 16;
            let given = (g.raw() as i64 * b.mass.raw() as i64) >> 16;
            // each is the impulse up to mass / 2^16 + 1 raw units and the
            // share mass / 2^32 of the impulse, under a hundredth here
            let share = (taken.abs() + given.abs()) / 100;
            let allowance =
                share + (a.mass.raw() as i64 >> 16) + (b.mass.raw() as i64 >> 16) + 6;
            assert!((taken - given).abs() <= allowance);
        }
    }
}

#[test]
fn separating_bodies_are_left_alone() {
    let (mut bodies, contact) = head_on(3, v(1, 0));
    bodies[0].velocity = v(-3, 0);
    bodies[1].velocity = v(3, 0);
    let mut deep = contact;
    deep.penetration = fx(2);
    resolve_contacts(&mut bodies, &[deep]);
    assert_eq!(bodies[0].velocity, v(-3, 0));
    assert_eq!(bodies[1].velocity, v(3, 0));
    assert_eq!(bodies[0].position, v(0, 0));
    assert_eq!(bodies[1].position, v(10, 0));
}

#[test]
fn two_static_bodies_are_left_alone() {
    let mut bodies = [Body::static_body(v(0, 0)), Body::static_body(v(1, 0))];
    bodies[0].velocity = v(1, 0);
    let contact =
        Contact { body_a: 0, body_b: 1, normal: v(1, 0), penetration: fx(2), point: v(0, 0) };
    resolve_contacts(&mut bodies, &[contact]);
    assert_eq!(bodies[0].velocity, v(1, 0));
    assert_eq!(bodies[0].position, v(0, 0));
    assert_eq!(bodies[1].position, v(1, 0));
}

#[test]
fn penetration_is_corrected_by_four_fifths() {
    let (mut bodies, mut contact) = head_on(0, v(1, 0));
    contact.penetration = fx(2);
    resolve_contacts(&mut bodies, &[contact]);
    // four fifths of 2 is 104857 raw, rounded down; half of it for each body
    assert_eq!(bodies[0].position.x.raw(), -52428);
    assert_eq!(bodies[1].position.x.raw(), 10 * 65536 + 52428);
    assert_eq!(bodies[0].position.y.raw(), 0);
}

#[test]
fn a_static_body_leaves_the_whole_correction_to_the_other() {
    let mut bodies = [Body::static_body(v(0, 0)), Body::new(v(1, 0), fx(1))];
    let contact =
        Contact { body_a: 0, body_b: 1, normal: v(1, 0), penetration: fx(5), point: v(0, 0) };
    resolve_contacts(&mut bodies, &[contact]);
    // four fifths of the depth of 5, all of it on the body that can move
    assert_eq!(bodies[1].position, v(5, 0));
    assert_eq!(bodies[0].position, v(0, 0));
    assert_eq!(bodies[0].velocity, v(0, 0));
    assert_eq!(bodies[1].velocity, v(0, 0));
}

#[test]
fn the_correction_is_four_fifths_rounded_once() {
    let (mut bodies, mut contact) = head_on(0, v(1, 0));
    contact.penetration = FixedPoint::from_raw(7);
    bodies[0] = Body::static_body(v(0, 0));
    resolve_contacts(&mut bodies, &[contact]);
    // 7 * 4 / 5 rounded down
    assert_eq!(bodies[1].position.x.raw(), 10 * 65536 + 5);
    assert_eq!(FixedPoint::from_raw(7).four_fifths().raw(), 5);
    assert_eq!(FixedPoint::from_raw(-7).four_fifths().raw(), -6);
    assert_eq!(fx(5).four_fifths(), fx(4));
    assert_eq!(FixedPoint::from_raw(i32::MAX).four_fifths().raw(), 1717986917);
    assert_eq!(FixedPoint::from_raw(i32::MIN).four_fifths().raw(), -1717986919);
}

#[test]
fn the_depth_is_positive_and_stops_at_the_largest_number() {
    let huge = FixedPoint::from_raw(i32::MAX);
    let a = Circle::new(v(0, 0), huge);
    let b = Circle::new(v(1, 0), huge);
    let contact = circle_vs_circle(&a, &b).expect("the circles overlap");
    assert_eq!(contact.penetration.raw(), i32::MAX);
    // radii below zero reach as far as their size
    let c = Circle::new(v(0, 0), fx(-5));
    let d = Circle::new(v(8, 0), fx(-5));
    let contact = circle_vs_circle(&c, &d).expect("the circles overlap");
    assert_eq!(contact.penetration, fx(2));
    let wide = AABB::new(
        Vec2::new(FixedPoint::from_raw(i32::MIN), FixedPoint::from_raw(i32::MIN)),
        Vec2::new(FixedPoint::from_raw(i32::MAX), FixedPoint::from_raw(i32::MAX)),
    );
    let contact = aabb_vs_aabb(&wide, &wide).expect("a box overlaps itself");
    assert_eq!(contact.penetration.raw(), i32::MAX);
    assert!(contact.penetration > FixedPoint::zero());
}

#[test]
fn the_less_bouncy_body_decides_the_restitution() {
    let (mut bodies, contact) = head_on(4, v(1, 0));
    bodies[1].restitution = FixedPoint::half();
    resolve_contacts(&mut bodies, &[contact]);
    // j = -(1 + 0.5) * (-8) / 2 = 6
    assert_eq!(bodies[0].velocity, v(-2, 0));
    assert_eq!(bodies[1].velocity, v(2, 0));
}

#[test]
fn a_static_body_takes_no_impulse() {
    let mut wall = Body::static_body(v(10, 0));
    wall.restitution = fx(1);
    let mut ball = Body::new(v(0, 0), fx(1));
    ball.restitution = fx(1);
    ball.velocity = v(5, 0);
    let mut bodies = [ball, wall];
    let contact =
        Contact { body_a: 0, body_b: 1, normal: v(1, 0), penetration: fx(0), point: v(5, 0) };
    resolve_contacts(&mut bodies, &[contact]);
    assert_eq!(bodies[0].velocity, v(-5, 0));
    assert_eq!(bodies[1].velocity, v(0, 0));
    assert_eq!(bodies[1].position, v(10, 0));
}

#[test]
fn contacts_are_resolved_in_order() {
    let (mut bodies, contact) = head_on(3, v(1, 0));
    // the second pass finds the bodies moving apart and changes nothing
    resolve_contacts(&mut bodies, &[contact, contact]);
    assert_eq!(bodies[0].velocity, v(-3, 0));
    assert_eq!(bodies[1].velocity, v(3, 0));
    resolve_contacts(&mut bodies, &[]);
    assert_eq!(bodies[0].velocity, v(-3, 0));
}
