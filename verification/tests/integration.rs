use engine::math::fixed_point::FixedPoint;
use engine::math::vec2::Vec2;
use engine::physics::integration::{integrate_bodies, integrate_verlet};
use engine::physics::{Body, PhysicsConfig, PhysicsError, PhysicsWorld};

fn fx(n: i32) -> FixedPoint {
    FixedPoint::from_int(n)
}

fn v(x: i32, y: i32) -> Vec2 {
    Vec2::new(fx(x), fx(y))
}

#[test]
fn body_constructors() {
    let b = Body::new(v(1, 2), fx(4));
    assert_eq!(b.position, v(1, 2));
    assert_eq!(b.velocity, v(0, 0));
    assert_eq!(b.acceleration, v(0, 0));
    assert_eq!(b.mass, fx(4));
    assert_eq!(b.inv_mass.raw(), 16384);
    assert_eq!(b.restitution, FixedPoint::half());
    assert_eq!(b.friction.raw(), 19660);
    assert!(!b.is_static());

    let s = Body::static_body(v(3, 4));
    assert_eq!(s.position, v(3, 4));
    assert_eq!(s.mass, fx(0));
    assert_eq!(s.inv_mass, fx(0));
    assert!(s.is_static());

    let weightless = Body::new(v(0, 0), fx(0));
    assert!(weightless.is_static());
    let negative = Body::new(v(0, 0), fx(-1));
    assert!(negative.is_static());
    assert_eq!(negative.mass, fx(-1));

    // the smallest masses have the largest inverse, not a wrapped one
    let tiny = Body::new(v(0, 0), FixedPoint::from_raw(1));
    assert_eq!(tiny.inv_mass.raw(), i32::MAX);
    assert!(!tiny.is_static());
    let small = Body::new(v(0, 0), FixedPoint::from_raw(2));
    assert_eq!(small.inv_mass.raw(), i32::MAX);
    assert!(!small.is_static());
    let third = Body::new(v(0, 0), FixedPoint::from_raw(3));
    assert_eq!(third.inv_mass.raw(), 1431655765);
    let heavy = Body::new(v(0, 0), FixedPoint::from_raw(i32::MAX));
    assert_eq!(heavy.inv_mass.raw(), 2);
    assert!(!heavy.is_static());

    let d = Body::default();
    assert_eq!(d.mass, fx(1));
    assert_eq!(d.inv_mass, fx(1));
    assert_eq!(d.position, v(0, 0));
}

#[test]
fn velocity_moves_before_position() {
    let mut body = Body::new(v(0, 0), fx(1));
    body.velocity = v(1, 0);
    body.acceleration = v(0, 10);
    let mut bodies = [body];
    integrate_bodies(&mut bodies, FixedPoint::half());
    assert_eq!(bodies[0].velocity, v(1, 5));
    // the position moves with the new velocity: (0.5, 2.5)
    assert_eq!(bodies[0].position.x.raw(), 32768);
    assert_eq!(bodies[0].position.y.raw(), 163840);
    assert_eq!(bodies[0].acceleration, v(0, 0));
}

#[test]
fn static_bodies_are_not_integrated() {
    let mut wall = Body::static_body(v(3, 3));
    wall.velocity = v(1, 1);
    wall.acceleration = v(2, 2);
    let mut bodies = [wall, Body::new(v(0, 0), fx(1))];
    bodies[1].acceleration = v(2, 0);
    integrate_bodies(&mut bodies, fx(1));
    assert_eq!(bodies[0].position, v(3, 3));
    assert_eq!(bodies[0].velocity, v(1, 1));
    assert_eq!(bodies[0].acceleration, v(2, 2));
    assert_eq!(bodies[1].position, v(2, 0));
    let mut none: [Body; 0] = [];
    integrate_bodies(&mut none, fx(1));
}

#[test]
fn verlet_repeats_the_last_move() {
    let mut body = Body::new(v(10, 0), fx(1));
    body.acceleration = v(0, 4);
    let mut bodies = [body, Body::static_body(v(7, 7))];
    let mut previous = [v(8, 0), v(0, 0)];
    integrate_verlet(&mut bodies, &mut previous, FixedPoint::half());
    // 10 + (10 - 8) and 0 + 4 * 0.5 * 0.5
    assert_eq!(bodies[0].position, v(12, 1));
    assert_eq!(bodies[0].acceleration, v(0, 0));
    assert_eq!(previous[0], v(10, 0));
    assert_eq!(bodies[1].position, v(7, 7));
    assert_eq!(previous[1], v(0, 0));
}

#[test]
fn verlet_needs_no_history_for_static_bodies() {
    let mut bodies = [Body::new(v(1, 1), fx(1)), Body::static_body(v(2, 2))];
    let mut previous = [v(1, 1)];
    integrate_verlet(&mut bodies, &mut previous, fx(1));
    assert_eq!(bodies[0].position, v(1, 1));
    assert_eq!(bodies[1].position, v(2, 2));
}

#[test]
fn default_configuration() {
    let config = PhysicsConfig::default();
    assert_eq!(config.gravity, v(0, 980));
    assert_eq!(config.iterations, 8);
    assert_eq!(config.substeps, 1);
    let world = PhysicsWorld::new();
    assert_eq!(world.config.gravity, v(0, 980));
    assert_eq!(world.body_count(), 0);
    let other = PhysicsWorld::default();
    assert_eq!(other.body_count(), 0);
}

#[test]
fn bodies_get_their_index() {
    let mut world = PhysicsWorld::new();
    assert_eq!(world.add_body(Body::new(v(1, 0), fx(1))), 0);
    assert_eq!(world.add_body(Body::static_body(v(2, 0))), 1);
    assert_eq!(world.add_body(Body::new(v(3, 0), fx(1))), 2);
    assert_eq!(world.body_count(), 3);
    assert_eq!(world.bodies[1].position, v(2, 0));
    assert_eq!(world.body_position(2), Ok(v(3, 0)));
    assert_eq!(world.body_velocity(0), Ok(v(0, 0)));
}

#[test]
fn accessors_refuse_an_index_out_of_bounds() {
    let mut world = PhysicsWorld::new();
    assert_eq!(
        world.body_position(0),
        Err(PhysicsError::BodyIndexOutOfBounds { index: 0, count: 0 })
    );
    world.add_body(Body::new(v(1, 0), fx(1)));
    assert_eq!(
        world.body_velocity(1),
        Err(PhysicsError::BodyIndexOutOfBounds { index: 1, count: 1 })
    );
    assert_eq!(
        world.body_position(usize::MAX),
        Err(PhysicsError::BodyIndexOutOfBounds { index: usize::MAX, count: 1 })
    );
}

#[test]
fn a_single_body_falls_step_by_step() {
    let mut world = PhysicsWorld::new();
    world.add_body(Body::new(v(0, 0), fx(1)));
    world.step();
    // dt is 1092 / 65536, a sixtieth rounded toward zero
    assert_eq!(world.bodies[0].velocity.y.raw(), 1070160);
    assert_eq!(world.bodies[0].position.y.raw(), 17831);
    assert_eq!(world.bodies[0].velocity.x.raw(), 0);
    assert_eq!(world.bodies[0].acceleration, v(0, 0));
    world.step();
    assert_eq!(world.bodies[0].velocity.y.raw(), 2140320);
    assert_eq!(world.bodies[0].position.y.raw(), 17831 + 35663);
}

#[test]
fn free_fall_matches_the_sum_of_its_steps() {
    let gravity = Vec2::new(FixedPoint::from_raw(-12345), FixedPoint::from_raw(64225280));
    let config = PhysicsConfig { gravity, iterations: 3, substeps: 1 };
    let mut world = PhysicsWorld::with_config(config);
    let mut body = Body::new(v(5, -7), fx(2));
    body.velocity = Vec2::new(FixedPoint::from_raw(777), FixedPoint::from_raw(-99999));
    world.add_body(body);

    let dt: i64 = 1092;
    let gain_x = (gravity.x.raw() as i64 * dt) >> 16;
    let gain_y = (gravity.y.raw() as i64 * dt) >> 16;
    let mut distance_x: i64 = 0;
    let mut distance_y: i64 = 0;
    for n in 1..=200i64 {
        world.step();
        let vx = body.velocity.x.raw() as i64 + n * gain_x;
        let vy = body.velocity.y.raw() as i64 + n * gain_y;
        distance_x += (vx as i32 as i64 * dt) >> 16;
        distance_y += (vy as i32 as i64 * dt) >> 16;
        assert_eq!(world.bodies[0].velocity.x.raw(), vx as i32);
        assert_eq!(world.bodies[0].velocity.y.raw(), vy as i32);
        assert_eq!(
            world.bodies[0].position.x.raw(),
            (body.position.x.raw() as i64 + distance_x) as i32
        );
        assert_eq!(
            world.bodies[0].position.y.raw(),
            (body.position.y.raw() as i64 + distance_y) as i32
        );
    }
}

#[test]
fn substeps_divide_the_step() {
    let config = PhysicsConfig { gravity: v(0, 980), iterations: 1, substeps: 2 };
    let mut world = PhysicsWorld::with_config(config);
    world.add_body(Body::new(v(0, 0), fx(1)));
    world.step();
    // two substeps of 546 / 65536 each
    let gain = (980i64 * 65536 * 546) >> 16;
    assert_eq!(world.bodies[0].velocity.y.raw() as i64, 2 * gain);
    let first = (gain * 546) >> 16;
    let second = (2 * gain * 546) >> 16;
    assert_eq!(world.bodies[0].position.y.raw() as i64, first + second);
}

#[test]
fn no_substeps_no_motion() {
    let config = PhysicsConfig { gravity: v(0, 980), iterations: 1, substeps: 0 };
    let mut world = PhysicsWorld::with_config(config);
    world.add_body(Body::new(v(1, 1), fx(1)));
    world.step();
    assert_eq!(world.bodies[0].position, v(1, 1));
    assert_eq!(world.bodies[0].velocity, v(0, 0));
}

#[test]
fn static_bodies_do_not_fall() {
    let mut world = PhysicsWorld::new();
    world.add_body(Body::static_body(v(4, 4)));
    world.step();
    assert_eq!(world.bodies[0].position, v(4, 4));
    assert_eq!(world.bodies[0].velocity, v(0, 0));
}

#[test]
fn overlapping_bodies_are_pushed_apart_in_a_step() {
    let config = PhysicsConfig { gravity: v(0, 0), iterations: 1, substeps: 1 };
    let mut world = PhysicsWorld::with_config(config);
    world.add_body(Body::new(v(0, 0), fx(1)));
    world.add_body(Body::new(v(15, 0), fx(1)));
    world.step();
    // penetration 5, corrected by four fifths of it, half on each side
    let push = 2 * 65536;
    assert_eq!(world.bodies[0].position.x.raw() as i64, -push);
    assert_eq!(world.bodies[1].position.x.raw() as i64, 15 * 65536 + push);
    assert_eq!(world.bodies[0].velocity, v(0, 0));
}
