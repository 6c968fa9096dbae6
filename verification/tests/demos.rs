use engine::ecs::components::{Sprite, Transform, Velocity};
use engine::ecs::World;
use engine::games::massive_sim::{self, EntityData, EntityState, BACKGROUND};
use engine::games::physics_2d::{
    add_scene, ball_parts, player_parts, record_sprite, slab_parts, slowed, spawn_scene, steer,
    GRAVITY_RAW, JUMP_FORCE_RAW, PLAYER_SPEED_RAW,
};
use engine::input::{InputState, Key};
use engine::math::fixed_point::FixedPoint;
use engine::math::vec2::Vec2;
use engine::physics::PhysicsWorld;
use engine::render::colors::{BLUE, GREEN, RED, YELLOW};
use engine::render::{CommandBuffer, Renderer};

fn raw(x: i32, y: i32) -> Vec2 {
    Vec2::new(FixedPoint::from_raw(x), FixedPoint::from_raw(y))
}

fn whole(x: i32, y: i32) -> Vec2 {
    Vec2::new(FixedPoint::from_int(x), FixedPoint::from_int(y))
}

fn sixtieth() -> FixedPoint {
    FixedPoint::from_raw(1092)
}

fn moving(x: i32, y: i32) -> Velocity {
    Velocity { linear: raw(x, y), angular: FixedPoint::from_raw(77) }
}

#[test]
fn friction_leaves_nine_tenths_rounded_down() {
    assert_eq!(slowed(FixedPoint::from_raw(655360)).raw(), 589824);
    assert_eq!(slowed(FixedPoint::from_raw(-7)).raw(), -7);
    assert_eq!(slowed(FixedPoint::from_raw(7)).raw(), 6);
    assert_eq!(slowed(FixedPoint::from_raw(0)).raw(), 0);
    assert_eq!(slowed(FixedPoint::from_raw(i32::MAX)).raw(), 1932735282);
    assert_eq!(slowed(FixedPoint::from_raw(i32::MIN)).raw(), -1932735284);
}

#[test]
fn the_player_runs_where_the_keys_say() {
    let gravity = 1070160;
    assert_eq!(GRAVITY_RAW, 980 * 65536);

    let mut input = InputState::new();
    input.key_pressed(Key::D);
    let right = steer(moving(5, 9), &input, sixtieth());
    assert_eq!(right.linear, raw(PLAYER_SPEED_RAW, 9 + gravity));
    assert_eq!(right.angular.raw(), 77);

    input.key_pressed(Key::Left);
    let left = steer(moving(5, 9), &input, sixtieth());
    assert_eq!(left.linear, raw(-PLAYER_SPEED_RAW, 9 + gravity));

    let idle = InputState::new();
    let coasting = steer(moving(655360, 0), &idle, sixtieth());
    assert_eq!(coasting.linear, raw(589824, gravity));
}

#[test]
fn the_player_jumps_only_in_the_frame_of_the_press() {
    let mut input = InputState::new();
    input.key_pressed(Key::Space);
    let jumped = steer(moving(0, 123), &input, sixtieth());
    assert_eq!(jumped.linear, raw(0, JUMP_FORCE_RAW + 1070160));

    input.begin_frame();
    assert!(input.is_key_down(Key::Space));
    let held = steer(moving(0, 123), &input, sixtieth());
    assert_eq!(held.linear, raw(0, 123 + 1070160));
}

#[test]
fn the_scene_has_seventeen_bodies_in_order() {
    let mut physics = PhysicsWorld::new();
    add_scene(&mut physics);
    assert_eq!(physics.body_count(), 17);
    assert_eq!(physics.body_position(0).unwrap(), whole(100, 300));
    assert_eq!(physics.body_velocity(0).unwrap(), whole(0, 0));
    assert_eq!(physics.body_position(1).unwrap(), whole(400, 550));
    assert_eq!(physics.body_position(2).unwrap(), whole(150, 450));
    assert_eq!(physics.body_position(6).unwrap(), whole(750, 210));
    assert_eq!(physics.body_position(7).unwrap(), whole(100, 100));
    assert_eq!(physics.body_position(8).unwrap(), whole(170, 150));
    assert_eq!(physics.body_position(9).unwrap(), whole(240, 200));
    assert_eq!(physics.body_position(16).unwrap(), whole(730, 100));
    assert_eq!(physics.body_velocity(16).unwrap(), whole(50, 0));
    assert!(physics.body_position(17).is_err());
}

#[test]
fn the_scene_comes_after_the_bodies_that_were_there() {
    let mut physics = PhysicsWorld::new();
    physics.add_body(engine::physics::Body::static_body(whole(1, 2)));
    add_scene(&mut physics);
    assert_eq!(physics.body_count(), 18);
    assert_eq!(physics.body_position(0).unwrap(), whole(1, 2));
    assert_eq!(physics.body_position(1).unwrap(), whole(100, 300));
}

#[test]
fn the_scene_spawns_seventeen_entities() {
    let mut world = World::new();
    let earlier = world.spawn(player_parts());
    let player = spawn_scene(&mut world);
    assert_ne!(player, earlier);
    assert_eq!(world.entity_count(), 18);
    assert_eq!(world.len(), 18);
    assert!(world.inner().contains(player));
    assert!(world.inner().contains(earlier));
    let at = world.inner().get::<&Transform>(player).unwrap().position;
    assert_eq!(at, whole(100, 300));
}

#[test]
fn the_parts_of_the_scene_are_as_laid_out() {
    let player = player_parts();
    assert!(player.player && !player.enemy);
    assert_eq!(player.sprite.unwrap().width, 32);
    assert_eq!(player.rigid_body.unwrap().inv_mass.raw(), 65536);

    let slab = slab_parts(150, 450, 100, 20, YELLOW);
    assert_eq!(slab.transform.unwrap().position, whole(150, 450));
    assert!(slab.velocity.is_none());
    assert_eq!(slab.rigid_body.unwrap().inv_mass.raw(), 0);
    assert_eq!(slab.sprite.unwrap().color, YELLOW);

    let ball = ball_parts(4);
    assert!(ball.enemy && !ball.player);
    assert_eq!(ball.transform.unwrap().position, whole(380, 150));
    assert_eq!(ball.velocity.unwrap().linear, whole(50, 0));
    assert_eq!(ball.rigid_body.unwrap().mass.raw(), 32768);
    assert_eq!(ball.rigid_body.unwrap().inv_mass.raw(), 131072);
}

#[test]
fn a_sprite_is_drawn_around_its_position() {
    let mut buffer = CommandBuffer::new();
    let transform =
        Transform::new(FixedPoint::from_raw(10 * 65536 + 40000), FixedPoint::from_int(6));
    record_sprite(&mut buffer, transform, Sprite { color: RED, width: 4, height: 2 });
    let mut renderer = Renderer::new(20, 20);
    buffer.execute(&mut renderer);
    for y in 0..20 {
        for x in 0..20 {
            let inside = (8..12).contains(&x) && (5..7).contains(&y);
            assert_eq!(renderer.get_pixel(x, y) == RED, inside);
        }
    }
}

#[test]
fn a_new_swarm_is_spread_over_the_world() {
    let swarm = EntityData::swarm(201);
    assert_eq!(swarm.len(), 201);
    assert_eq!(swarm.positions_x[0].raw(), 0);
    assert_eq!(swarm.positions_x[1].raw(), 478412);
    assert_eq!(swarm.positions_y[1].raw(), 766771);
    assert_eq!(swarm.positions_x[200].raw(), 28573536);
    assert_eq!(swarm.positions_y[200].raw(), 2359256);
    assert_eq!(swarm.colors[0], RED);
    assert_eq!(swarm.colors[1], GREEN);
    assert_eq!(swarm.colors[2], BLUE);
    assert_eq!(swarm.colors[3], RED);
    assert_eq!(swarm.radii[0], FixedPoint::from_int(2));
    assert_eq!(swarm.radii[2], FixedPoint::from_int(4));
    assert_eq!(swarm.velocities_x[200].raw(), 0);
    assert_eq!(swarm.velocities_y[200].raw(), 0);
    assert_eq!(swarm.states[200], EntityState::Wandering);
    assert_eq!(EntityData::swarm(0).len(), 0);
}

#[test]
fn an_entity_is_steered_by_the_noise_of_its_position() {
    let still = raw(0, 0);
    assert_eq!(massive_sim::steer(raw(0, 0), still, sixtieth()), raw(-16928, -19547));
    assert_eq!(massive_sim::steer(raw(478412, 766771), still, sixtieth()), raw(16597, 13976));
    assert_eq!(massive_sim::steer(raw(0, 0), still, FixedPoint::from_raw(0)), still);
}

#[test]
fn a_velocity_is_held_to_the_greatest_speed() {
    assert_eq!(massive_sim::limit_speed(whole(300, 400)), raw(1965900, 2621200));
    assert_eq!(massive_sim::limit_speed(whole(30, 40)), whole(30, 40));
    assert_eq!(massive_sim::limit_speed(whole(0, 0)), whole(0, 0));
    let fast = massive_sim::steer(raw(327680, 458752), whole(300, 400), sixtieth());
    assert_eq!(fast, raw(1965751, 2621088));
}

#[test]
fn an_entity_that_leaves_the_world_comes_in_on_the_other_side() {
    let dt = sixtieth();
    assert_eq!(massive_sim::drift(raw(0, 0), raw(-16928, -19547), dt), raw(67108581, 50331322));
    let edge = raw(67108854, 6553600);
    assert_eq!(massive_sim::drift(edge, raw(3210844, -68577), dt), raw(53491, 6552457));
    assert_eq!(massive_sim::drift(whole(5, 7), whole(0, 0), dt), whole(5, 7));
}

#[test]
fn a_step_of_the_swarm_steers_and_moves_every_entity() {
    let mut swarm = EntityData::new(2);
    swarm.add(FixedPoint::from_raw(0), FixedPoint::from_raw(0), RED, FixedPoint::from_int(2));
    swarm.add(
        FixedPoint::from_raw(478412),
        FixedPoint::from_raw(766771),
        GREEN,
        FixedPoint::from_int(3),
    );
    swarm.update(sixtieth());
    assert_eq!(swarm.len(), 2);
    assert_eq!((swarm.velocities_x[0].raw(), swarm.velocities_y[0].raw()), (-16928, -19547));
    assert_eq!((swarm.positions_x[0].raw(), swarm.positions_y[0].raw()), (67108581, 50331322));
    assert_eq!((swarm.velocities_x[1].raw(), swarm.velocities_y[1].raw()), (16597, 13976));
    assert_eq!((swarm.positions_x[1].raw(), swarm.positions_y[1].raw()), (478688, 767003));
    assert_eq!(swarm.colors, vec![RED, GREEN]);
    assert_eq!(swarm.states, vec![EntityState::Wandering, EntityState::Wandering]);
}

#[test]
fn the_swarm_is_drawn_as_discs_on_its_background() {
    let mut swarm = EntityData::new(2);
    swarm.add(FixedPoint::from_int(5), FixedPoint::from_int(5), RED, FixedPoint::from_int(2));
    swarm.add(FixedPoint::from_int(15), FixedPoint::from_int(5), BLUE, FixedPoint::from_int(1));
    let mut buffer = CommandBuffer::new();
    buffer.rect(0, 0, 20, 20, GREEN);
    swarm.record(&mut buffer);
    let mut renderer = Renderer::new(20, 10);
    buffer.execute(&mut renderer);
    assert_eq!(renderer.get_pixel(5, 5), RED);
    assert_eq!(renderer.get_pixel(7, 5), RED);
    assert_eq!(renderer.get_pixel(15, 5), BLUE);
    assert_eq!(renderer.get_pixel(16, 5), BLUE);
    assert_eq!(renderer.get_pixel(0, 0), BACKGROUND);
    assert_eq!(renderer.get_pixel(10, 5), BACKGROUND);
    assert_eq!(renderer.get_pixel(19, 9), BACKGROUND);
}
