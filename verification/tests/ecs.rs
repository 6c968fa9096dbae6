use engine::ecs::components::{
    Collider, Enemy, EntityParts, Health, Player, RigidBody, Sprite, Transform, Velocity,
};
use engine::ecs::systems::{dead_among, gravity_system, health_system, movement_system};
use engine::ecs::World;
use engine::math::fixed_point::FixedPoint;
use engine::math::vec2::Vec2;

fn fx(n: i32) -> FixedPoint {
    FixedPoint::from_int(n)
}

fn v(x: i32, y: i32) -> Vec2 {
    Vec2::new(fx(x), fx(y))
}

fn player() -> EntityParts {
    EntityParts { player: true, ..EntityParts::none() }
}

fn enemy() -> EntityParts {
    EntityParts { enemy: true, ..EntityParts::none() }
}

fn moving(velocity: Velocity, rigid_body: Option<RigidBody>) -> EntityParts {
    EntityParts { velocity: Some(velocity), rigid_body, ..EntityParts::none() }
}

fn with_health(health: Health) -> EntityParts {
    EntityParts { health: Some(health), ..EntityParts::none() }
}

#[test]
fn a_new_world_is_empty() {
    let world = World::new();
    assert_eq!(world.entity_count(), 0);
    assert_eq!(world.len(), 0);
    assert_eq!(world.inner().len(), 0);
    assert_eq!(World::default().entity_count(), 0);
}

#[test]
fn spawned_entities_are_alive_and_distinct() {
    let mut world = World::new();
    let a = world.spawn(player());
    let b = world.spawn(EntityParts { health: Some(Health::new(fx(3))), ..enemy() });
    assert_ne!(a, b);
    assert_eq!(world.entity_count(), 2);
    assert_eq!(world.len(), 2);
    assert!(world.inner().contains(a));
    assert!(world.inner().contains(b));
    let health = *world.inner().get::<&Health>(b).expect("the enemy has health");
    assert_eq!(health.current, fx(3));
    assert!(world.inner().get::<&Health>(a).is_err());
}

#[test]
fn despawn_succeeds_once() {
    let mut world = World::new();
    let a = world.spawn(player());
    let b = world.spawn(enemy());
    assert!(world.despawn(a).is_ok());
    assert!(!world.inner().contains(a));
    assert!(world.inner().contains(b));
    assert_eq!(world.len(), 1);
    assert_eq!(world.entity_count(), 1);
    assert!(world.despawn(a).is_err());
    assert_eq!(world.len(), 1);
    // the count goes down whether or not the entity was alive
    assert_eq!(world.entity_count(), 0);
    assert!(world.despawn(a).is_err());
    assert_eq!(world.entity_count(), 0);
    assert!(world.inner().contains(b));
}

#[test]
fn clear_destroys_everything() {
    let mut world = World::new();
    let a = world.spawn(player());
    world.spawn(enemy());
    world.clear();
    assert_eq!(world.entity_count(), 0);
    assert_eq!(world.len(), 0);
    assert!(!world.inner().contains(a));
    world.spawn(enemy());
    assert_eq!(world.len(), 1);
    assert_eq!(world.entity_count(), 1);
}

#[test]
fn component_constructors() {
    let t = Transform::new(fx(1), fx(2));
    assert_eq!(t.position, v(1, 2));
    assert_eq!(t.rotation, fx(0));
    assert_eq!(t.scale, v(1, 1));
    assert_eq!(Transform::default().scale, v(0, 0));
    assert_eq!(Velocity::default().linear, v(0, 0));

    let body = RigidBody::new(fx(2));
    assert_eq!(body.mass, fx(2));
    assert_eq!(body.inv_mass, FixedPoint::half());
    assert_eq!(body.restitution, FixedPoint::half());
    assert_eq!(body.friction.raw(), 19660);
    assert_eq!(RigidBody::new(fx(0)).inv_mass, fx(0));
    assert_eq!(RigidBody::new(fx(-3)).inv_mass, fx(0));
    assert_eq!(RigidBody::static_body().mass, fx(0));
    assert_eq!(RigidBody::static_body().inv_mass, fx(0));
    assert_eq!(RigidBody::default().inv_mass, fx(1));

    assert!(matches!(Collider::default(), Collider::Circle { radius } if radius == fx(1)));
    let sprite = Sprite::default();
    assert_eq!((sprite.color, sprite.width, sprite.height), (0xFFFFFFFF, 8, 8));
    let _ = (Player::default(), Enemy::default());
}

#[test]
fn health_stays_between_zero_and_max() {
    let mut health = Health::new(fx(10));
    assert_eq!(health.current, fx(10));
    assert!(!health.is_dead());
    health.damage(fx(4));
    assert_eq!(health.current, fx(6));
    health.heal(fx(1));
    assert_eq!(health.current, fx(7));
    health.heal(fx(100));
    assert_eq!(health.current, fx(10));
    health.damage(fx(25));
    assert_eq!(health.current, fx(0));
    assert!(health.is_dead());
    assert_eq!(health.max, fx(10));
}

#[test]
fn movement_follows_the_velocity() {
    let t = Transform::new(fx(1), fx(2));
    let vel = Velocity { linear: v(4, -2), angular: fx(3) };
    let moved = t.moved(vel, FixedPoint::half());
    assert_eq!(moved.position, v(3, 1));
    assert_eq!(moved.rotation.raw(), 98304);
    assert_eq!(moved.scale, v(1, 1));

    let mut world = World::new();
    let mover = world.spawn(EntityParts {
        transform: Some(t),
        velocity: Some(vel),
        ..EntityParts::none()
    });
    let still = world.spawn(EntityParts { transform: Some(t), ..EntityParts::none() });
    movement_system(&mut world, FixedPoint::half());
    assert_eq!(world.inner().get::<&Transform>(mover).expect("alive").position, v(3, 1));
    assert_eq!(world.inner().get::<&Transform>(still).expect("alive").position, v(1, 2));
    movement_system(&mut world, fx(1));
    assert_eq!(world.inner().get::<&Transform>(mover).expect("alive").position, v(7, -1));
    assert_eq!(world.entity_count(), 2);
    assert_eq!(world.len(), 2);
}

#[test]
fn gravity_pulls_on_what_can_move() {
    let vel = Velocity { linear: v(1, 1), angular: fx(0) };
    assert_eq!(vel.pulled(RigidBody::new(fx(1)), fx(10), FixedPoint::half()).linear, v(1, 6));
    assert_eq!(vel.pulled(RigidBody::static_body(), fx(10), FixedPoint::half()).linear, v(1, 1));

    let mut world = World::new();
    let ball = world.spawn(moving(vel, Some(RigidBody::new(fx(2)))));
    let wall = world.spawn(moving(vel, Some(RigidBody::static_body())));
    let ghost = world.spawn(moving(vel, None));
    gravity_system(&mut world, fx(10), FixedPoint::half());
    assert_eq!(world.inner().get::<&Velocity>(ball).expect("alive").linear, v(1, 6));
    assert_eq!(world.inner().get::<&Velocity>(wall).expect("alive").linear, v(1, 1));
    assert_eq!(world.inner().get::<&Velocity>(ghost).expect("alive").linear, v(1, 1));
    assert_eq!(world.len(), 3);
}

#[test]
fn the_dead_are_removed() {
    let mut world = World::new();
    let alive = world.spawn(with_health(Health::new(fx(5))));
    let mut spent = Health::new(fx(5));
    spent.damage(fx(5));
    let dead = world.spawn(EntityParts { enemy: true, ..with_health(spent) });
    let other = world.spawn(player());
    let also_dead = world.spawn(with_health(Health { current: fx(-1), max: fx(1) }));

    let mut removed = health_system(&mut world);
    removed.sort();
    let mut expected = vec![dead, also_dead];
    expected.sort();
    assert_eq!(removed, expected);
    assert!(world.inner().contains(alive));
    assert!(world.inner().contains(other));
    assert!(!world.inner().contains(dead));
    assert!(!world.inner().contains(also_dead));
    assert_eq!(world.len(), 2);
    assert_eq!(world.entity_count(), 2);
    assert!(health_system(&mut world).is_empty());
    assert_eq!(world.entity_count(), 2);
}

#[test]
fn the_dead_are_picked_in_the_order_of_the_list() {
    let mut world = World::new();
    let a = world.spawn(player());
    let b = world.spawn(player());
    let c = world.spawn(player());
    let list = vec![
        (a, Health { current: fx(0), max: fx(1) }),
        (b, Health { current: fx(1), max: fx(1) }),
        (c, Health { current: fx(-2), max: fx(1) }),
    ];
    assert_eq!(dead_among(&list), vec![a, c]);
    assert!(dead_among(&Vec::new()).is_empty());
}

#[test]
fn a_spawned_entity_has_the_parts_it_was_given() {
    let mut world = World::new();
    let full = world.spawn(EntityParts {
        transform: Some(Transform::new(fx(1), fx(2))),
        velocity: Some(Velocity { linear: v(3, 4), angular: fx(5) }),
        rigid_body: Some(RigidBody::new(fx(2))),
        collider: Some(Collider::AABB { half_extents: v(1, 1) }),
        sprite: Some(Sprite { color: 7, width: 2, height: 3 }),
        health: Some(Health::new(fx(9))),
        player: true,
        enemy: true,
    });
    let store = world.inner();
    assert_eq!(store.get::<&Transform>(full).expect("given").position, v(1, 2));
    assert_eq!(store.get::<&Velocity>(full).expect("given").linear, v(3, 4));
    assert_eq!(store.get::<&RigidBody>(full).expect("given").inv_mass, FixedPoint::half());
    assert!(matches!(*store.get::<&Collider>(full).expect("given"), Collider::AABB { .. }));
    assert_eq!(store.get::<&Sprite>(full).expect("given").color, 7);
    assert_eq!(store.get::<&Health>(full).expect("given").max, fx(9));
    assert!(store.get::<&Player>(full).is_ok());
    assert!(store.get::<&Enemy>(full).is_ok());

    let bare = world.spawn(EntityParts::none());
    let other = world.spawn(EntityParts::default());
    assert_ne!(bare, other);
    let store = world.inner();
    assert!(store.contains(bare));
    assert!(store.get::<&Transform>(bare).is_err());
    assert!(store.get::<&Player>(bare).is_err());
    assert_eq!(world.len(), 3);
    assert_eq!(world.entity_count(), 3);
}

#[test]
fn flush_makes_reserved_entities_real() {
    let mut world = World::new();
    let first = world.spawn(player());
    world.flush();
    assert_eq!(world.len(), 1);
    // reserved behind a shared reference: not alive until made real
    let reserved = world.inner().reserve_entity();
    assert_eq!(world.len(), 1);
    world.flush();
    assert_eq!(world.len(), 2);
    assert!(world.inner().contains(first));
    assert!(world.inner().contains(reserved));
    assert_eq!(world.entity_count(), 1);
    let second = world.spawn(enemy());
    assert_eq!(world.len(), 3);
    assert!(world.despawn(reserved).is_ok());
    assert!(world.inner().contains(second));
    assert_eq!(world.len(), 2);
}
