//! The platformer: how the player's velocity answers the keys, and the
//! bodies that its scene is made of.

use crate::ecs::components::{Collider, EntityParts, RigidBody, Sprite, Transform, Velocity};
use crate::ecs::{World, MAX_ENTITIES};
use crate::input::{InputState, InputView, Key};
use crate::math::fixed_point::{clamp32, clamp_wide, FixedPoint};
use crate::math::vec2::Vec2;
use crate::physics::{Body, PhysicsWorld};
use crate::render::colors::{CYAN, GREEN, RED, YELLOW};
use crate::render::{CommandBuffer, DrawCommand};
use vstd::prelude::*;

verus! {

/// The pull of gravity on the player: 980 units per second squared.
pub const GRAVITY_RAW: i32 = 64225280;

/// The speed of the player to either side: 200 units per second.
pub const PLAYER_SPEED_RAW: i32 = 13107200;

/// The upward speed at the start of a jump: -400 units per second.
pub const JUMP_FORCE_RAW: i32 = -26214400;

/// How much of its speed a ball keeps when it bounces: 0.9, rounded down
/// to Q16.16.
pub const BALL_RESTITUTION_RAW: i32 = 58982;

/// The number of platforms above the ground.
pub const PLATFORMS: usize = 5;

/// The number of bouncing balls.
pub const BALLS: usize = 10;

/// Nine tenths of a raw value, rounded toward negative infinity.
pub open spec fn nine_tenths(v: int) -> int {
    (v * 9) / 10
}

/// What friction leaves of a speed in one step: nine tenths of it.
pub fn slowed(v: FixedPoint) -> (r: FixedPoint)
    ensures
        r@ == nine_tenths(v@),
{
    let n: i64 = v.0 as i64 * 9;
    let q: i64 = if n >= 0 {
        n / 10
    } else {
        -((-n + 9) / 10)
    };
    FixedPoint(q as i32)
}

/// The velocity of the player after one step of `dt` seconds under the
/// keys of `input`.
///
/// Sideways, A or the left arrow gives the player's speed to the left, D
/// or the right arrow gives it to the right, left winning where both are
/// held, and with neither friction leaves nine tenths of the speed.
/// Space, in the frame in which it goes down, replaces the vertical speed
/// by the jump speed. Gravity is then added for the time `dt`.
pub open spec fn steered(velocity: Velocity, input: InputView, dt: FixedPoint) -> Velocity {
    let x = if input.keys_down.contains(Key::A) || input.keys_down.contains(Key::Left) {
        FixedPoint(-13107200i32)
    } else if input.keys_down.contains(Key::D) || input.keys_down.contains(Key::Right) {
        FixedPoint(PLAYER_SPEED_RAW)
    } else {
        FixedPoint(nine_tenths(velocity.linear.x@) as i32)
    };
    let y = if input.keys_pressed.contains(Key::Space) {
        FixedPoint(JUMP_FORCE_RAW)
    } else {
        velocity.linear.y
    };
    Velocity {
        linear: Vec2 { x, y: y.spec_add(FixedPoint(GRAVITY_RAW).spec_mul(dt)) },
        ..velocity
    }
}

/// The velocity of the player after one step of `dt` seconds under the
/// keys of `input`.
pub fn steer(velocity: Velocity, input: &InputState, dt: FixedPoint) -> (r: Velocity)
    ensures
        r == steered(velocity, input@, dt),
{
    let x: FixedPoint = if input.is_key_down(Key::A) || input.is_key_down(Key::Left) {
        FixedPoint(-13107200)
    } else if input.is_key_down(Key::D) || input.is_key_down(Key::Right) {
        FixedPoint(PLAYER_SPEED_RAW)
    } else {
        slowed(velocity.linear.x)
    };
    let y: FixedPoint = if input.is_key_pressed(Key::Space) {
        FixedPoint(JUMP_FORCE_RAW)
    } else {
        velocity.linear.y
    };
    Velocity { linear: Vec2::new(x, y + FixedPoint(GRAVITY_RAW) * dt), angular: velocity.angular }
}

/// The point `(x, y)` given in whole units, each within -32768..=32767.
pub open spec fn spot(x: int, y: int) -> Vec2 {
    Vec2 { x: FixedPoint((x * 65536) as i32), y: FixedPoint((y * 65536) as i32) }
}

/// The body of the player: mass one, at (100, 300).
pub open spec fn player_body() -> Body {
    Body { position: spot(100, 300), ..Body::spec_default() }
}

/// The ground: an immovable body at (400, 550).
pub open spec fn ground_body() -> Body {
    Body {
        position: spot(400, 550),
        mass: FixedPoint(0),
        inv_mass: FixedPoint(0),
        ..Body::spec_default()
    }
}

/// Platform `i`: an immovable body, each 150 to the right of and 60 above
/// the one before, the first at (150, 450).
pub open spec fn platform_body(i: int) -> Body {
    Body {
        position: spot(150 + 150 * i, 450 - 60 * i),
        mass: FixedPoint(0),
        inv_mass: FixedPoint(0),
        ..Body::spec_default()
    }
}

/// Ball `i`: a body of mass one half that moves to the right at 50 and
/// keeps nine tenths of its speed in a bounce. The balls stand 70 apart
/// from (100, 100), in three rows 50 apart.
pub open spec fn ball_body(i: int) -> Body {
    Body {
        position: spot(100 + 70 * i, 100 + 50 * (i % 3)),
        velocity: spot(50, 0),
        mass: FixedPoint(32768),
        inv_mass: FixedPoint(131072),
        restitution: FixedPoint(BALL_RESTITUTION_RAW),
        ..Body::spec_default()
    }
}

/// The bodies of the scene in the order in which they are added: the
/// player, the ground, the platforms, the balls.
pub open spec fn scene() -> Seq<Body> {
    seq![player_body(), ground_body()] + Seq::new(PLATFORMS as nat, |i: int| platform_body(i))
        + Seq::new(BALLS as nat, |i: int| ball_body(i))
}

/// The point `(x, y)` given in whole units.
fn spot_at(x: i32, y: i32) -> (r: Vec2)
    requires
        -32768 <= x <= 32767,
        -32768 <= y <= 32767,
    ensures
        r == spot(x as int, y as int),
{
    Vec2::new(FixedPoint(x * 65536), FixedPoint(y * 65536))
}

/// Adds the bodies of the scene to a physics world, after those that it
/// has.
pub fn add_scene(physics: &mut PhysicsWorld)
    ensures
        final(physics)@.bodies == old(physics)@.bodies + scene(),
        final(physics)@.config == old(physics)@.config,
{
    let ghost before = physics@.bodies;
    physics.add_body(Body::new(spot_at(100, 300), FixedPoint(65536)));
    physics.add_body(Body::static_body(spot_at(400, 550)));
    let mut i: usize = 0;
    while i < PLATFORMS
        invariant
            i <= PLATFORMS,
            physics@.config == old(physics)@.config,
            physics@.bodies == before + seq![player_body(), ground_body()] + Seq::new(
                i as nat,
                |k: int| platform_body(k),
            ),
        decreases PLATFORMS - i,
    {
        let n: i32 = i as i32;
        physics.add_body(Body::static_body(spot_at(150 + 150 * n, 450 - 60 * n)));
        assert(Seq::new(i as nat, |k: int| platform_body(k)).push(platform_body(i as int))
            =~= Seq::new((i + 1) as nat, |k: int| platform_body(k)));
        i += 1;
    }
    let ghost fixed = before + seq![player_body(), ground_body()] + Seq::new(
        PLATFORMS as nat,
        |k: int| platform_body(k),
    );
    let mut j: usize = 0;
    while j < BALLS
        invariant
            j <= BALLS,
            physics@.config == old(physics)@.config,
            physics@.bodies == fixed + Seq::new(j as nat, |k: int| ball_body(k)),
        decreases BALLS - j,
    {
        let n: i32 = j as i32;
        let mut body: Body = Body::new(
            spot_at(100 + 70 * n, 100 + 50 * (n % 3)),
            FixedPoint(32768),
        );
        body.velocity = spot_at(50, 0);
        body.restitution = FixedPoint(BALL_RESTITUTION_RAW);
        assert(body == ball_body(j as int));
        physics.add_body(body);
        assert(Seq::new(j as nat, |k: int| ball_body(k)).push(ball_body(j as int)) =~= Seq::new(
            (j + 1) as nat,
            |k: int| ball_body(k),
        ));
        j += 1;
    }
    assert(physics@.bodies =~= before + scene());
}

/// What the player entity is made of: a cyan square of 32 at (100, 300),
/// at rest, of mass one, with a round collider of radius 16.
pub fn player_parts() -> (r: EntityParts)
    ensures
        r == (EntityParts {
            transform: Some(
                Transform {
                    position: spot(100, 300),
                    rotation: FixedPoint(0),
                    scale: Vec2 { x: FixedPoint(65536), y: FixedPoint(65536) },
                },
            ),
            velocity: Some(Velocity { linear: Vec2::spec_zero(), angular: FixedPoint(0) }),
            rigid_body: Some(RigidBody::spec_default()),
            collider: Some(Collider::Circle { radius: FixedPoint(1048576) }),
            sprite: Some(Sprite { color: CYAN, width: 32, height: 32 }),
            player: true,
            ..EntityParts::spec_none()
        }),
{
    let at: Vec2 = spot_at(100, 300);
    EntityParts {
        transform: Some(Transform::new(at.x, at.y)),
        velocity: Some(Velocity { linear: Vec2::zero(), angular: FixedPoint(0) }),
        rigid_body: Some(RigidBody::new(FixedPoint(65536))),
        collider: Some(Collider::Circle { radius: FixedPoint(1048576) }),
        sprite: Some(Sprite { color: CYAN, width: 32, height: 32 }),
        health: None,
        player: true,
        enemy: false,
    }
}

/// What an immovable slab is made of: a box of the given size and colour
/// with its centre at `(x, y)`.
pub fn slab_parts(x: i32, y: i32, width: u32, height: u32, color: u32) -> (r: EntityParts)
    requires
        -32768 <= x <= 32767,
        -32768 <= y <= 32767,
        width <= 65534,
        height <= 65534,
    ensures
        r == (EntityParts {
            transform: Some(
                Transform {
                    position: spot(x as int, y as int),
                    rotation: FixedPoint(0),
                    scale: Vec2 { x: FixedPoint(65536), y: FixedPoint(65536) },
                },
            ),
            rigid_body: Some(
                RigidBody {
                    mass: FixedPoint(0),
                    inv_mass: FixedPoint(0),
                    ..RigidBody::spec_default()
                },
            ),
            collider: Some(
                Collider::AABB { half_extents: spot((width / 2) as int, (height / 2) as int) },
            ),
            sprite: Some(Sprite { color, width, height }),
            ..EntityParts::spec_none()
        }),
{
    let at: Vec2 = spot_at(x, y);
    let half_width: u32 = width / 2;
    let half_height: u32 = height / 2;
    EntityParts {
        transform: Some(Transform::new(at.x, at.y)),
        velocity: None,
        rigid_body: Some(RigidBody::static_body()),
        collider: Some(
            Collider::AABB { half_extents: spot_at(half_width as i32, half_height as i32) },
        ),
        sprite: Some(Sprite { color, width, height }),
        health: None,
        player: false,
        enemy: false,
    }
}

/// What ball `i` is made of: a red square of 16 where `ball_body` stands,
/// moving to the right at 50, of mass one half, with a round collider of
/// radius 8, marked as an enemy.
pub fn ball_parts(i: usize) -> (r: EntityParts)
    requires
        i < BALLS,
    ensures
        r == (EntityParts {
            transform: Some(
                Transform {
                    position: ball_body(i as int).position,
                    rotation: FixedPoint(0),
                    scale: Vec2 { x: FixedPoint(65536), y: FixedPoint(65536) },
                },
            ),
            velocity: Some(Velocity { linear: spot(50, 0), angular: FixedPoint(0) }),
            rigid_body: Some(
                RigidBody {
                    mass: FixedPoint(32768),
                    inv_mass: FixedPoint(131072),
                    ..RigidBody::spec_default()
                },
            ),
            collider: Some(Collider::Circle { radius: FixedPoint(524288) }),
            sprite: Some(Sprite { color: RED, width: 16, height: 16 }),
            enemy: true,
            ..EntityParts::spec_none()
        }),
{
    let n: i32 = i as i32;
    let at: Vec2 = spot_at(100 + 70 * n, 100 + 50 * (n % 3));
    EntityParts {
        transform: Some(Transform::new(at.x, at.y)),
        velocity: Some(Velocity { linear: spot_at(50, 0), angular: FixedPoint(0) }),
        rigid_body: Some(RigidBody::new(FixedPoint(32768))),
        collider: Some(Collider::Circle { radius: FixedPoint(524288) }),
        sprite: Some(Sprite { color: RED, width: 16, height: 16 }),
        health: None,
        player: false,
        enemy: true,
    }
}

/// The number of entities of the scene: the player, the ground, the
/// platforms and the balls.
pub const SCENE_ENTITIES: u32 = 17;

/// True when `world` is `before` with `more` entities spawned into it.
pub open spec fn has_grown(world: &World, before: &World, more: int) -> bool {
    &&& world.reservations() == 0
    &&& world.entities().finite()
    &&& before.entities().subset_of(world.entities())
    &&& world.entities().len() == before.entities().len() + more
    &&& world.count() == before.count() + more
}

/// Spawns the entities of the scene, in the order of `scene`, and returns
/// the player. The world gains these seventeen entities and loses none.
pub fn spawn_scene(world: &mut World) -> (player: hecs::Entity)
    requires
        old(world).reservations() == 0,
        old(world).entities().finite(),
        old(world).count() + SCENE_ENTITIES <= MAX_ENTITIES,
        old(world).entities().len() + SCENE_ENTITIES <= MAX_ENTITIES,
    ensures
        has_grown(final(world), old(world), SCENE_ENTITIES as int),
        final(world).entities().contains(player),
        !old(world).entities().contains(player),
{
    let player: hecs::Entity = world.spawn(player_parts());
    world.spawn(slab_parts(400, 550, 800, 50, GREEN));
    let mut i: usize = 0;
    while i < PLATFORMS
        invariant
            i <= PLATFORMS,
            has_grown(world, old(world), 2 + i),
            world.entities().contains(player),
            old(world).count() + SCENE_ENTITIES <= MAX_ENTITIES,
            old(world).entities().len() + SCENE_ENTITIES <= MAX_ENTITIES,
        decreases PLATFORMS - i,
    {
        let n: i32 = i as i32;
        world.spawn(slab_parts(150 + 150 * n, 450 - 60 * n, 100, 20, YELLOW));
        i += 1;
    }
    let mut j: usize = 0;
    while j < BALLS
        invariant
            j <= BALLS,
            has_grown(world, old(world), 2 + PLATFORMS + j),
            world.entities().contains(player),
            old(world).count() + SCENE_ENTITIES <= MAX_ENTITIES,
            old(world).entities().len() + SCENE_ENTITIES <= MAX_ENTITIES,
        decreases BALLS - j,
    {
        world.spawn(ball_parts(j));
        j += 1;
    }
    player
}

/// Where a box of the given length starts when its middle is at the whole
/// part of `centre`: half the length before it, kept within the range of
/// screen coordinates.
pub open spec fn start_of(centre: FixedPoint, length: u32) -> i32 {
    clamp32(centre@ / 65536 - (length / 2) as int) as i32
}

/// How an entity is drawn: a box of the size and colour of its sprite
/// with its middle at the whole part of the entity's position.
pub open spec fn sprite_command(transform: Transform, sprite: Sprite) -> DrawCommand {
    DrawCommand::Rect {
        x: start_of(transform.position.x, sprite.width),
        y: start_of(transform.position.y, sprite.height),
        w: sprite.width,
        h: sprite.height,
        color: sprite.color,
    }
}

/// Where a box of the given length starts when its middle is at the whole
/// part of `centre`.
fn start(centre: FixedPoint, length: u32) -> (r: i32)
    ensures
        r == start_of(centre, length),
{
    let whole: i32 = centre.to_int();
    let half: u32 = length / 2;
    clamp_wide(whole as i64 - half as i64).0
}

/// Records the drawing of one entity.
pub fn record_sprite(buffer: &mut CommandBuffer, transform: Transform, sprite: Sprite)
    ensures
        final(buffer)@ == old(buffer)@.push(sprite_command(transform, sprite)),
{
    let x: i32 = start(transform.position.x, sprite.width);
    let y: i32 = start(transform.position.y, sprite.height);
    buffer.rect(x, y, sprite.width, sprite.height, sprite.color);
}

} // verus!
