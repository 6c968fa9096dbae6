//! The entities of the mass simulation, held as one array per property so
//! that a batch operation walks memory in order.

use crate::math::fixed_point::{clamp32, clamp_wide, trunc_div, wrap32, wrap_wide, FixedPoint};
use crate::math::vec2::Vec2;
use crate::render::colors::{BLUE, GREEN, RED};
use crate::render::{CommandBuffer, DrawCommand};
use vstd::prelude::*;

verus! {

/// The width of the world: 1024.
pub const WORLD_WIDTH_RAW: i32 = 67108864;

/// The height of the world: 768.
pub const WORLD_HEIGHT_RAW: i32 = 50331648;

/// The greatest speed of an entity: 50 units per second.
pub const MAX_SPEED_RAW: i32 = 3276800;

/// How hard the steering pushes: 100 units per second squared for a
/// steering of one.
pub const STEERING_RAW: i32 = 6553600;

/// The colour behind the entities.
pub const BACKGROUND: u32 = 0xFF111111;

/// The number that the steering of an entity at raw `(x, y)` is drawn
/// from: the whole part of `x * 1000 + y`, kept within 32 bits.
pub open spec fn seed_of(x: int, y: int) -> int {
    clamp32(trunc_div(x * 1000 + y, 65536))
}

/// A steering between -1.5 and 0.5 that depends on nothing but the seed
/// and the salt: the seed goes through one step of a linear congruential
/// generator in 32 bits, the remainder by 1000 of what comes out, with
/// its sign, is read as thousandths, and a half is taken away.
pub open spec fn noise(seed: int, salt: int) -> FixedPoint {
    let mixed = wrap32(wrap32(seed * 1103515245) + salt);
    let size = if mixed < 0 {
        -mixed
    } else {
        mixed
    };
    let part = ((size % 1000) * 65536) / 1000;
    FixedPoint(((if mixed < 0 {
        -part
    } else {
        part
    }) - 32768) as i32)
}

/// A velocity held to the greatest speed: one that is faster is scaled by
/// the greatest speed over its own.
pub open spec fn limited(v: Vec2) -> Vec2 {
    let speed = v.spec_length();
    if speed@ > MAX_SPEED_RAW {
        v.spec_scale(FixedPoint(MAX_SPEED_RAW).spec_div(speed))
    } else {
        v
    }
}

/// The velocity of an entity at `position` after one step of `dt`
/// seconds: steered by the noise of its position, then held to the
/// greatest speed.
pub open spec fn steered(position: Vec2, velocity: Vec2, dt: FixedPoint) -> Vec2 {
    let seed = seed_of(position.x@, position.y@);
    let push = Vec2 {
        x: noise(seed, 12345).spec_mul(FixedPoint(STEERING_RAW)).spec_mul(dt),
        y: noise(seed, 54321).spec_mul(FixedPoint(STEERING_RAW)).spec_mul(dt),
    };
    limited(velocity.spec_add(push))
}

/// A coordinate brought back into a world of the given size: one below
/// zero comes in from the far side, one at or beyond the size from the
/// near side.
pub open spec fn wrapped_into(p: FixedPoint, size: FixedPoint) -> FixedPoint {
    if p@ < 0 {
        p.spec_add(size)
    } else if p@ >= size@ {
        p.spec_sub(size)
    } else {
        p
    }
}

/// The position of an entity after it has moved with `velocity` for `dt`
/// seconds in a world that wraps around.
pub open spec fn drifted(position: Vec2, velocity: Vec2, dt: FixedPoint) -> Vec2 {
    let moved = position.spec_add(velocity.spec_scale(dt));
    Vec2 {
        x: wrapped_into(moved.x, FixedPoint(WORLD_WIDTH_RAW)),
        y: wrapped_into(moved.y, FixedPoint(WORLD_HEIGHT_RAW)),
    }
}

/// The steering for a seed and a salt.
fn noise_of(seed: i32, salt: i32) -> (r: FixedPoint)
    ensures
        r == noise(seed as int, salt as int),
{
    let first: FixedPoint = wrap_wide(seed as i128 * 1103515245);
    let mixed: i32 = wrap_wide(first.0 as i128 + salt as i128).0;
    let size: i64 = if mixed < 0 {
        -(mixed as i64)
    } else {
        mixed as i64
    };
    let part: i64 = ((size % 1000) * 65536) / 1000;
    let signed: i64 = if mixed < 0 {
        -part
    } else {
        part
    };
    FixedPoint((signed - 32768) as i32)
}

/// The seed of an entity at `(x, y)`.
fn seed_at(x: FixedPoint, y: FixedPoint) -> (r: i32)
    ensures
        r == seed_of(x@, y@),
{
    let n: i64 = x.0 as i64 * 1000 + y.0 as i64;
    let whole: i64 = if n >= 0 {
        n / 65536
    } else {
        -((-n) / 65536)
    };
    clamp_wide(whole).0
}

/// A velocity held to the greatest speed.
pub fn limit_speed(v: Vec2) -> (r: Vec2)
    ensures
        r == limited(v),
{
    let speed: FixedPoint = v.length();
    if speed.0 > MAX_SPEED_RAW {
        let scale: FixedPoint = FixedPoint(MAX_SPEED_RAW) / speed;
        Vec2::new(v.x * scale, v.y * scale)
    } else {
        v
    }
}

/// The velocity of an entity at `position` after one step of `dt` seconds.
pub fn steer(position: Vec2, velocity: Vec2, dt: FixedPoint) -> (r: Vec2)
    ensures
        r == steered(position, velocity, dt),
{
    let seed: i32 = seed_at(position.x, position.y);
    let push_x: FixedPoint = noise_of(seed, 12345) * FixedPoint(STEERING_RAW) * dt;
    let push_y: FixedPoint = noise_of(seed, 54321) * FixedPoint(STEERING_RAW) * dt;
    limit_speed(Vec2::new(velocity.x + push_x, velocity.y + push_y))
}

/// A coordinate brought back into a world of the given size.
fn wrap_into(p: FixedPoint, size: FixedPoint) -> (r: FixedPoint)
    ensures
        r == wrapped_into(p, size),
{
    if p.0 < 0 {
        p + size
    } else if p.0 >= size.0 {
        p - size
    } else {
        p
    }
}

/// The position of an entity after it has moved with `velocity` for `dt`
/// seconds in a world that wraps around.
pub fn drift(position: Vec2, velocity: Vec2, dt: FixedPoint) -> (r: Vec2)
    ensures
        r == drifted(position, velocity, dt),
{
    let x: FixedPoint = position.x + velocity.x * dt;
    let y: FixedPoint = position.y + velocity.y * dt;
    Vec2::new(
        wrap_into(x, FixedPoint(WORLD_WIDTH_RAW)),
        wrap_into(y, FixedPoint(WORLD_HEIGHT_RAW)),
    )
}

/// What an entity of the mass simulation is doing.
#[derive(Clone, Copy, Debug, PartialEq, Eq, Structural)]
pub enum EntityState {
    Idle,
    Wandering,
    Seeking,
    Fleeing,
}

/// Entity state using Structure of Arrays (SoA)
pub struct EntityData {
    pub positions_x: Vec<FixedPoint>,
    pub positions_y: Vec<FixedPoint>,
    pub velocities_x: Vec<FixedPoint>,
    pub velocities_y: Vec<FixedPoint>,
    pub colors: Vec<u32>,
    pub radii: Vec<FixedPoint>,
    pub states: Vec<EntityState>,
}

impl EntityData {
    /// True when every array holds one entry for each entity.
    pub open spec fn well_formed(&self) -> bool {
        &&& self.positions_y@.len() == self.positions_x@.len()
        &&& self.velocities_x@.len() == self.positions_x@.len()
        &&& self.velocities_y@.len() == self.positions_x@.len()
        &&& self.colors@.len() == self.positions_x@.len()
        &&& self.radii@.len() == self.positions_x@.len()
        &&& self.states@.len() == self.positions_x@.len()
    }

    /// No entity, with room for `capacity` of them.
    pub fn new(capacity: usize) -> (r: Self)
        ensures
            r.well_formed(),
            r.positions_x@.len() == 0,
    {
        EntityData {
            positions_x: Vec::with_capacity(capacity),
            positions_y: Vec::with_capacity(capacity),
            velocities_x: Vec::with_capacity(capacity),
            velocities_y: Vec::with_capacity(capacity),
            colors: Vec::with_capacity(capacity),
            radii: Vec::with_capacity(capacity),
            states: Vec::with_capacity(capacity),
        }
    }

    pub fn len(&self) -> (r: usize)
        ensures
            r == self.positions_x@.len(),
    {
        self.positions_x.len()
    }

    /// Where entity `i` is.
    pub open spec fn position(&self, i: int) -> Vec2 {
        Vec2 { x: self.positions_x@[i], y: self.positions_y@[i] }
    }

    /// How entity `i` moves.
    pub open spec fn velocity(&self, i: int) -> Vec2 {
        Vec2 { x: self.velocities_x@[i], y: self.velocities_y@[i] }
    }

    /// True when `self` is `before` but for where the entities are and
    /// how they move.
    pub open spec fn same_but_motion(&self, before: &EntityData) -> bool {
        &&& self.positions_x@.len() == before.positions_x@.len()
        &&& self.colors@ == before.colors@
        &&& self.radii@ == before.radii@
        &&& self.states@ == before.states@
    }

    /// One step of `dt` seconds for entity `i` alone.
    fn update_one(&mut self, i: usize, dt: FixedPoint)
        requires
            old(self).well_formed(),
            i < old(self).positions_x@.len(),
        ensures
            final(self).well_formed(),
            final(self).same_but_motion(old(self)),
            final(self).velocity(i as int) == steered(
                old(self).position(i as int),
                old(self).velocity(i as int),
                dt,
            ),
            final(self).position(i as int) == drifted(
                old(self).position(i as int),
                final(self).velocity(i as int),
                dt,
            ),
            forall|k: int|
                0 <= k < old(self).positions_x@.len() && k != i ==> #[trigger] final(self).velocity(
                    k,
                ) == old(self).velocity(k),
            forall|k: int|
                0 <= k < old(self).positions_x@.len() && k != i ==> #[trigger] final(self).position(
                    k,
                ) == old(self).position(k),
    {
        let position: Vec2 = Vec2::new(self.positions_x[i], self.positions_y[i]);
        let velocity: Vec2 = Vec2::new(self.velocities_x[i], self.velocities_y[i]);
        let steered_to: Vec2 = steer(position, velocity, dt);
        let drifted_to: Vec2 = drift(position, steered_to, dt);
        self.velocities_x.set(i, steered_to.x);
        self.velocities_y.set(i, steered_to.y);
        self.positions_x.set(i, drifted_to.x);
        self.positions_y.set(i, drifted_to.y);
    }

    /// One step of `dt` seconds: every entity is steered and then moves
    /// with its new velocity.
    pub fn update(&mut self, dt: FixedPoint)
        requires
            old(self).well_formed(),
        ensures
            final(self).well_formed(),
            final(self).same_but_motion(old(self)),
            forall|i: int|
                0 <= i < old(self).positions_x@.len() ==> #[trigger] final(self).velocity(i)
                    == steered(old(self).position(i), old(self).velocity(i), dt),
            forall|i: int|
                0 <= i < old(self).positions_x@.len() ==> #[trigger] final(self).position(i)
                    == drifted(old(self).position(i), final(self).velocity(i), dt),
    {
        let count: usize = self.len();
        let mut i: usize = 0;
        while i < count
            invariant
                i <= count,
                count == old(self).positions_x@.len(),
                self.well_formed(),
                self.same_but_motion(old(self)),
                forall|k: int|
                    0 <= k < i ==> #[trigger] self.velocity(k) == steered(
                        old(self).position(k),
                        old(self).velocity(k),
                        dt,
                    ),
                forall|k: int|
                    0 <= k < i ==> #[trigger] self.position(k) == drifted(
                        old(self).position(k),
                        self.velocity(k),
                        dt,
                    ),
                forall|k: int|
                    i <= k < count ==> #[trigger] self.velocity(k) == old(self).velocity(k),
                forall|k: int|
                    i <= k < count ==> #[trigger] self.position(k) == old(self).position(k),
            decreases count - i,
        {
            self.update_one(i, dt);
            i += 1;
        }
    }

    /// Where entity `i` of a new swarm stands: 7.3 further to the right
    /// and 11.7 further down than the one before, around the world.
    pub open spec fn start_position(i: int) -> Vec2 {
        Vec2 {
            x: FixedPoint(((i * 478412) % 67108864) as i32),
            y: FixedPoint(((i * 766771) % 50331648) as i32),
        }
    }

    /// The colour of entity `i` of a new swarm: red, green and blue in
    /// turn.
    pub open spec fn start_color(i: int) -> u32 {
        if i % 3 == 0 {
            RED
        } else if i % 3 == 1 {
            GREEN
        } else {
            BLUE
        }
    }

    /// The radius of entity `i` of a new swarm: 2, 3 and 4 in turn.
    pub open spec fn start_radius(i: int) -> FixedPoint {
        FixedPoint(((2 + i % 3) * 65536) as i32)
    }

    /// A swarm of `count` entities, at rest and wandering.
    pub fn swarm(count: usize) -> (r: Self)
        ensures
            r.well_formed(),
            r.positions_x@.len() == count,
            forall|i: int| 0 <= i < count ==> #[trigger] r.position(i) == Self::start_position(i),
            forall|i: int| 0 <= i < count ==> #[trigger] r.velocity(i) == Vec2::spec_zero(),
            forall|i: int| 0 <= i < count ==> #[trigger] r.colors@[i] == Self::start_color(i),
            forall|i: int| 0 <= i < count ==> #[trigger] r.radii@[i] == Self::start_radius(i),
            forall|i: int| 0 <= i < count ==> #[trigger] r.states@[i] == EntityState::Wandering,
    {
        let mut entities: EntityData = EntityData::new(count);
        let mut i: usize = 0;
        while i < count
            invariant
                i <= count,
                entities.well_formed(),
                entities.positions_x@.len() == i,
                forall|k: int|
                    0 <= k < i ==> #[trigger] entities.position(k) == Self::start_position(k),
                forall|k: int| 0 <= k < i ==> #[trigger] entities.velocity(k) == Vec2::spec_zero(),
                forall|k: int|
                    0 <= k < i ==> #[trigger] entities.colors@[k] == Self::start_color(k),
                forall|k: int|
                    0 <= k < i ==> #[trigger] entities.radii@[k] == Self::start_radius(k),
                forall|k: int|
                    0 <= k < i ==> #[trigger] entities.states@[k] == EntityState::Wandering,
            decreases count - i,
        {
            let ghost earlier = entities;
            let n: u128 = i as u128;
            let x: u128 = (n * 478412) % 67108864;
            let y: u128 = (n * 766771) % 50331648;
            let turn: u128 = n % 3;
            let color: u32 = if turn == 0 {
                RED
            } else if turn == 1 {
                GREEN
            } else {
                BLUE
            };
            let radius: u128 = (2 + turn) * 65536;
            entities.add(
                FixedPoint(x as i32),
                FixedPoint(y as i32),
                color,
                FixedPoint(radius as i32),
            );
            assert forall|k: int| 0 <= k < i implies #[trigger] entities.position(k)
                == earlier.position(k) by {}
            assert forall|k: int| 0 <= k < i implies #[trigger] entities.velocity(k)
                == earlier.velocity(k) by {}
            assert(entities.position(i as int) == Self::start_position(i as int));
            assert(entities.velocity(i as int) == Vec2::spec_zero());
            i += 1;
        }
        entities
    }

    /// How entity `i` is drawn: a disc of its colour and of the whole part
    /// of its radius around the whole part of its position.
    pub open spec fn disc(&self, i: int) -> DrawCommand {
        DrawCommand::Circle {
            x: (self.positions_x@[i]@ / 65536) as i32,
            y: (self.positions_y@[i]@ / 65536) as i32,
            radius: (self.radii@[i]@ / 65536) as i32,
            color: self.colors@[i],
        }
    }

    /// The drawing of the first `n` entities: the background, then one
    /// disc for each in turn.
    pub open spec fn drawing(&self, n: int) -> Seq<DrawCommand>
        decreases n,
    {
        if n <= 0 {
            seq![DrawCommand::Clear(BACKGROUND)]
        } else {
            self.drawing(n - 1).push(self.disc(n - 1))
        }
    }

    /// Records the drawing of all entities.
    pub fn record(&self, buffer: &mut CommandBuffer)
        requires
            self.well_formed(),
        ensures
            final(buffer)@ == old(buffer)@ + self.drawing(self.positions_x@.len() as int),
    {
        buffer.clear(BACKGROUND);
        assert(buffer@ =~= old(buffer)@ + self.drawing(0));
        let count: usize = self.len();
        let mut i: usize = 0;
        while i < count
            invariant
                i <= count,
                count == self.positions_x@.len(),
                self.well_formed(),
                buffer@ == old(buffer)@ + self.drawing(i as int),
            decreases count - i,
        {
            let x: i32 = self.positions_x[i].to_int();
            let y: i32 = self.positions_y[i].to_int();
            let radius: i32 = self.radii[i].to_int();
            buffer.circle(x, y, radius, self.colors[i]);
            assert(buffer@ =~= old(buffer)@ + self.drawing(i + 1));
            i += 1;
        }
    }

    /// One more entity at `(x, y)`, at rest and wandering.
    pub fn add(&mut self, x: FixedPoint, y: FixedPoint, color: u32, radius: FixedPoint)
        ensures
            final(self).positions_x@ == old(self).positions_x@.push(x),
            final(self).positions_y@ == old(self).positions_y@.push(y),
            final(self).velocities_x@ == old(self).velocities_x@.push(FixedPoint(0)),
            final(self).velocities_y@ == old(self).velocities_y@.push(FixedPoint(0)),
            final(self).colors@ == old(self).colors@.push(color),
            final(self).radii@ == old(self).radii@.push(radius),
            final(self).states@ == old(self).states@.push(EntityState::Wandering),
            old(self).well_formed() ==> final(self).well_formed(),
    {
        self.positions_x.push(x);
        self.positions_y.push(y);
        self.velocities_x.push(FixedPoint::zero());
        self.velocities_y.push(FixedPoint::zero());
        self.colors.push(color);
        self.radii.push(radius);
        self.states.push(EntityState::Wandering);
    }
}

} // verus!
