//! Common game components

use crate::math::fixed_point::{saturating_recip, FixedPoint};
use crate::math::vec2::Vec2;
use vstd::prelude::*;

verus! {

/// Transform component - position, rotation, scale
#[derive(Clone, Copy, Debug)]
pub struct Transform {
    pub position: Vec2,
    pub rotation: FixedPoint,
    pub scale: Vec2,
}

impl Transform {
    /// At `(x, y)`, not rotated, at scale one.
    pub fn new(x: FixedPoint, y: FixedPoint) -> (r: Self)
        ensures
            r == (Transform {
                position: Vec2 { x, y },
                rotation: FixedPoint(0),
                scale: Vec2 { x: FixedPoint(65536), y: FixedPoint(65536) },
            }),
    {
        Transform { position: Vec2::new(x, y), rotation: FixedPoint::zero(), scale: Vec2::one() }
    }

    /// The transform after moving with `velocity` for the time `dt`.
    pub open spec fn spec_moved(self, velocity: Velocity, dt: FixedPoint) -> Transform {
        Transform {
            position: self.position.spec_add(velocity.linear.spec_scale(dt)),
            rotation: self.rotation.spec_add(velocity.angular.spec_mul(dt)),
            ..self
        }
    }

    /// The transform after moving with `velocity` for the time `dt`.
    pub fn moved(self, velocity: Velocity, dt: FixedPoint) -> (r: Transform)
        ensures
            r == self.spec_moved(velocity, dt),
    {
        Transform {
            position: self.position + velocity.linear * dt,
            rotation: self.rotation + velocity.angular * dt,
            scale: self.scale,
        }
    }
}

impl Default for Transform {
    fn default() -> (r: Transform)
        ensures
            r == (Transform {
                position: Vec2::spec_zero(),
                rotation: FixedPoint(0),
                scale: Vec2::spec_zero(),
            }),
    {
        Transform { position: Vec2::zero(), rotation: FixedPoint::zero(), scale: Vec2::zero() }
    }
}

/// Velocity component
#[derive(Clone, Copy, Debug)]
pub struct Velocity {
    pub linear: Vec2,
    pub angular: FixedPoint,
}

impl Velocity {
    /// The velocity after gravity has pulled on a body for the time `dt`:
    /// `gravity * dt` more downward, unless the body is immovable.
    pub open spec fn spec_pulled(
        self,
        body: RigidBody,
        gravity: FixedPoint,
        dt: FixedPoint,
    ) -> Velocity {
        if body.inv_mass@ > 0 {
            Velocity {
                linear: Vec2 { x: self.linear.x, y: self.linear.y.spec_add(gravity.spec_mul(dt)) },
                ..self
            }
        } else {
            self
        }
    }

    /// The velocity after gravity has pulled on a body for the time `dt`.
    pub fn pulled(self, body: RigidBody, gravity: FixedPoint, dt: FixedPoint) -> (r: Velocity)
        ensures
            r == self.spec_pulled(body, gravity, dt),
    {
        if body.inv_mass.0 > 0 {
            Velocity {
                linear: Vec2 { x: self.linear.x, y: self.linear.y + gravity * dt },
                angular: self.angular,
            }
        } else {
            self
        }
    }
}

impl Default for Velocity {
    fn default() -> (r: Velocity)
        ensures
            r == (Velocity { linear: Vec2::spec_zero(), angular: FixedPoint(0) }),
    {
        Velocity { linear: Vec2::zero(), angular: FixedPoint::zero() }
    }
}

/// Rigid body component
#[derive(Clone, Copy, Debug)]
pub struct RigidBody {
    pub mass: FixedPoint,
    pub inv_mass: FixedPoint,
    pub restitution: FixedPoint,
    pub friction: FixedPoint,
}

impl RigidBody {
    /// Mass one, restitution 1/2, friction 0.3 (rounded down to Q16.16).
    pub open spec fn spec_default() -> RigidBody {
        RigidBody {
            mass: FixedPoint(65536),
            inv_mass: FixedPoint(65536),
            restitution: FixedPoint(32768),
            friction: FixedPoint(19660),
        }
    }

    /// A body of the given mass. The inverse mass is `1 / mass` for a
    /// positive mass, at most the largest number, and zero otherwise.
    pub fn new(mass: FixedPoint) -> (r: Self)
        ensures
            r == (RigidBody {
                mass,
                inv_mass: FixedPoint(saturating_recip(mass@) as i32),
                ..RigidBody::spec_default()
            }),
            r.inv_mass@ > 0 <==> mass@ > 0,
    {
        RigidBody {
            mass,
            inv_mass: mass.saturating_recip(),
            restitution: FixedPoint(32768),
            friction: FixedPoint(19660),
        }
    }

    /// An immovable body.
    pub fn static_body() -> (r: Self)
        ensures
            r == (RigidBody {
                mass: FixedPoint(0),
                inv_mass: FixedPoint(0),
                ..RigidBody::spec_default()
            }),
    {
        RigidBody {
            mass: FixedPoint(0),
            inv_mass: FixedPoint(0),
            restitution: FixedPoint(32768),
            friction: FixedPoint(19660),
        }
    }
}

impl Default for RigidBody {
    fn default() -> (r: RigidBody)
        ensures
            r == RigidBody::spec_default(),
    {
        RigidBody {
            mass: FixedPoint(65536),
            inv_mass: FixedPoint(65536),
            restitution: FixedPoint(32768),
            friction: FixedPoint(19660),
        }
    }
}

/// Collider shapes
#[derive(Clone, Copy, Debug)]
pub enum Collider {
    Circle { radius: FixedPoint },
    AABB { half_extents: Vec2 },
    OBB { half_extents: Vec2 },
}

impl Default for Collider {
    fn default() -> (r: Collider)
        ensures
            r == (Collider::Circle { radius: FixedPoint(65536) }),
    {
        Collider::Circle { radius: FixedPoint(65536) }
    }
}

/// Sprite component for rendering
#[derive(Clone, Copy, Debug)]
pub struct Sprite {
    pub color: u32,
    pub width: u32,
    pub height: u32,
}

impl Default for Sprite {
    fn default() -> (r: Sprite)
        ensures
            r == (Sprite { color: 0xFFFFFFFF, width: 8, height: 8 }),
    {
        Sprite { color: 0xFFFFFFFF, width: 8, height: 8 }
    }
}

/// Tag for player entity
#[derive(Clone, Copy, Debug)]
pub struct Player;

impl Default for Player {
    fn default() -> (r: Player) {
        Player
    }
}

/// Tag for enemy entities
#[derive(Clone, Copy, Debug)]
pub struct Enemy;

impl Default for Enemy {
    fn default() -> (r: Enemy) {
        Enemy
    }
}

/// Health component
#[derive(Clone, Copy, Debug)]
pub struct Health {
    pub current: FixedPoint,
    pub max: FixedPoint,
}

impl Health {
    pub open spec fn spec_is_dead(&self) -> bool {
        self.current@ <= 0
    }

    /// Full health of `max`.
    pub fn new(max: FixedPoint) -> (r: Self)
        ensures
            r == (Health { current: max, max }),
    {
        Health { current: max, max }
    }

    /// Takes `amount` off the health, which does not go below zero.
    pub fn damage(&mut self, amount: FixedPoint)
        ensures
            *final(self) == (Health {
                current: old(self).current.spec_sub(amount).spec_max(FixedPoint(0)),
                max: old(self).max,
            }),
    {
        self.current = (self.current - amount).max(FixedPoint::zero());
    }

    /// Adds `amount` to the health, which does not go above `max`.
    pub fn heal(&mut self, amount: FixedPoint)
        ensures
            *final(self) == (Health {
                current: old(self).current.spec_add(amount).spec_min(old(self).max),
                max: old(self).max,
            }),
    {
        self.current = (self.current + amount).min(self.max);
    }

    #[verifier::when_used_as_spec(spec_is_dead)]
    pub fn is_dead(&self) -> (r: bool)
        ensures
            r == self.spec_is_dead(),
    {
        self.current.0 <= 0
    }
}

/// What a new entity is made of: each kind of component at most once.
#[derive(Clone, Copy, Debug)]
pub struct EntityParts {
    pub transform: Option<Transform>,
    pub velocity: Option<Velocity>,
    pub rigid_body: Option<RigidBody>,
    pub collider: Option<Collider>,
    pub sprite: Option<Sprite>,
    pub health: Option<Health>,
    /// True for the player entity.
    pub player: bool,
    /// True for an enemy entity.
    pub enemy: bool,
}

impl EntityParts {
    /// No part at all.
    pub open spec fn spec_none() -> EntityParts {
        EntityParts {
            transform: None,
            velocity: None,
            rigid_body: None,
            collider: None,
            sprite: None,
            health: None,
            player: false,
            enemy: false,
        }
    }

    /// No part at all.
    #[verifier::when_used_as_spec(spec_none)]
    pub fn none() -> (r: EntityParts)
        ensures
            r == EntityParts::spec_none(),
    {
        EntityParts {
            transform: None,
            velocity: None,
            rigid_body: None,
            collider: None,
            sprite: None,
            health: None,
            player: false,
            enemy: false,
        }
    }
}

impl Default for EntityParts {
    fn default() -> (r: EntityParts)
        ensures
            r == EntityParts::spec_none(),
    {
        EntityParts::none()
    }
}

} // verus!
