//! Bodies, contacts and the world that steps them.
//!
//! Within one step the order is fixed: gravity, integration, collision
//! detection, then the configured number of solver iterations.

pub mod broad_phase;
pub mod candidates;
pub mod collision;
pub mod integration;
pub mod sweep_order;

pub use collision::{aabb_vs_aabb, circle_vs_circle, Circle, AABB};

use crate::math::fixed_point::{fx_mul, saturating_recip, wrap32, wrap_wide, FixedPoint};
use crate::math::vec2::Vec2;
use collision::{
    all_contacts, contact_in_bounds, detect_collisions, lemma_all_contacts_in_bounds,
    lemma_resolve_all_len, resolve_all, resolve_contacts,
};
use candidates::detect_collisions_broad;
use integration::{integrate_all, integrate_bodies, integrate_body};
use vstd::prelude::*;

verus! {

/// Physics world configuration
#[derive(Clone, Copy, Debug)]
pub struct PhysicsConfig {
    pub gravity: Vec2,
    pub iterations: u32,
    pub substeps: u32,
}

impl PhysicsConfig {
    /// Gravity of 980 units per second squared downward, eight solver
    /// iterations, one substep.
    pub open spec fn spec_default() -> PhysicsConfig {
        PhysicsConfig {
            gravity: Vec2 { x: FixedPoint(0), y: FixedPoint(64225280) },
            iterations: 8,
            substeps: 1,
        }
    }
}

impl Default for PhysicsConfig {
    fn default() -> (r: PhysicsConfig)
        ensures
            r == PhysicsConfig::spec_default(),
    {
        PhysicsConfig {
            gravity: Vec2 { x: FixedPoint(0), y: FixedPoint(64225280) },
            iterations: 8,
            substeps: 1,
        }
    }
}

/// Physics body
#[derive(Clone, Copy, Debug)]
pub struct Body {
    pub position: Vec2,
    pub velocity: Vec2,
    pub acceleration: Vec2,
    pub mass: FixedPoint,
    /// Zero marks a body of infinite mass, which nothing moves.
    pub inv_mass: FixedPoint,
    pub restitution: FixedPoint,
    pub friction: FixedPoint,
}

impl Body {
    /// A body at rest at the origin: mass 1, restitution 1/2, friction 0.3
    /// (rounded down to Q16.16).
    pub open spec fn spec_default() -> Body {
        Body {
            position: Vec2::spec_zero(),
            velocity: Vec2::spec_zero(),
            acceleration: Vec2::spec_zero(),
            mass: FixedPoint(65536),
            inv_mass: FixedPoint(65536),
            restitution: FixedPoint(32768),
            friction: FixedPoint(19660),
        }
    }

    pub open spec fn spec_is_static(&self) -> bool {
        self.inv_mass@ == 0
    }

    /// A body at rest at `position`. The inverse mass is `1 / mass` for a
    /// positive mass, at most the largest number, and zero otherwise: a
    /// body of positive mass is never static.
    pub fn new(position: Vec2, mass: FixedPoint) -> (r: Self)
        ensures
            r == (Body {
                position,
                mass,
                inv_mass: FixedPoint(saturating_recip(mass@) as i32),
                ..Body::spec_default()
            }),
            r.spec_is_static() <==> mass@ <= 0,
            mass@ >= 3 ==> r.inv_mass == FixedPoint::spec_one().spec_div(mass),
    {
        let inv_mass: FixedPoint = mass.saturating_recip();
        Body {
            position,
            velocity: Vec2::zero(),
            acceleration: Vec2::zero(),
            mass,
            inv_mass,
            restitution: FixedPoint(32768),
            friction: FixedPoint(19660),
        }
    }

    /// An immovable body at `position`.
    pub fn static_body(position: Vec2) -> (r: Self)
        ensures
            r == (Body {
                position,
                mass: FixedPoint(0),
                inv_mass: FixedPoint(0),
                ..Body::spec_default()
            }),
            r.spec_is_static(),
    {
        Body {
            position,
            velocity: Vec2::zero(),
            acceleration: Vec2::zero(),
            mass: FixedPoint(0),
            inv_mass: FixedPoint(0),
            restitution: FixedPoint(32768),
            friction: FixedPoint(19660),
        }
    }

    #[verifier::when_used_as_spec(spec_is_static)]
    pub fn is_static(&self) -> (r: bool)
        ensures
            r == self.spec_is_static(),
    {
        self.inv_mass.0 == 0
    }
}

impl Default for Body {
    fn default() -> (r: Body)
        ensures
            r == Body::spec_default(),
    {
        Body {
            position: Vec2::zero(),
            velocity: Vec2::zero(),
            acceleration: Vec2::zero(),
            mass: FixedPoint(65536),
            inv_mass: FixedPoint(65536),
            restitution: FixedPoint(32768),
            friction: FixedPoint(19660),
        }
    }
}

/// Contact information
#[derive(Clone, Copy, Debug)]
pub struct Contact {
    pub body_a: usize,
    pub body_b: usize,
    /// Points from body A toward body B.
    pub normal: Vec2,
    pub penetration: FixedPoint,
    pub point: Vec2,
}

/// The number of bodies from which a step looks for contacts through the
/// grid of the broad phase.
pub const BROAD_PHASE_THRESHOLD: usize = 64;

/// What an accessor reports when it is asked for a body that does not exist.
#[derive(Clone, Copy, Debug, PartialEq, Eq)]
pub enum PhysicsError {
    /// `index` is not below `count`, the number of bodies in the world.
    BodyIndexOutOfBounds { index: usize, count: usize },
}

/// The length of one substep: a sixtieth of a second, divided by the number
/// of substeps.
pub open spec fn step_dt(substeps: u32) -> FixedPoint {
    FixedPoint::spec_one().spec_div(FixedPoint(3932160)).spec_div(
        FixedPoint::wrapped(substeps as int * 65536),
    )
}

/// The bodies with gravity as the acceleration of each one that can move.
pub open spec fn apply_gravity(bodies: Seq<Body>, gravity: Vec2) -> Seq<Body> {
    Seq::new(
        bodies.len(),
        |i: int|
            if bodies[i].spec_is_static() {
                bodies[i]
            } else {
                Body { acceleration: gravity, ..bodies[i] }
            },
    )
}

/// The bodies after `rounds` passes of the solver over the same contacts.
pub open spec fn resolve_rounds(bodies: Seq<Body>, contacts: Seq<Contact>, rounds: nat) -> Seq<
    Body,
>
    decreases rounds,
{
    if rounds == 0 {
        bodies
    } else {
        resolve_all(resolve_rounds(bodies, contacts, (rounds - 1) as nat), contacts)
    }
}

/// The bodies after one substep: gravity, integration, detection of the
/// contacts among the moved bodies, then the solver passes.
pub open spec fn substep_bodies(bodies: Seq<Body>, config: PhysicsConfig, dt: FixedPoint) -> Seq<
    Body,
> {
    let moved = integrate_all(apply_gravity(bodies, config.gravity), dt);
    resolve_rounds(moved, all_contacts(moved, moved.len() as int), config.iterations as nat)
}

/// The bodies after `n` substeps of length `dt`.
pub open spec fn run_substeps(
    bodies: Seq<Body>,
    config: PhysicsConfig,
    dt: FixedPoint,
    n: nat,
) -> Seq<Body>
    decreases n,
{
    if n == 0 {
        bodies
    } else {
        substep_bodies(run_substeps(bodies, config, dt, (n - 1) as nat), config, dt)
    }
}

/// The bodies after one step of the world.
pub open spec fn step_bodies(bodies: Seq<Body>, config: PhysicsConfig) -> Seq<Body> {
    run_substeps(bodies, config, step_dt(config.substeps), config.substeps as nat)
}

/// The bodies after `n` steps of the world.
pub open spec fn run_steps(bodies: Seq<Body>, config: PhysicsConfig, n: nat) -> Seq<Body>
    decreases n,
{
    if n == 0 {
        bodies
    } else {
        step_bodies(run_steps(bodies, config, (n - 1) as nat), config)
    }
}

/// Solver passes neither add nor remove a body.
pub proof fn lemma_resolve_rounds_len(bodies: Seq<Body>, contacts: Seq<Contact>, rounds: nat)
    requires
        forall|k: int|
            0 <= k < contacts.len() ==> contact_in_bounds(
                #[trigger] contacts[k],
                bodies.len() as int,
            ),
    ensures
        resolve_rounds(bodies, contacts, rounds).len() == bodies.len(),
    decreases rounds,
{
    if rounds > 0 {
        lemma_resolve_rounds_len(bodies, contacts, (rounds - 1) as nat);
        lemma_resolve_all_len(resolve_rounds(bodies, contacts, (rounds - 1) as nat), contacts);
    }
}

/// A step neither adds nor removes a body, so an index that names a body
/// names it for as long as the world lives.
pub proof fn lemma_step_keeps_bodies(bodies: Seq<Body>, config: PhysicsConfig)
    requires
        bodies.len() <= usize::MAX,
    ensures
        step_bodies(bodies, config).len() == bodies.len(),
{
    lemma_substeps_keep_bodies(bodies, config, step_dt(config.substeps), config.substeps as nat);
}

/// Substeps neither add nor remove a body.
proof fn lemma_substeps_keep_bodies(
    bodies: Seq<Body>,
    config: PhysicsConfig,
    dt: FixedPoint,
    n: nat,
)
    requires
        bodies.len() <= usize::MAX,
    ensures
        run_substeps(bodies, config, dt, n).len() == bodies.len(),
    decreases n,
{
    if n > 0 {
        lemma_substeps_keep_bodies(bodies, config, dt, (n - 1) as nat);
        let before = run_substeps(bodies, config, dt, (n - 1) as nat);
        let moved = integrate_all(apply_gravity(before, config.gravity), dt);
        lemma_all_contacts_in_bounds(moved, moved.len() as int);
        lemma_resolve_rounds_len(
            moved,
            all_contacts(moved, moved.len() as int),
            config.iterations as nat,
        );
    }
}

/// Physics world - manages all bodies and collisions
pub struct PhysicsWorld {
    pub config: PhysicsConfig,
    pub bodies: Vec<Body>,
    /// Scratch list, cleared and rebuilt in every substep.
    contacts: Vec<Contact>,
}

/// What a world is made of: its configuration and its bodies in the order
/// in which they were added.
pub struct WorldState {
    pub config: PhysicsConfig,
    pub bodies: Seq<Body>,
}

impl View for PhysicsWorld {
    type V = WorldState;

    closed spec fn view(&self) -> WorldState {
        WorldState { config: self.config, bodies: self.bodies@ }
    }
}

impl PhysicsWorld {
    /// An empty world with the default configuration.
    pub fn new() -> (r: Self)
        ensures
            r@.config == PhysicsConfig::spec_default(),
            r@.bodies == Seq::<Body>::empty(),
    {
        PhysicsWorld {
            config: PhysicsConfig::default(),
            bodies: Vec::new(),
            contacts: Vec::new(),
        }
    }

    /// An empty world with the given configuration.
    pub fn with_config(config: PhysicsConfig) -> (r: Self)
        ensures
            r@.config == config,
            r@.bodies == Seq::<Body>::empty(),
    {
        PhysicsWorld { config, bodies: Vec::new(), contacts: Vec::new() }
    }

    /// Adds a body and returns its index. Bodies are never removed, so the
    /// index stays valid for the life of the world.
    pub fn add_body(&mut self, body: Body) -> (id: usize)
        ensures
            id == old(self)@.bodies.len(),
            final(self)@.bodies == old(self)@.bodies.push(body),
            final(self)@.config == old(self)@.config,
    {
        let id: usize = self.bodies.len();
        self.bodies.push(body);
        id
    }

    /// Advances the world by one step of a sixtieth of a second, made of
    /// the configured number of substeps.
    pub fn step(&mut self)
        ensures
            final(self)@.config == old(self)@.config,
            final(self)@.bodies == step_bodies(old(self)@.bodies, old(self)@.config),
            final(self)@.bodies.len() == old(self)@.bodies.len(),
    {
        let count: usize = self.bodies.len();
        proof {
            assert(self.bodies@.len() == count);
            lemma_step_keeps_bodies(self.bodies@, self.config);
        }
        let substeps: u32 = self.config.substeps;
        let iterations: u32 = self.config.iterations;
        let gravity: Vec2 = self.config.gravity;
        let dt: FixedPoint = FixedPoint::one() / FixedPoint::from_int(60) / wrap_wide(
            substeps as i128 * 65536,
        );

        let mut s: u32 = 0;
        while s < substeps
            invariant
                s <= substeps,
                self.config == old(self).config,
                substeps == self.config.substeps,
                iterations == self.config.iterations,
                gravity == self.config.gravity,
                dt == step_dt(substeps),
                self.bodies@ == run_substeps(old(self).bodies@, self.config, dt, s as nat),
            decreases substeps - s,
        {
            let ghost start = self.bodies@;
            // Apply gravity
            let n: usize = self.bodies.len();
            let mut i: usize = 0;
            while i < n
                invariant
                    i <= n,
                    n == self.bodies.len(),
                    n == start.len(),
                    self.config == old(self).config,
                    forall|k: int|
                        0 <= k < i ==> self.bodies@[k] == apply_gravity(start, gravity)[k],
                    forall|k: int| i <= k < n ==> self.bodies@[k] == start[k],
                decreases n - i,
            {
                if !self.bodies[i].is_static() {
                    self.bodies[i].acceleration = gravity;
                }
                i += 1;
            }
            assert(self.bodies@ =~= apply_gravity(start, gravity));

            // Integration
            integrate_bodies(self.bodies.as_mut_slice(), dt);
            let ghost moved = self.bodies@;

            // Collision detection: through the grid for a crowd, pair by
            // pair for a few; the contacts are the same either way
            self.contacts.clear();
            if n >= BROAD_PHASE_THRESHOLD {
                detect_collisions_broad(self.bodies.as_slice(), &mut self.contacts);
            } else {
                detect_collisions(self.bodies.as_slice(), &mut self.contacts);
            }
            proof {
                assert(self.contacts@ =~= all_contacts(moved, moved.len() as int));
                lemma_all_contacts_in_bounds(moved, moved.len() as int);
            }

            // Resolve collisions
            let mut round: u32 = 0;
            while round < iterations
                invariant
                    round <= iterations,
                    self.config == old(self).config,
                    self.contacts@ == all_contacts(moved, moved.len() as int),
                    self.bodies@.len() == moved.len(),
                    forall|k: int|
                        0 <= k < self.contacts@.len() ==> contact_in_bounds(
                            #[trigger] self.contacts@[k],
                            moved.len() as int,
                        ),
                    self.bodies@ == resolve_rounds(moved, self.contacts@, round as nat),
                decreases iterations - round,
            {
                proof {
                    lemma_resolve_all_len(self.bodies@, self.contacts@);
                }
                resolve_contacts(self.bodies.as_mut_slice(), self.contacts.as_slice());
                round += 1;
            }
            s += 1;
        }
    }

    pub fn body_count(&self) -> (r: usize)
        ensures
            r == self@.bodies.len(),
    {
        self.bodies.len()
    }

    /// The position of the body at `index`, or an error for an index that
    /// names no body.
    pub fn body_position(&self, index: usize) -> (r: Result<Vec2, PhysicsError>)
        ensures
            index < self@.bodies.len() ==> r == Ok::<Vec2, PhysicsError>(
                self@.bodies[index as int].position,
            ),
            index >= self@.bodies.len() ==> r == Err::<Vec2, PhysicsError>(
                PhysicsError::BodyIndexOutOfBounds { index, count: self@.bodies.len() as usize },
            ),
    {
        if index < self.bodies.len() {
            Ok(self.bodies[index].position)
        } else {
            Err(PhysicsError::BodyIndexOutOfBounds { index, count: self.bodies.len() })
        }
    }

    /// The velocity of the body at `index`, or an error for an index that
    /// names no body.
    pub fn body_velocity(&self, index: usize) -> (r: Result<Vec2, PhysicsError>)
        ensures
            index < self@.bodies.len() ==> r == Ok::<Vec2, PhysicsError>(
                self@.bodies[index as int].velocity,
            ),
            index >= self@.bodies.len() ==> r == Err::<Vec2, PhysicsError>(
                PhysicsError::BodyIndexOutOfBounds { index, count: self@.bodies.len() as usize },
            ),
    {
        if index < self.bodies.len() {
            Ok(self.bodies[index].velocity)
        } else {
            Err(PhysicsError::BodyIndexOutOfBounds { index, count: self.bodies.len() })
        }
    }
}

impl Default for PhysicsWorld {
    fn default() -> (r: PhysicsWorld)
        ensures
            r@.config == PhysicsConfig::spec_default(),
            r@.bodies == Seq::<Body>::empty(),
    {
        PhysicsWorld::new()
    }
}

/// The raw distance covered along one axis in the first `n` steps of a
/// fall that starts with raw velocity `v0` and gains `gain` per step: the
/// sum over the steps `k = 1 ..= n` of the velocity after step `k` times
/// `dt`, each product rounded the way the integrator rounds it.
pub open spec fn fall_distance(v0: int, gain: int, dt: int, n: nat) -> int
    decreases n,
{
    if n == 0 {
        0
    } else {
        fall_distance(v0, gain, dt, (n - 1) as nat) + fx_mul(wrap32(v0 + n * gain), dt)
    }
}

/// The velocity after `n` steps of a fall: the start plus `n` times the
/// gain of one step, `gravity * dt`.
pub open spec fn fall_velocity(v0: Vec2, gravity: Vec2, dt: FixedPoint, n: nat) -> Vec2 {
    Vec2 {
        x: FixedPoint::wrapped(v0.x@ + n * fx_mul(gravity.x@, dt@)),
        y: FixedPoint::wrapped(v0.y@ + n * fx_mul(gravity.y@, dt@)),
    }
}

/// The position after `n` steps of a fall: the start plus the distance
/// covered along each axis.
pub open spec fn fall_position(p0: Vec2, v0: Vec2, gravity: Vec2, dt: FixedPoint, n: nat) -> Vec2 {
    Vec2 {
        x: FixedPoint::wrapped(p0.x@ + fall_distance(v0.x@, fx_mul(gravity.x@, dt@), dt@, n)),
        y: FixedPoint::wrapped(p0.y@ + fall_distance(v0.y@, fx_mul(gravity.y@, dt@), dt@, n)),
    }
}

/// The body `b` after `n` steps of a fall.
pub open spec fn fallen(b: Body, gravity: Vec2, dt: FixedPoint, n: nat) -> Body {
    Body {
        velocity: fall_velocity(b.velocity, gravity, dt, n),
        position: fall_position(b.position, b.velocity, gravity, dt, n),
        acceleration: if n == 0 {
            b.acceleration
        } else {
            Vec2::spec_zero()
        },
        ..b
    }
}

/// Solver passes over no contacts change nothing.
proof fn lemma_no_contacts_no_change(bodies: Seq<Body>, rounds: nat)
    ensures
        resolve_rounds(bodies, Seq::<Contact>::empty(), rounds) == bodies,
    decreases rounds,
{
    if rounds > 0 {
        lemma_no_contacts_no_change(bodies, (rounds - 1) as nat);
    }
}

/// A substep of a world that holds a single body that can move is one step
/// of the integrator under gravity.
proof fn lemma_substep_of_single_body(b: Body, config: PhysicsConfig, dt: FixedPoint)
    requires
        !b.spec_is_static(),
    ensures
        substep_bodies(seq![b], config, dt) == seq![
            integrate_body(Body { acceleration: config.gravity, ..b }, dt),
        ],
{
    let pulled = Body { acceleration: config.gravity, ..b };
    assert(apply_gravity(seq![b], config.gravity) =~= seq![pulled]);
    let moved = integrate_all(seq![pulled], dt);
    assert(moved =~= seq![integrate_body(pulled, dt)]);
    assert(all_contacts(moved, 1) =~= Seq::<Contact>::empty()) by {
        assert(all_contacts(moved, 0) =~= Seq::<Contact>::empty());
        assert(collision::row_contacts(moved, 0, 1) =~= Seq::<Contact>::empty());
    }
    lemma_no_contacts_no_change(moved, config.iterations as nat);
}

/// Along one axis, a step takes the velocity and position after `m` steps
/// of a fall to those after `m + 1` steps.
proof fn lemma_fall_axis(p0: int, v0: int, gain: int, dt: int, m: nat)
    ensures
        wrap32(wrap32(v0 + m * gain) + gain) == wrap32(v0 + (m + 1) * gain),
        wrap32(
            wrap32(p0 + fall_distance(v0, gain, dt, m)) + fx_mul(
                wrap32(v0 + (m + 1) * gain),
                dt,
            ),
        ) == wrap32(p0 + fall_distance(v0, gain, dt, m + 1)),
{
    assert(v0 + m * gain + gain == v0 + (m + 1) * gain) by (nonlinear_arith);
}

/// The start of a fall is the body itself.
proof fn lemma_fallen_start(b: Body, gravity: Vec2, dt: FixedPoint)
    ensures
        fallen(b, gravity, dt, 0) == b,
{
    let gx = fx_mul(gravity.x@, dt@);
    let gy = fx_mul(gravity.y@, dt@);
    assert(0 * gx == 0 && 0 * gy == 0) by (nonlinear_arith);
    assert(fall_distance(b.velocity.x@, gx, dt@, 0) == 0);
    assert(fall_distance(b.velocity.y@, gy, dt@, 0) == 0);
    assert(wrap32(b.velocity.x@) == b.velocity.x@ && wrap32(b.velocity.y@) == b.velocity.y@);
    assert(wrap32(b.position.x@) == b.position.x@ && wrap32(b.position.y@) == b.position.y@);
    let start = fallen(b, gravity, dt, 0);
    assert(start.velocity.x == b.velocity.x && start.velocity.y == b.velocity.y);
    assert(start.position.x == b.position.x && start.position.y == b.position.y);
    assert(start.velocity == b.velocity);
    assert(start.position == b.position);
}

/// One step of the integrator under gravity takes the body after `m` steps
/// of a fall to the body after `m + 1` steps.
proof fn lemma_fall_step(b: Body, gravity: Vec2, dt: FixedPoint, m: nat)
    requires
        !b.spec_is_static(),
    ensures
        integrate_body(Body { acceleration: gravity, ..fallen(b, gravity, dt, m) }, dt) == fallen(
            b,
            gravity,
            dt,
            m + 1,
        ),
{
    lemma_fall_axis(b.position.x@, b.velocity.x@, fx_mul(gravity.x@, dt@), dt@, m);
    lemma_fall_axis(b.position.y@, b.velocity.y@, fx_mul(gravity.y@, dt@), dt@, m);
}

/// A single body under constant gravity follows the sum of its steps.
///
/// A world that holds one body that can move meets no contact, so each
/// substep is one step of semi-implicit Euler under gravity. After `n`
/// substeps of length `dt` the velocity is the start plus `n` times
/// `gravity * dt`, and the position is the start plus the sum of the
/// velocities after each step times `dt`: the sum of the discrete motion,
/// not the formula of the continuous one.
pub proof fn lemma_free_fall(b: Body, config: PhysicsConfig, dt: FixedPoint, n: nat)
    requires
        !b.spec_is_static(),
    ensures
        run_substeps(seq![b], config, dt, n) == seq![fallen(b, config.gravity, dt, n)],
    decreases n,
{
    if n > 0 {
        let m = (n - 1) as nat;
        lemma_free_fall(b, config, dt, m);
        lemma_substep_of_single_body(fallen(b, config.gravity, dt, m), config, dt);
        lemma_fall_step(b, config.gravity, dt, m);
    } else {
        lemma_fallen_start(b, config.gravity, dt);
    }
}

/// One step of a world that holds a single body that can move is a fall of
/// as many substeps as the configuration asks for.
pub proof fn lemma_step_of_single_body(b: Body, config: PhysicsConfig)
    requires
        !b.spec_is_static(),
    ensures
        step_bodies(seq![b], config) == seq![
            fallen(b, config.gravity, step_dt(config.substeps), config.substeps as nat),
        ],
{
    lemma_free_fall(b, config, step_dt(config.substeps), config.substeps as nat);
}

} // verus!
