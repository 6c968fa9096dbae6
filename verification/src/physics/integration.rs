//! Physics integration
//!
//! Semi-implicit Euler: the velocity is advanced first and the position
//! then moves with the new velocity, which keeps the energy of a system
//! under repeated fixed steps far steadier than explicit Euler does.

use super::Body;
use crate::math::fixed_point::FixedPoint;
use crate::math::vec2::Vec2;
use vstd::prelude::*;

verus! {

/// One body after a step of length `dt`: the velocity gains
/// `acceleration * dt`, the position gains the new velocity times `dt`, and
/// the acceleration is cleared. A static body is left as it is.
pub open spec fn integrate_body(b: Body, dt: FixedPoint) -> Body {
    let velocity = b.velocity.spec_add(b.acceleration.spec_scale(dt));
    if b.spec_is_static() {
        b
    } else {
        Body {
            velocity,
            position: b.position.spec_add(velocity.spec_scale(dt)),
            acceleration: Vec2::spec_zero(),
            ..b
        }
    }
}

/// Every body after a step of length `dt`.
pub open spec fn integrate_all(bodies: Seq<Body>, dt: FixedPoint) -> Seq<Body> {
    Seq::new(bodies.len(), |i: int| integrate_body(bodies[i], dt))
}

/// Integrate all bodies using Semi-implicit Euler
pub fn integrate_bodies(bodies: &mut [Body], dt: FixedPoint)
    ensures
        final(bodies)@ == integrate_all(old(bodies)@, dt),
{
    let n: usize = bodies.len();
    let mut i: usize = 0;
    while i < n
        invariant
            i <= n,
            n == bodies.len(),
            bodies.len() == old(bodies).len(),
            forall|k: int| 0 <= k < i ==> bodies@[k] == integrate_body(old(bodies)@[k], dt),
            forall|k: int| i <= k < n ==> bodies@[k] == old(bodies)@[k],
        decreases n - i,
    {
        let body: Body = bodies[i];
        if !body.is_static() {
            // Semi-implicit Euler
            let velocity: Vec2 = body.velocity + body.acceleration * dt;
            bodies[i].velocity = velocity;
            bodies[i].position = body.position + velocity * dt;

            // Clear acceleration
            bodies[i].acceleration = Vec2::zero();
        }
        i += 1;
    }
    assert(bodies@ =~= integrate_all(old(bodies)@, dt));
}

/// One body after a Verlet step: the position gains what it gained in the
/// step before plus `acceleration * dt * dt`, and the acceleration is
/// cleared. A static body is left as it is.
pub open spec fn verlet_body(b: Body, prev: Vec2, dt: FixedPoint) -> Body {
    if b.spec_is_static() {
        b
    } else {
        Body {
            position: b.position.spec_add(b.position.spec_sub(prev)).spec_add(
                b.acceleration.spec_scale(dt).spec_scale(dt),
            ),
            acceleration: Vec2::spec_zero(),
            ..b
        }
    }
}

/// Verlet integration (alternative, more stable for constraints)
///
/// Each body that is not static needs its previous position at its own
/// index; afterwards that entry holds the position the body came from.
pub fn integrate_verlet(bodies: &mut [Body], prev_positions: &mut [Vec2], dt: FixedPoint)
    requires
        forall|i: int|
            0 <= i < old(bodies).len() && !(#[trigger] old(bodies)@[i]).spec_is_static() ==> i
                < old(prev_positions).len(),
    ensures
        final(bodies).len() == old(bodies).len(),
        final(prev_positions).len() == old(prev_positions).len(),
        forall|i: int|
            0 <= i < old(bodies).len() && i < old(prev_positions).len() ==> #[trigger] final(
                bodies
            )@[i] == verlet_body(old(bodies)@[i], old(prev_positions)@[i], dt),
        forall|i: int|
            0 <= i < old(bodies).len() && i >= old(prev_positions).len() ==> #[trigger] final(
                bodies
            )@[i] == old(bodies)@[i],
        forall|i: int|
            0 <= i < old(prev_positions).len() ==> #[trigger] final(prev_positions)@[i] == (if i
                < old(bodies).len() && !old(bodies)@[i].spec_is_static() {
                old(bodies)@[i].position
            } else {
                old(prev_positions)@[i]
            }),
{
    let n: usize = bodies.len();
    let mut i: usize = 0;
    while i < n
        invariant
            i <= n,
            n == bodies.len(),
            bodies.len() == old(bodies).len(),
            prev_positions.len() == old(prev_positions).len(),
            forall|k: int|
                0 <= k < old(bodies).len() && !(#[trigger] old(bodies)@[k]).spec_is_static() ==> k
                    < old(prev_positions).len(),
            forall|k: int|
                0 <= k < i && k < prev_positions.len() ==> #[trigger] bodies@[k] == verlet_body(
                    old(bodies)@[k],
                    old(prev_positions)@[k],
                    dt,
                ),
            forall|k: int|
                0 <= k < i && k >= prev_positions.len() ==> #[trigger] bodies@[k] == old(
                    bodies
                )@[k],
            forall|k: int| i <= k < n ==> #[trigger] bodies@[k] == old(bodies)@[k],
            forall|k: int|
                0 <= k < prev_positions.len() ==> #[trigger] prev_positions@[k] == (if k < i
                    && !old(bodies)@[k].spec_is_static() {
                    old(bodies)@[k].position
                } else {
                    old(prev_positions)@[k]
                }),
        decreases n - i,
    {
        let body: Body = bodies[i];
        proof {
            assert(!old(bodies)@[i as int].spec_is_static() ==> i < prev_positions.len());
        }
        if !body.is_static() {
            let temp: Vec2 = body.position;
            let velocity: Vec2 = body.position - prev_positions[i];

            bodies[i].position = body.position + velocity + body.acceleration * dt * dt;
            prev_positions[i] = temp;

            bodies[i].acceleration = Vec2::zero();
        }
        i += 1;
    }
}

} // verus!
