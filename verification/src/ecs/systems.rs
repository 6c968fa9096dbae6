//! ECS Systems - game logic processors
//!
//! Which entities a system visits is decided by the store; what happens to
//! each of them is decided here.

use super::components::Health;
use super::{moved_transforms, pulled_velocities, World};
use crate::math::fixed_point::FixedPoint;
use vstd::prelude::*;

verus! {

/// The entities of `list` whose health is used up, in the order of the
/// list.
pub open spec fn dead_of(list: Seq<(hecs::Entity, Health)>) -> Seq<hecs::Entity>
    decreases list.len(),
{
    if list.len() == 0 {
        Seq::empty()
    } else if list.last().1.spec_is_dead() {
        dead_of(list.drop_last()).push(list.last().0)
    } else {
        dead_of(list.drop_last())
    }
}

/// The entities of `list` whose health is used up, in the order of the
/// list.
pub fn dead_among(list: &Vec<(hecs::Entity, Health)>) -> (dead: Vec<hecs::Entity>)
    ensures
        dead@ == dead_of(list@),
{
    let mut dead: Vec<hecs::Entity> = Vec::new();
    let n: usize = list.len();
    let mut i: usize = 0;
    while i < n
        invariant
            i <= n,
            n == list@.len(),
            dead@ == dead_of(list@.take(i as int)),
        decreases n - i,
    {
        proof {
            let next = list@.take(i as int + 1);
            assert(next.drop_last() == list@.take(i as int));
            assert(next.last() == list@[i as int]);
        }
        if list[i].1.is_dead() {
            dead.push(list[i].0);
        }
        i += 1;
    }
    assert(list@.take(n as int) == list@);
    dead
}

/// The count after `n` despawns: one down for each, but not below zero.
pub open spec fn count_after(count: u32, n: nat) -> u32 {
    if count >= n {
        (count - n) as u32
    } else {
        0
    }
}

/// The set without the entities of the list.
pub open spec fn without_all(entities: Set<hecs::Entity>, gone: Seq<hecs::Entity>) -> Set<
    hecs::Entity,
>
    decreases gone.len(),
{
    if gone.len() == 0 {
        entities
    } else {
        without_all(entities, gone.drop_last()).remove(gone.last())
    }
}

/// Movement system - updates positions based on velocity
///
/// Every entity that has a transform and a velocity gets the transform
/// that `Transform::moved` makes of the two. Nothing else changes.
pub fn movement_system(world: &mut World, dt: FixedPoint)
    ensures
        final(world).transforms() == moved_transforms(
            old(world).transforms(),
            old(world).velocities(),
            dt,
        ),
        final(world).velocities() == old(world).velocities(),
        final(world).same_but_motion(old(world)),
{
    world.move_all(dt);
}

/// Gravity system - applies gravity to entities with rigid bodies
///
/// Every entity that has a velocity and a rigid body gets the velocity
/// that `Velocity::pulled` makes of the two. Nothing else changes.
pub fn gravity_system(world: &mut World, gravity: FixedPoint, dt: FixedPoint)
    ensures
        final(world).velocities() == pulled_velocities(
            old(world).velocities(),
            old(world).rigid_bodies(),
            gravity,
            dt,
        ),
        final(world).transforms() == old(world).transforms(),
        final(world).same_but_motion(old(world)),
{
    world.pull_all(gravity, dt);
}

/// Health system - removes dead entities
///
/// Returns the entities whose health is used up, which are then gone from
/// the world. The count of the world goes down by one for each.
pub fn health_system(world: &mut World) -> (dead: Vec<hecs::Entity>)
    requires
        old(world).reservations() == 0,
    ensures
        final(world).reservations() == 0,
        dead@ == dead_of(old(world).healths()),
        final(world).entities() == without_all(old(world).entities(), dead@),
        final(world).count() == count_after(old(world).count(), dead@.len()),
{
    let list: Vec<(hecs::Entity, Health)> = world.health_list();
    let dead: Vec<hecs::Entity> = dead_among(&list);

    let n: usize = dead.len();
    let mut i: usize = 0;
    while i < n
        invariant
            i <= n,
            n == dead@.len(),
            world.reservations() == 0,
            dead@ == dead_of(old(world).healths()),
            world.entities() == without_all(old(world).entities(), dead@.take(i as int)),
            world.count() == count_after(old(world).count(), i as nat),
        decreases n - i,
    {
        proof {
            let next = dead@.take(i as int + 1);
            assert(next.drop_last() == dead@.take(i as int));
            assert(next.last() == dead@[i as int]);
        }
        let _ = world.despawn(dead[i]);
        i += 1;
    }
    assert(dead@.take(n as int) == dead@);
    dead
}

} // verus!
