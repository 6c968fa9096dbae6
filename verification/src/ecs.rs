//! Entity Component System
//!
//! Entities and their components are stored by the `hecs` crate. This
//! module keeps a count beside the store and states what spawning and
//! despawning do to the set of live entities.

pub mod components;
pub mod systems;

use crate::math::fixed_point::FixedPoint;
use components::{Enemy, EntityParts, Health, Player, RigidBody, Transform, Velocity};
use hecs::World as Store;
use vstd::prelude::*;

verus! {

#[verifier::external_type_specification]
#[verifier::external_body]
pub struct ExStore(Store);

#[verifier::external_type_specification]
#[verifier::external_body]
pub struct ExHecsEntity(hecs::Entity);

#[verifier::external_type_specification]
#[verifier::external_body]
pub struct ExHecsNoSuchEntity(hecs::NoSuchEntity);

/// The entities that are alive in a store: the handles that were spawned,
/// or reserved and since made real, and not despawned.
pub uninterp spec fn live_entities(store: Store) -> Set<hecs::Entity>;

/// The number of entities that were reserved in a store through a shared
/// reference and not yet made real. Spawning, despawning and attaching make
/// them real before they do anything else, so what those calls do to the
/// live entities is stated for a store that has none outstanding.
pub uninterp spec fn reserved_in(store: Store) -> nat;

/// The most entities that a store can hold alive.
pub const MAX_ENTITIES: u32 = 0xFFFF_FFFF;

/// An empty store, by `hecs::World::new`: no entity is alive or reserved
/// in it.
#[verifier::external_body]
fn empty_store() -> (store: Store)
    ensures
        live_entities(store) == Set::<hecs::Entity>::empty(),
        reserved_in(store) == 0,
{
    Store::new()
}

/// Makes every reserved entity real, by `hecs::World::flush`. No entity
/// stops being alive, and where none was reserved nothing changes.
#[verifier::external_body]
fn flush_in(store: &mut Store)
    ensures
        reserved_in(*final(store)) == 0,
        live_entities(*old(store)).subset_of(live_entities(*final(store))),
        reserved_in(*old(store)) == 0 ==> live_entities(*final(store)) == live_entities(
            *old(store),
        ),
{
    store.flush()
}

/// A new entity without components, by `hecs::World::spawn` of the empty
/// bundle. The handle that comes back was not alive before and is alive
/// afterwards; nothing else changes. The store counts its live entities in
/// 32 bits and must have room for one more.
#[verifier::external_body]
fn spawn_empty_in(store: &mut Store) -> (entity: hecs::Entity)
    requires
        reserved_in(*old(store)) == 0,
        live_entities(*old(store)).finite(),
        live_entities(*old(store)).len() < MAX_ENTITIES,
    ensures
        !live_entities(*old(store)).contains(entity),
        live_entities(*final(store)) == live_entities(*old(store)).insert(entity),
        reserved_in(*final(store)) == 0,
{
    store.spawn(())
}

/// Gives `entity` the component, in place of one of the same type that it
/// may have, by `hecs::World::insert_one`. For a handle that is not alive
/// the error comes back. No entity is made or destroyed either way.
#[verifier::external_body]
fn attach_in<T: Send + Sync + 'static>(store: &mut Store, entity: hecs::Entity, component: T) -> (r:
    Result<(), hecs::NoSuchEntity>)
    requires
        reserved_in(*old(store)) == 0,
    ensures
        r is Ok <==> live_entities(*old(store)).contains(entity),
        live_entities(*final(store)) == live_entities(*old(store)),
        reserved_in(*final(store)) == 0,
{
    store.insert_one(entity, component)
}

/// Destroys an entity and its components, by `hecs::World::despawn`. An
/// entity that is alive leaves the store; for any other handle the store
/// stays as it is and the error comes back.
#[verifier::external_body]
fn despawn_in(store: &mut Store, entity: hecs::Entity) -> (r: Result<
    (),
    hecs::NoSuchEntity,
>)
    requires
        reserved_in(*old(store)) == 0,
    ensures
        r is Ok <==> live_entities(*old(store)).contains(entity),
        live_entities(*final(store)) == live_entities(*old(store)).remove(entity),
        reserved_in(*final(store)) == 0,
{
    store.despawn(entity)
}

/// Destroys every entity, by `hecs::World::clear`, the reserved ones too.
#[verifier::external_body]
fn clear_store(store: &mut Store)
    ensures
        live_entities(*final(store)) == Set::<hecs::Entity>::empty(),
        reserved_in(*final(store)) == 0,
{
    store.clear()
}

/// The number of live entities, by `hecs::World::len`.
#[verifier::external_body]
fn count_in(store: &Store) -> (n: u32)
    ensures
        live_entities(*store).finite() ==> n == live_entities(*store).len(),
{
    store.len()
}

/// The transform of every entity of a store that has one.
pub uninterp spec fn transforms_in(store: Store) -> Map<hecs::Entity, Transform>;

/// The velocity of every entity of a store that has one.
pub uninterp spec fn velocities_in(store: Store) -> Map<hecs::Entity, Velocity>;

/// The rigid body of every entity of a store that has one.
pub uninterp spec fn bodies_in(store: Store) -> Map<hecs::Entity, RigidBody>;

/// The transforms after every entity that also has a velocity has moved
/// with it for the time `dt`; the others stay where they are.
pub open spec fn moved_transforms(
    transforms: Map<hecs::Entity, Transform>,
    velocities: Map<hecs::Entity, Velocity>,
    dt: FixedPoint,
) -> Map<hecs::Entity, Transform> {
    Map::new(
        |entity: hecs::Entity| transforms.contains_key(entity),
        |entity: hecs::Entity|
            if velocities.contains_key(entity) {
                transforms[entity].spec_moved(velocities[entity], dt)
            } else {
                transforms[entity]
            },
    )
}

/// The velocities after gravity has pulled for the time `dt` on every
/// entity that also has a rigid body; the others keep theirs.
pub open spec fn pulled_velocities(
    velocities: Map<hecs::Entity, Velocity>,
    bodies: Map<hecs::Entity, RigidBody>,
    gravity: FixedPoint,
    dt: FixedPoint,
) -> Map<hecs::Entity, Velocity> {
    Map::new(
        |entity: hecs::Entity| velocities.contains_key(entity),
        |entity: hecs::Entity|
            if bodies.contains_key(entity) {
                velocities[entity].spec_pulled(bodies[entity], gravity, dt)
            } else {
                velocities[entity]
            },
    )
}

/// Replaces the transform of every entity that has a transform and a
/// velocity by `Transform::moved`, through `hecs::World::query_mut`, which
/// visits each such entity once and no other. No entity is made or
/// destroyed and no other component changes.
#[verifier::external_body]
fn move_in(store: &mut Store, dt: FixedPoint)
    ensures
        live_entities(*final(store)) == live_entities(*old(store)),
        reserved_in(*final(store)) == reserved_in(*old(store)),
        transforms_in(*final(store)) == moved_transforms(
            transforms_in(*old(store)),
            velocities_in(*old(store)),
            dt,
        ),
        velocities_in(*final(store)) == velocities_in(*old(store)),
        bodies_in(*final(store)) == bodies_in(*old(store)),
        health_entries(*final(store)) == health_entries(*old(store)),
{
    store.query_mut::<(&mut Transform, &Velocity)>().into_iter().for_each(
        |(transform, velocity)| *transform = transform.moved(*velocity, dt),
    );
}

/// Replaces the velocity of every entity that has a velocity and a rigid
/// body by `Velocity::pulled`, through `hecs::World::query_mut`, which
/// visits each such entity once and no other. No entity is made or
/// destroyed and no other component changes.
#[verifier::external_body]
fn pull_in(store: &mut Store, gravity: FixedPoint, dt: FixedPoint)
    ensures
        live_entities(*final(store)) == live_entities(*old(store)),
        reserved_in(*final(store)) == reserved_in(*old(store)),
        velocities_in(*final(store)) == pulled_velocities(
            velocities_in(*old(store)),
            bodies_in(*old(store)),
            gravity,
            dt,
        ),
        transforms_in(*final(store)) == transforms_in(*old(store)),
        bodies_in(*final(store)) == bodies_in(*old(store)),
        health_entries(*final(store)) == health_entries(*old(store)),
{
    store.query_mut::<(&mut Velocity, &RigidBody)>().into_iter().for_each(
        |(velocity, body)| *velocity = velocity.pulled(*body, gravity, dt),
    );
}

/// The entities of a store that have a health component, each with that
/// component, in the order in which the store walks them.
pub uninterp spec fn health_entries(store: Store) -> Seq<(hecs::Entity, Health)>;

/// Every entity that has a health component, with a copy of it, through
/// `hecs::World::query`. Each entity listed is alive.
#[verifier::external_body]
fn health_in(store: &Store) -> (list: Vec<(hecs::Entity, Health)>)
    ensures
        list@ == health_entries(*store),
        forall|i: int|
            0 <= i < list@.len() ==> live_entities(*store).contains(#[trigger] list@[i].0),
{
    let mut query = store.query::<(hecs::Entity, &Health)>();
    query.iter().map(|(entity, health)| (entity, *health)).collect()
}

/// Game world containing all entities
pub struct World {
    inner: Store,
    entity_count: u32,
}

impl World {
    /// The entities that are alive in the world.
    pub closed spec fn entities(&self) -> Set<hecs::Entity> {
        live_entities(self.inner)
    }

    /// The count that the world keeps: one up for every spawn, one down,
    /// but not below zero, for every despawn, whether or not the entity
    /// was alive.
    pub closed spec fn count(&self) -> u32 {
        self.entity_count
    }

    /// The number of entities that were reserved through a shared
    /// reference to the store and not yet made real. It is zero unless a
    /// caller of `inner` reserved some.
    pub closed spec fn reservations(&self) -> nat {
        reserved_in(self.inner)
    }

    pub fn new() -> (r: Self)
        ensures
            r.entities() == Set::<hecs::Entity>::empty(),
            r.count() == 0,
            r.reservations() == 0,
    {
        World { inner: empty_store(), entity_count: 0 }
    }

    /// Makes every reserved entity real. No entity stops being alive, and
    /// where none was reserved nothing changes.
    pub fn flush(&mut self)
        ensures
            final(self).reservations() == 0,
            old(self).entities().subset_of(final(self).entities()),
            old(self).reservations() == 0 ==> final(self).entities() == old(self).entities(),
            final(self).count() == old(self).count(),
    {
        flush_in(&mut self.inner);
    }

    /// Spawn a new entity with components
    ///
    /// The entity gets each part that `parts` holds. The handle that comes
    /// back was not alive before and is alive afterwards.
    pub fn spawn(&mut self, parts: EntityParts) -> (entity: hecs::Entity)
        requires
            old(self).reservations() == 0,
            old(self).count() < MAX_ENTITIES,
            old(self).entities().finite(),
            old(self).entities().len() < MAX_ENTITIES,
        ensures
            final(self).count() == old(self).count() + 1,
            !old(self).entities().contains(entity),
            final(self).entities() == old(self).entities().insert(entity),
            final(self).reservations() == 0,
    {
        self.entity_count += 1;
        let entity: hecs::Entity = spawn_empty_in(&mut self.inner);
        if let Some(transform) = parts.transform {
            let _ = attach_in(&mut self.inner, entity, transform);
        }
        if let Some(velocity) = parts.velocity {
            let _ = attach_in(&mut self.inner, entity, velocity);
        }
        if let Some(rigid_body) = parts.rigid_body {
            let _ = attach_in(&mut self.inner, entity, rigid_body);
        }
        if let Some(collider) = parts.collider {
            let _ = attach_in(&mut self.inner, entity, collider);
        }
        if let Some(sprite) = parts.sprite {
            let _ = attach_in(&mut self.inner, entity, sprite);
        }
        if let Some(health) = parts.health {
            let _ = attach_in(&mut self.inner, entity, health);
        }
        if parts.player {
            let _ = attach_in(&mut self.inner, entity, Player);
        }
        if parts.enemy {
            let _ = attach_in(&mut self.inner, entity, Enemy);
        }
        entity
    }

    /// Despawn an entity
    pub fn despawn(&mut self, entity: hecs::Entity) -> (r: Result<(), hecs::NoSuchEntity>)
        requires
            old(self).reservations() == 0,
        ensures
            final(self).count() == (if old(self).count() > 0 {
                old(self).count() - 1
            } else {
                0
            }),
            r is Ok <==> old(self).entities().contains(entity),
            final(self).entities() == old(self).entities().remove(entity),
            final(self).reservations() == 0,
    {
        self.entity_count = self.entity_count.saturating_sub(1);
        despawn_in(&mut self.inner, entity)
    }

    /// Get inner hecs world. Reserving an entity through it changes the
    /// store behind the reference; `flush` makes such entities real.
    pub fn inner(&self) -> (r: &Store)
        ensures
            live_entities(*r) == self.entities(),
            reserved_in(*r) == self.reservations(),
    {
        &self.inner
    }

    /// Get inner hecs world mutably. What is done to it is done to the
    /// world; the count of the world does not follow.
    pub fn inner_mut(&mut self) -> (r: &mut Store)
        ensures
            live_entities(*r) == old(self).entities(),
            reserved_in(*r) == old(self).reservations(),
            final(self).entities() == live_entities(*final(r)),
            final(self).reservations() == reserved_in(*final(r)),
            final(self).count() == old(self).count(),
    {
        &mut self.inner
    }

    /// Entity count
    pub fn entity_count(&self) -> (r: u32)
        ensures
            r == self.count(),
    {
        self.entity_count
    }

    /// The number of entities that are alive.
    pub fn len(&self) -> (r: u32)
        ensures
            self.entities().finite() ==> r == self.entities().len(),
    {
        count_in(&self.inner)
    }

    /// The transform of every entity that has one.
    pub closed spec fn transforms(&self) -> Map<hecs::Entity, Transform> {
        transforms_in(self.inner)
    }

    /// The velocity of every entity that has one.
    pub closed spec fn velocities(&self) -> Map<hecs::Entity, Velocity> {
        velocities_in(self.inner)
    }

    /// The rigid body of every entity that has one.
    pub closed spec fn rigid_bodies(&self) -> Map<hecs::Entity, RigidBody> {
        bodies_in(self.inner)
    }

    /// True when `self` is `before` but for the transforms and the
    /// velocities: the same entities, reservations, count, rigid bodies
    /// and healths.
    pub open spec fn same_but_motion(&self, before: &World) -> bool {
        &&& self.entities() == before.entities()
        &&& self.reservations() == before.reservations()
        &&& self.count() == before.count()
        &&& self.rigid_bodies() == before.rigid_bodies()
        &&& self.healths() == before.healths()
    }

    /// Moves every entity that has a transform and a velocity by its
    /// velocity for the time `dt`. Nothing else changes.
    pub(crate) fn move_all(&mut self, dt: FixedPoint)
        ensures
            final(self).transforms() == moved_transforms(
                old(self).transforms(),
                old(self).velocities(),
                dt,
            ),
            final(self).velocities() == old(self).velocities(),
            final(self).same_but_motion(old(self)),
    {
        move_in(&mut self.inner, dt);
    }

    /// Lets gravity pull for the time `dt` on every entity that has a
    /// velocity and a rigid body. Nothing else changes.
    pub(crate) fn pull_all(&mut self, gravity: FixedPoint, dt: FixedPoint)
        ensures
            final(self).velocities() == pulled_velocities(
                old(self).velocities(),
                old(self).rigid_bodies(),
                gravity,
                dt,
            ),
            final(self).transforms() == old(self).transforms(),
            final(self).same_but_motion(old(self)),
    {
        pull_in(&mut self.inner, gravity, dt);
    }

    /// The entities that have a health component, each with that
    /// component, in the order in which the store walks them.
    pub closed spec fn healths(&self) -> Seq<(hecs::Entity, Health)> {
        health_entries(self.inner)
    }

    /// Every entity that has a health component, with a copy of it. Each
    /// entity listed is alive.
    pub(crate) fn health_list(&self) -> (list: Vec<(hecs::Entity, Health)>)
        ensures
            list@ == self.healths(),
            forall|i: int| 0 <= i < list@.len() ==> self.entities().contains(#[trigger] list@[i].0),
    {
        health_in(&self.inner)
    }

    /// Clear all entities
    pub fn clear(&mut self)
        ensures
            final(self).entities() == Set::<hecs::Entity>::empty(),
            final(self).count() == 0,
            final(self).reservations() == 0,
    {
        clear_store(&mut self.inner);
        self.entity_count = 0;
    }
}

impl Default for World {
    fn default() -> (r: World)
        ensures
            r.entities() == Set::<hecs::Entity>::empty(),
            r.count() == 0,
            r.reservations() == 0,
    {
        World::new()
    }
}

} // verus!
