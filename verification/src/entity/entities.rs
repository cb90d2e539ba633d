//! The metadata of all entities.

use vstd::prelude::*;
use vstd::string::*;

use crate::entity::allocator::{AllocatorState, EntityAllocator};
use crate::entity::location::{EntityLocation, Location, MaybeLocation};
use crate::entity::Entity;
use crate::identifier::{IdentifierMask, HIGH_MASK};

verus! {

broadcast use crate::entity::generation::group_generation;

/// What is known of the entities that use an index.
#[derive(Clone, Copy, Debug)]
pub struct EntityMeta {
    /// The current generation of the index.
    pub generation: u32,
    /// The current location of the entity.
    pub location: EntityLocation,
    /// The generation of the entity that was last stored or freed.
    pub last_generation: u32,
    /// Where the entity with that generation was last spawned or despawned.
    pub spawned_or_despawned_by: MaybeLocation<Option<Location>>,
}

impl EntityMeta {
    /// The metadata of an index that has not been used, where locations are tracked
    /// or not.
    pub open spec fn empty_spec(track_location: bool) -> EntityMeta {
        EntityMeta {
            generation: 1,
            location: EntityLocation::invalid(),
            last_generation: 1,
            spawned_or_despawned_by: if track_location {
                MaybeLocation::On(None)
            } else {
                MaybeLocation::Off
            },
        }
    }

    /// Returns the metadata of an index that has not been used.
    pub fn empty(track_location: bool) -> (meta: EntityMeta)
        ensures
            meta == Self::empty_spec(track_location),
    {
        EntityMeta {
            generation: 1,
            location: EntityLocation::invalid(),
            last_generation: 1,
            spawned_or_despawned_by: if track_location {
                MaybeLocation::On(None)
            } else {
                MaybeLocation::Off
            },
        }
    }

    /// Whether the generation is one that an entity can have.
    pub open spec fn wf(self) -> bool {
        1 <= self.generation <= HIGH_MASK
    }
}

/// The number of indices whose entity is stored somewhere.
pub open spec fn live_count(meta: Seq<EntityMeta>) -> int
    decreases meta.len(),
{
    if meta.len() == 0 {
        0
    } else {
        live_count(meta.drop_last()) + (if meta.last().location.valid() {
            1int
        } else {
            0
        })
    }
}

/// What an [`Entities`] holds.
#[verifier::ext_equal]
pub struct EntitiesState {
    /// The metadata by index.
    pub meta: Seq<EntityMeta>,
    /// The allocator of entities.
    pub allocator: AllocatorState,
    /// Whether source locations are tracked.
    pub track_location: bool,
}

impl EntitiesState {
    /// The state in which there are no entities.
    pub open spec fn new_spec(track_location: bool) -> Self {
        EntitiesState {
            meta: Seq::empty(),
            allocator: AllocatorState::new_spec(),
            track_location,
        }
    }

    /// The metadata of an index: that of an unused index if none is stored.
    pub open spec fn meta_of(self, index: u32) -> EntityMeta {
        if index < self.meta.len() {
            self.meta[index as int]
        } else {
            EntityMeta::empty_spec(self.track_location)
        }
    }

    /// The state in which the metadata of an index is stored.
    pub open spec fn grown(self, index: u32) -> Self {
        if index < self.meta.len() {
            self
        } else {
            EntitiesState {
                meta: Seq::new(
                    (index + 1) as nat,
                    |i: int|
                        if i < self.meta.len() {
                            self.meta[i]
                        } else {
                            EntityMeta::empty_spec(self.track_location)
                        },
                ),
                ..self
            }
        }
    }

    /// The state in which the metadata of an index has been replaced.
    pub open spec fn with_meta(self, index: u32, meta: EntityMeta) -> Self {
        EntitiesState { meta: self.grown(index).meta.update(index as int, meta), ..self }
    }

    /// The metadata of an index after its entity has been freed.
    pub open spec fn freed_meta(self, index: u32, generations: int) -> EntityMeta {
        EntityMeta {
            generation: crate::identifier::generation_after(
                self.meta_of(index).generation as int,
                generations + 1,
            ) as u32,
            location: EntityLocation::invalid(),
            last_generation: self.meta_of(index).generation,
            ..self.meta_of(index)
        }
    }

    /// Whether freeing an entity has an effect: it has the current generation.
    pub open spec fn can_free(self, entity: Entity) -> bool {
        self.meta_of(entity.index_spec()).generation == entity.generation_spec()
    }

    /// The state after an entity has been freed by the thread with the given slot.
    pub open spec fn after_free(self, slot: int, entity: Entity, generations: int) -> Self {
        let index = entity.index_spec();
        if self.can_free(entity) {
            let meta = self.freed_meta(index, generations);
            EntitiesState {
                allocator: self.allocator.after_recycle(
                    slot,
                    entity_with(index, meta.generation),
                ),
                ..self.with_meta(index, meta)
            }
        } else {
            self.grown(index)
        }
    }

    /// The entity that currently has an index, if the index has been allocated.
    pub open spec fn resolved(self, index: u32) -> Option<Entity> {
        if index < self.meta.len() {
            Some(entity_with(index, self.meta[index as int].generation))
        } else if index < self.allocator.next {
            Some(Entity::fresh(index))
        } else {
            None
        }
    }

    /// Whether an entity has the current generation of an allocated index.
    pub open spec fn contains(self, entity: Entity) -> bool {
        match self.resolved(entity.index_spec()) {
            Some(current) => current.generation_spec() == entity.generation_spec(),
            None => false,
        }
    }

    /// The location of an entity that is stored somewhere.
    pub open spec fn location_of(self, entity: Entity) -> Option<EntityLocation> {
        let index = entity.index_spec();
        if index < self.meta.len() && self.meta[index as int].generation
            == entity.generation_spec() && self.meta[index as int].location.valid() {
            Some(self.meta[index as int].location)
        } else {
            None
        }
    }

    /// The metadata of an index after a location has been set.
    pub open spec fn set_meta(self, index: u32, location: EntityLocation) -> EntityMeta {
        EntityMeta {
            location,
            last_generation: if location.valid() {
                self.meta_of(index).generation
            } else {
                self.meta_of(index).last_generation
            },
            ..self.meta_of(index)
        }
    }

    /// The state after a location has been set.
    pub open spec fn after_set(self, index: u32, location: EntityLocation) -> Self {
        self.with_meta(index, self.set_meta(index, location))
    }

    /// Where an entity was last spawned or despawned. It is known as long as no other entity
    /// with its index has been stored or freed.
    pub open spec fn spawned_or_despawned_by(self, entity: Entity) -> MaybeLocation<
        Option<Location>,
    > {
        let index = entity.index_spec();
        if !self.track_location {
            MaybeLocation::Off
        } else if index < self.meta.len() && self.meta[index as int].last_generation
            == entity.generation_spec() {
            self.meta[index as int].spawned_or_despawned_by
        } else {
            MaybeLocation::On(None)
        }
    }

    /// The entities that the live ones among the first `end` indices turn into when
    /// they are freed.
    pub open spec fn freed_entities(self, end: int) -> Seq<Entity>
        decreases end,
    {
        if end <= 0 {
            Seq::empty()
        } else if self.meta[end - 1].location.valid() {
            let index = (end - 1) as u32;
            self.freed_entities(end - 1).push(
                entity_with(index, self.freed_meta(index, 0).generation),
            )
        } else {
            self.freed_entities(end - 1)
        }
    }

    /// The metadata after the live entities among the first `end` indices have been
    /// freed.
    pub open spec fn cleared_meta(self, end: int) -> Seq<EntityMeta> {
        Seq::new(
            self.meta.len(),
            |i: int|
                if i < end && self.meta[i].location.valid() {
                    self.freed_meta(i as u32, 0)
                } else {
                    self.meta[i]
                },
        )
    }

    /// Whether freeing all live entities may take the state to another one.
    pub open spec fn may_clear_to(self, after: Self) -> bool {
        exists|slots: Seq<int>|
            {
                &&& #[trigger] self.allocator.slots_fit(
                    slots,
                    self.freed_entities(self.meta.len() as int),
                )
                &&& after == self.cleared(slots, self.meta.len() as int)
            }
    }

    /// The state after the live entities among the first `end` indices have been
    /// freed, one after another, by threads with the given slots.
    pub open spec fn cleared(self, slots: Seq<int>, end: int) -> Self {
        EntitiesState {
            meta: self.cleared_meta(end),
            allocator: self.allocator.after_recycle_all(slots, self.freed_entities(end)),
            ..self
        }
    }
}

/// The entity with the given index and generation.
pub open(crate) spec fn entity_with(index: u32, generation: u32) -> Entity {
    Entity { generation: crate::entity::generation::Generation::of(generation), index }
}

/// What a reservation of several entities has left to do.
#[verifier::ext_equal]
pub struct ReservationState {
    /// The allocator that the entities come from.
    pub allocator: AllocatorState,
    /// The number of entities left to reserve.
    pub count: int,
    /// The last index of the block that has been allocated, if one has.
    pub last_index: Option<u32>,
}

impl ReservationState {
    /// The entity that the thread with the given slot gets next.
    pub open spec fn entity(self, slot: int) -> Option<Entity> {
        if self.count == 0 {
            None
        } else {
            match self.last_index {
                Some(last) => Some(Entity::fresh((last - (self.count - 1)) as u32)),
                None => Some(self.allocator.reserved(slot)),
            }
        }
    }

    /// The state after the thread with the given slot has got an entity.
    pub open spec fn after(self, slot: int) -> Self {
        if self.count == 0 {
            self
        } else {
            match self.last_index {
                Some(last) => ReservationState { count: self.count - 1, ..self },
                None => match self.allocator.at_hand(slot) {
                    Some(_) => ReservationState {
                        allocator: self.allocator.after_take(slot),
                        count: self.count - 1,
                        last_index: None,
                    },
                    None => ReservationState {
                        allocator: self.allocator.after_take(
                            slot,
                        ).after_reserve_batch(slot, self.count),
                        count: self.count - 1,
                        last_index: Some((self.allocator.next + self.count - 1) as u32),
                    },
                },
            }
        }
    }

    /// Whether the entities left to reserve fit in the block that was allocated for
    /// them.
    pub open spec fn wf(self) -> bool {
        &&& 0 <= self.count
        &&& self.last_index matches Some(last) ==> self.count <= last + 1
    }
}

/// Reserves a number of entities, one at a time.
pub struct ReserveEntitiesIterator<'a> {
    /// The allocator that the entities come from.
    pub allocator: &'a mut EntityAllocator,
    /// The number of entities left to reserve.
    pub count: u32,
    /// If there was nothing left to recycle and a block of indices was allocated,
    /// the last index of the block. The next index follows from `count`.
    pub last_index: Option<u32>,
}

impl<'a> ReserveEntitiesIterator<'a> {
    /// What is left to do.
    pub open spec fn state(self) -> ReservationState {
        ReservationState {
            allocator: self.allocator@,
            count: self.count as int,
            last_index: self.last_index,
        }
    }

    /// Whether the allocator and the block are valid.
    pub open spec fn wf(self) -> bool {
        self.allocator.wf() && self.state().wf()
    }

    /// Reserves the next entity, or returns `None` when all have been reserved.
    ///
    /// Recycled entities come first. When there are none left, one block of indices
    /// is allocated for all that remain.
    pub fn next(&mut self) -> (entity: Option<Entity>)
        requires
            old(self).wf(),
            old(self).state().last_index is None ==> forall|slot: int|
                old(self).state().allocator.has_slot(slot)
                    && #[trigger] old(self).state().allocator.at_hand(slot) is None
                    ==> old(self).state().allocator.has_room(old(self).state().count),
        ensures
            final(self).wf(),
            *final(final(self).allocator) == *final(old(self).allocator),
            exists|slot: int|
                {
                    &&& #[trigger] old(self).state().allocator.has_slot(slot)
                    &&& entity == old(self).state().entity(slot)
                    &&& final(self).state() == old(self).state().after(slot)
                },
    {
        if self.count == 0 {
            assert(old(self).state().allocator.has_slot(0));
            return None;
        }
        self.count = self.count - 1;
        match self.last_index {
            Some(last) => {
                assert(old(self).state().allocator.has_slot(0));
                Some(Entity::from_raw(last - self.count))
            },
            None => {
                let slot: usize = self.allocator.local();
                proof {
                    crate::entity::allocator::same_slot(old(self).allocator@, slot as int);
                    assert(old(self).state().allocator.has_slot(slot as int));
                }
                // Prefer recycling to allocating.
                if let Some(entity) = self.allocator.take_at(slot) {
                    return Some(entity);
                }
                let first: u32 = self.allocator.reserve_batch_at(slot, self.count + 1);
                self.last_index = Some(first + self.count);
                Some(Entity::from_raw(first))
            },
        }
    }

    /// Returns the number of entities left to reserve.
    pub fn len(&self) -> (len: usize)
        ensures
            len == self.state().count,
    {
        self.count as usize
    }
}

/// The metadata of all entities of a world: their generations, whether they are
/// alive, and where they are stored.
pub struct Entities {
    pub(crate) meta: Vec<EntityMeta>,
    /// The number of live entities, that is, of those with a valid location.
    pub(crate) len: u32,
    pub(crate) allocator: EntityAllocator,
    pub(crate) track_location: bool,
}

impl View for Entities {
    type V = EntitiesState;

    open(crate) spec fn view(&self) -> EntitiesState {
        EntitiesState {
            meta: self.meta@,
            allocator: self.allocator@,
            track_location: self.track_location,
        }
    }
}

impl Entities {
    /// Whether the live entities are counted and all generations are valid.
    pub open(crate) spec fn wf(self) -> bool {
        &&& self.allocator.wf()
        &&& self.len == live_count(self.meta@)
        &&& self.meta@.len() <= 0x1_0000_0000
        &&& forall|i: int| 0 <= i < self.meta@.len() ==> (#[trigger] self.meta@[i]).wf()
        &&& forall|i: int|
            0 <= i < self.meta@.len() ==> ((#[trigger] self.meta@[i]).spawned_or_despawned_by is On
                <==> self.track_location)
    }

    /// Creates metadata without entities that does not track source locations.
    pub fn new() -> (entities: Self)
        ensures
            entities.wf(),
            entities@ == EntitiesState::new_spec(false),
    {
        Entities {
            meta: Vec::new(),
            len: 0,
            allocator: EntityAllocator::new(),
            track_location: false,
        }
    }

    /// Creates metadata without entities that tracks source locations.
    pub fn with_location_tracking() -> (entities: Self)
        ensures
            entities.wf(),
            entities@ == EntitiesState::new_spec(true),
    {
        Entities {
            meta: Vec::new(),
            len: 0,
            allocator: EntityAllocator::new(),
            track_location: true,
        }
    }

    /// Reserves a number of entities, one at a time.
    pub fn reserve_entities<'a>(&'a mut self, count: u32) -> (reservation: ReserveEntitiesIterator<
        'a,
    >)
        requires
            old(self).wf(),
        ensures
            reservation.wf(),
            reservation.state() == (ReservationState {
                allocator: old(self)@.allocator,
                count: count as int,
                last_index: None,
            }),
            (*final(reservation.allocator)).wf() ==> final(self).wf(),
            final(self)@ == (EntitiesState {
                allocator: (*final(reservation.allocator))@,
                ..old(self)@
            }),
    {
        ReserveEntitiesIterator { allocator: &mut self.allocator, count, last_index: None }
    }

    /// Reserves one entity.
    pub fn reserve_entity(&mut self) -> (entity: Entity)
        requires
            old(self).wf(),
            forall|slot: int|
                old(self)@.allocator.has_slot(slot) && #[trigger] old(self)@.allocator.at_hand(
                    slot,
                ) is None ==> old(self)@.allocator.has_room(1),
        ensures
            final(self).wf(),
            exists|slot: int|
                {
                    &&& #[trigger] old(self)@.allocator.has_slot(slot)
                    &&& entity == old(self)@.allocator.reserved(slot)
                    &&& final(self)@ == (EntitiesState {
                        allocator: old(self)@.allocator.after_reserve(slot),
                        ..old(self)@
                    })
                },
    {
        let entity = self.allocator.reserve();
        proof {
            let slot = choose|slot: int|
                {
                    &&& #[trigger] old(self)@.allocator.has_slot(slot)
                    &&& entity == old(self)@.allocator.reserved(slot)
                    &&& self.allocator@ == old(self)@.allocator.after_reserve(slot)
                };
            assert(old(self)@.allocator.has_slot(slot));
        }
        entity
    }

    /// Allocates one entity.
    pub fn alloc_entity(&mut self) -> (entity: Entity)
        requires
            old(self).wf(),
            forall|slot: int|
                old(self)@.allocator.has_slot(slot) && #[trigger] old(self)@.allocator.at_hand(
                    slot,
                ) is None ==> old(self)@.allocator.has_room(1),
        ensures
            final(self).wf(),
            exists|slot: int|
                {
                    &&& #[trigger] old(self)@.allocator.has_slot(slot)
                    &&& entity == old(self)@.allocator.reserved(slot)
                    &&& final(self)@ == (EntitiesState {
                        allocator: old(self)@.allocator.after_reserve(slot),
                        ..old(self)@
                    })
                },
    {
        self.reserve_entity()
    }

    /// Destroys an entity, so that its index can be reused with the next generation.
    ///
    /// Returns the location that the entity had, or `None` if it does not have the
    /// current generation of its index.
    pub fn free(&mut self, entity: Entity) -> (location: Option<EntityLocation>)
        requires
            old(self).wf(),
            entity.index_spec() < usize::MAX,
        ensures
            final(self).wf(),
            location == (if old(self)@.can_free(entity) {
                Some(old(self)@.meta_of(entity.index_spec()).location)
            } else {
                None
            }),
            exists|slot: int|
                {
                    &&& #[trigger] old(self)@.allocator.has_slot(slot)
                    &&& final(self)@ == old(self)@.after_free(slot, entity, 0)
                },
    {
        self.free_with_reserve_generations(entity, 0)
    }

    /// Destroys an entity and skips a number of generations of its index: the next
    /// entity with the index has a generation that is `generations + 1` after that
    /// of the destroyed one.
    ///
    /// Returns the location that the entity had, or `None` if it does not have the
    /// current generation of its index.
    pub fn free_with_reserve_generations(&mut self, entity: Entity, generations: u32) -> (location:
        Option<EntityLocation>)
        requires
            old(self).wf(),
            entity.index_spec() < usize::MAX,
            old(self)@.can_free(entity) ==> generations < u32::MAX,
        ensures
            final(self).wf(),
            location == (if old(self)@.can_free(entity) {
                Some(old(self)@.meta_of(entity.index_spec()).location)
            } else {
                None
            }),
            exists|slot: int|
                {
                    &&& #[trigger] old(self)@.allocator.has_slot(slot)
                    &&& final(self)@ == old(self)@.after_free(slot, entity, generations as int)
                },
    {
        proof {
            use_type_invariant(&entity);
        }
        self.grow_meta(entity.index);
        let index: usize = entity.index as usize;
        assert(self.meta@[index as int] == old(self)@.meta_of(entity.index));
        let mut meta = self.meta[index];
        if meta.generation != entity.generation.get() {
            assert(old(self)@.allocator.has_slot(0));
            return None;
        }
        meta.last_generation = meta.generation;
        meta.generation = IdentifierMask::inc_masked_high_by(meta.generation, generations + 1);
        let location = meta.location;
        meta.location = EntityLocation::invalid();
        let ghost before = self.meta@;
        self.meta.set(index, meta);
        proof {
            live_count_update(before, index as int, meta);
        }
        if location.is_valid() {
            proof {
                live_count_bounds(self.meta@);
            }
            self.len = self.len - 1;
        }
        self.allocator.recycle(Entity::from_raw_and_generation(entity.index, meta.generation));
        proof {
            let recycled = entity_with(entity.index, meta.generation);
            let slot = choose|slot: int|
                {
                    &&& #[trigger] old(self)@.allocator.has_slot(slot)
                    &&& self.allocator@ == old(self)@.allocator.after_recycle(slot, recycled)
                };
            assert(old(self)@.allocator.has_slot(slot));
            assert(self@ =~= old(self)@.after_free(slot, entity, generations as int));
        }
        Some(location)
    }

    /// Makes room for the metadata of `additional` more entities, less those that
    /// can be recycled. How much memory is set aside is no part of the state.
    pub fn reserve(&mut self, additional: u32)
        requires
            old(self).wf(),
        ensures
            final(self).wf(),
            final(self)@ == old(self)@,
    {
        let room: usize = self.missing_room(additional);
        if room > 0 {
            self.meta.reserve(room);
        }
    }

    /// Returns for how many of `additional` more entities there is none to recycle.
    fn missing_room(&self, additional: u32) -> (room: usize)
        requires
            self.wf(),
        ensures
            room == (if additional > self@.allocator.recycled_entities().len() {
                additional - self@.allocator.recycled_entities().len()
            } else {
                0
            }),
    {
        let recycled_count: usize = self.allocator.recycled_count();
        if additional as usize > recycled_count {
            additional as usize - recycled_count
        } else {
            0
        }
    }

    /// Returns whether an entity has the current generation of an index that has been
    /// allocated. It does not if it has been freed. An entity that waits to be handed out
    /// does.
    pub fn contains(&self, entity: Entity) -> (contains: bool)
        requires
            self.wf(),
        ensures
            contains == self@.contains(entity),
    {
        match self.resolve_from_id(entity.index()) {
            Some(current) => current.generation() == entity.generation(),
            None => false,
        }
    }

    /// Frees all live entities.
    pub fn clear(&mut self)
        requires
            old(self).wf(),
        ensures
            final(self).wf(),
            final(self)@.live() == 0,
            old(self)@.may_clear_to(final(self)@),
    {
        let ghost mut slots: Seq<int> = Seq::empty();
        let mut index: usize = 0;
        assert(self@ =~= old(self)@.cleared(slots, 0));
        while index < self.meta.len()
            invariant
                old(self).wf(),
                self.wf(),
                index <= self.meta@.len(),
                old(self)@.allocator.slots_fit(slots, old(self)@.freed_entities(index as int)),
                self@ == old(self)@.cleared(slots, index as int),
            decreases self.meta@.len() - index,
        {
            let ghost before = self@;
            let ghost freed = old(self)@.freed_entities(index as int);
            let meta = self.meta[index];
            assert(meta == old(self).meta@[index as int]);
            if meta.location.is_valid() {
                assert(self.meta@[index as int].wf());
                let entity = Entity::from_raw_and_generation(index as u32, meta.generation);
                self.free(entity);
                proof {
                    let slot = choose|slot: int|
                        {
                            &&& #[trigger] before.allocator.has_slot(slot)
                            &&& self@ == before.after_free(slot, entity, 0)
                        };
                    let recycled = entity_with(
                        index as u32,
                        old(self)@.freed_meta(index as u32, 0).generation,
                    );
                    old(self)@.allocator.slots_fit_push(slots, freed, slot, recycled);
                    assert(before.freed_meta(index as u32, 0) == old(self)@.freed_meta(
                        index as u32,
                        0,
                    ));
                    slots = slots.push(slot);
                }
                assert(self@.meta =~= old(self)@.cleared_meta(index + 1));
                assert(self@ =~= old(self)@.cleared(slots, index + 1));
            } else {
                assert(old(self)@.cleared_meta(index as int) =~= old(self)@.cleared_meta(
                    index + 1,
                ));
            }
            index = index + 1;
        }
        proof {
            all_invalid_is_empty(self.meta@);
        }
    }

    /// Returns the location of an entity that is alive and stored somewhere.
    pub fn get(&self, entity: Entity) -> (location: Option<EntityLocation>)
        ensures
            location == self@.location_of(entity),
    {
        let index: usize = entity.index as usize;
        if index < self.meta.len() {
            let meta = self.meta[index];
            if meta.generation != entity.generation.get() || !meta.location.is_valid() {
                return None;
            }
            Some(meta.location)
        } else {
            None
        }
    }

    /// Sets the location of the entity with an index.
    ///
    /// The location is to be the one where the entity is stored.
    pub fn set(&mut self, index: u32, location: EntityLocation)
        requires
            old(self).wf(),
            index < usize::MAX,
            old(self)@.live() < u32::MAX || old(self)@.meta_of(index).location.valid(),
        ensures
            final(self).wf(),
            final(self)@ == old(self)@.after_set(index, location),
    {
        self.grow_meta(index);
        assert(self.meta@[index as int] == old(self)@.meta_of(index));
        let mut meta = self.meta[index as usize];
        let ghost before = self.meta@;
        if !meta.location.is_valid() {
            self.len = self.len + 1;
        }
        if location.is_valid() {
            meta.last_generation = meta.generation;
        } else {
            proof {
                live_count_update(before, index as int, EntityMeta { location, ..meta });
                live_count_bounds(before.update(index as int, EntityMeta { location, ..meta }));
            }
            self.len = self.len - 1;
        }
        meta.location = location;
        self.meta.set(index as usize, meta);
        proof {
            live_count_update(before, index as int, meta);
        }
        assert(self@ =~= old(self)@.after_set(index, location));
    }

    /// Extends the metadata so that it covers an index.
    fn grow_meta(&mut self, index: u32)
        requires
            old(self).wf(),
            index < usize::MAX,
        ensures
            final(self).wf(),
            final(self)@ == old(self)@.grown(index),
            final(self)@.live() == old(self)@.live(),
            final(self).allocator == old(self).allocator,
            index < final(self).meta@.len(),
    {
        let empty = EntityMeta::empty(self.track_location);
        while self.meta.len() <= index as usize
            invariant
                self.wf(),
                index < usize::MAX,
                old(self).meta@.len() <= self.meta@.len(),
                old(self).meta@.len() == self.meta@.len() || self.meta@.len() <= index + 1,
                self.allocator == old(self).allocator,
                self.track_location == old(self).track_location,
                self.len == old(self).len,
                empty == EntityMeta::empty_spec(self.track_location),
                forall|i: int|
                    0 <= i < self.meta@.len() ==> self.meta@[i] == (if i < old(self).meta@.len() {
                        old(self).meta@[i]
                    } else {
                        empty
                    }),
            decreases index + 1 - self.meta@.len(),
        {
            let ghost before = self.meta@;
            self.meta.push(empty);
            assert(self.meta@.drop_last() =~= before);
        }
        assert(self@ =~= old(self)@.grown(index));
    }

    /// Returns the entity that currently has an index, or `None` if the index has
    /// not been allocated. The entity may be one that is free.
    pub fn resolve_from_id(&self, index: u32) -> (entity: Option<Entity>)
        requires
            self.wf(),
        ensures
            entity == self@.resolved(index),
    {
        if (index as usize) < self.meta.len() {
            let meta = self.meta[index as usize];
            assert(self.meta@[index as int].wf());
            Some(Entity::from_raw_and_generation(index, meta.generation))
        } else if index < self.allocator.next_index() {
            Some(Entity::from_raw(index))
        } else {
            None
        }
    }

    /// Returns whether there are indices left to allocate `count` of them, whichever thread
    /// asks.
    pub fn can_reserve(&self, count: u32) -> (can: bool)
        ensures
            can == self@.allocator.has_room(count as int),
    {
        self.allocator.can_reserve(count)
    }

    /// Returns the number of indices that have ever been handed out, those of freed
    /// entities included.
    pub fn total_count(&self) -> (count: u32)
        requires
            self.wf(),
        ensures
            count == self@.allocator.handed_out_count(),
    {
        self.allocator.total_count()
    }

    /// Returns the number of live entities.
    pub fn len(&self) -> (len: u32)
        requires
            self.wf(),
        ensures
            len == self@.live(),
    {
        self.len
    }

    /// Returns whether there is no live entity.
    pub fn is_empty(&self) -> (empty: bool)
        requires
            self.wf(),
        ensures
            empty <==> self@.live() == 0,
    {
        self.len == 0
    }

    /// Records where the entity with an index was last spawned or despawned.
    pub fn set_spawned_or_despawned_by(&mut self, index: u32, caller: MaybeLocation<Location>)
        requires
            old(self).wf(),
            caller is On <==> old(self)@.track_location,
            caller is On ==> index < old(self)@.meta.len(),
        ensures
            final(self).wf(),
            caller matches MaybeLocation::On(caller) ==> final(self)@ == old(self)@.with_meta(
                index,
                EntityMeta {
                    spawned_or_despawned_by: MaybeLocation::On(Some(caller)),
                    ..old(self)@.meta_of(index)
                },
            ),
            caller is Off ==> final(self)@ == old(self)@,
    {
        if let MaybeLocation::On(caller) = caller {
            let mut meta = self.meta[index as usize];
            let ghost before = self.meta@;
            meta.spawned_or_despawned_by = MaybeLocation::On(Some(caller));
            self.meta.set(index as usize, meta);
            proof {
                live_count_update(before, index as int, meta);
            }
            assert(self@.meta =~= old(self)@.with_meta(index, meta).meta);
        }
    }

    /// Returns where an entity was last spawned or despawned, or `None` if its index
    /// has been reused by another entity or the entity has never existed.
    pub fn entity_get_spawned_or_despawned_by(&self, entity: Entity) -> (caller: MaybeLocation<
        Option<Location>,
    >)
        requires
            self.wf(),
        ensures
            caller == self@.spawned_or_despawned_by(entity),
    {
        proof {
            use_type_invariant(&entity);
        }
        if !self.track_location {
            return MaybeLocation::Off;
        }
        let index: usize = entity.index as usize;
        if index < self.meta.len() {
            let meta = self.meta[index];
            // The generation has been incremented if the entity was despawned.
            if meta.last_generation == entity.generation.get() {
                return meta.spawned_or_despawned_by;
            }
        }
        MaybeLocation::On(None)
    }

    /// Tells why an entity does not exist, as far as it is known.
    pub fn entity_does_not_exist_error_details(&self, entity: Entity) -> (details:
        EntityDoesNotExistDetails)
        requires
            self.wf(),
        ensures
            details.location == self@.spawned_or_despawned_by(entity),
    {
        EntityDoesNotExistDetails { location: self.entity_get_spawned_or_despawned_by(entity) }
    }
}

impl EntitiesState {
    /// The number of live entities.
    pub open spec fn live(self) -> int {
        live_count(self.meta)
    }
}

/// Replacing the metadata of one index changes the number of live entities by that
/// index alone.
proof fn live_count_update(meta: Seq<EntityMeta>, k: int, new: EntityMeta)
    requires
        0 <= k < meta.len(),
    ensures
        live_count(meta.update(k, new)) == live_count(meta) - (if meta[k].location.valid() {
            1int
        } else {
            0
        }) + (if new.location.valid() {
            1int
        } else {
            0
        }),
    decreases meta.len(),
{
    if k == meta.len() - 1 {
        assert(meta.update(k, new).drop_last() =~= meta.drop_last());
    } else {
        assert(meta.update(k, new).drop_last() =~= meta.drop_last().update(k, new));
        live_count_update(meta.drop_last(), k, new);
    }
}

pub(crate) proof fn all_invalid_is_empty(meta: Seq<EntityMeta>)
    requires
        forall|i: int| 0 <= i < meta.len() ==> !(#[trigger] meta[i]).location.valid(),
    ensures
        live_count(meta) == 0,
    decreases meta.len(),
{
    if meta.len() > 0 {
        assert(!meta[meta.len() - 1].location.valid());
        all_invalid_is_empty(meta.drop_last());
    }
}

/// If the indices of all live entities are below a bound, and one index below the bound is
/// not that of a live entity, there are fewer live entities than the bound says.
pub(crate) proof fn live_are_few(meta: Seq<EntityMeta>, bound: int, free: int)
    requires
        forall|i: int| 0 <= i < meta.len() && (#[trigger] meta[i]).location.valid() ==> i < bound,
        0 <= free < bound,
        free < meta.len() ==> !meta[free].location.valid(),
    ensures
        live_count(meta) < bound,
{
    live_in_prefix(meta, bound, free);
}

proof fn live_in_prefix(meta: Seq<EntityMeta>, bound: int, free: int)
    requires
        forall|i: int| 0 <= i < meta.len() && (#[trigger] meta[i]).location.valid() ==> i < bound,
        0 <= free < bound,
        free < meta.len() ==> !meta[free].location.valid(),
    ensures
        live_count(meta) <= (if meta.len() < bound {
            meta.len() as int
        } else {
            bound
        }) - (if free < meta.len() {
            1int
        } else {
            0
        }),
    decreases meta.len(),
{
    if meta.len() > 0 {
        let rest = meta.drop_last();
        assert forall|i: int| 0 <= i < rest.len() && (
        #[trigger] rest[i]).location.valid() implies i < bound by {
            assert(meta[i].location.valid());
        }
        live_in_prefix(rest, bound, free);
        let last = meta.len() - 1;
        assert(meta[last].location.valid() ==> last < bound);
    }
}

/// Setting the location of an entity that is not stored adds one live entity.
pub(crate) proof fn live_after_set(state: EntitiesState, index: u32, location: EntityLocation)
    requires
        !state.meta_of(index).location.valid(),
        location.valid(),
    ensures
        state.after_set(index, location).live() == state.live() + 1,
{
    let grown = state.grown(index).meta;
    live_after_growth(state, index);
    live_count_update(
        grown,
        index as int,
        state.set_meta(index, location),
    );
}

/// Setting the location of an entity that is stored to another one keeps the number of live
/// entities, and setting it to none takes one away.
pub(crate) proof fn live_after_reset(state: EntitiesState, index: u32, location: EntityLocation)
    requires
        index < state.meta.len(),
        state.meta[index as int].location.valid(),
    ensures
        state.after_set(index, location).live() == state.live() - (if location.valid() {
            0int
        } else {
            1
        }),
{
    live_count_update(
        state.meta,
        index as int,
        state.set_meta(index, location),
    );
}

/// Growing the metadata adds no live entity.
pub(crate) proof fn live_after_growth(state: EntitiesState, index: u32)
    ensures
        live_count(state.grown(index).meta) == live_count(state.meta),
    decreases index,
{
    if index >= state.meta.len() {
        let grown = state.grown(index).meta;
        if index == state.meta.len() {
            assert(grown.drop_last() =~= state.meta);
        } else {
            let before = state.grown((index - 1) as u32).meta;
            assert(grown.drop_last() =~= before);
            live_after_growth(state, (index - 1) as u32);
        }
    }
}

proof fn live_count_bounds(meta: Seq<EntityMeta>)
    ensures
        0 <= live_count(meta) <= meta.len(),
    decreases meta.len(),
{
    if meta.len() > 0 {
        live_count_bounds(meta.drop_last());
    }
}

/// An error that occurs when an entity does not exist.
#[derive(Clone, Copy, Debug, PartialEq, Eq)]
pub struct EntityDoesNotExistError {
    /// The entity.
    pub entity: Entity,
    /// Why the entity does not exist, if known.
    pub details: EntityDoesNotExistDetails,
}

impl EntityDoesNotExistError {
    /// Tells that an entity does not exist, and why.
    pub fn new(entity: Entity, entities: &Entities) -> (error: Self)
        requires
            entities.wf(),
        ensures
            error.entity == entity,
            error.details.location == entities@.spawned_or_despawned_by(entity),
    {
        EntityDoesNotExistError {
            entity,
            details: entities.entity_does_not_exist_error_details(entity),
        }
    }

    /// Returns the message of this error.
    pub fn to_text(&self) -> (text: String)
        ensures
            text@ == "The entity with ID "@ + self.entity.display_spec() + " "@
                + self.details.text_spec(),
    {
        let mut text = String::from_str("The entity with ID ");
        text.append(self.entity.to_display_text().as_str());
        text.append(" ");
        text.append(self.details.to_text().as_str());
        text
    }
}

/// Why an entity does not exist.
#[derive(Clone, Copy, Debug, PartialEq, Eq, Hash, PartialOrd, Ord)]
pub struct EntityDoesNotExistDetails {
    /// Where the entity was despawned, if known.
    pub location: MaybeLocation<Option<Location>>,
}

impl EntityDoesNotExistDetails {
    /// The text form of these details.
    pub open spec fn text_spec(self) -> Seq<char> {
        match self.location {
            MaybeLocation::On(Some(location)) => "was despawned by "@ + location.text_spec(),
            MaybeLocation::On(
                None,
            ) => "does not exist (index has been reused or was never spawned)"@,
            MaybeLocation::Off =>
                "does not exist (enable `track_location` feature for more details)"@,
        }
    }

    /// Returns the text form of these details.
    pub fn to_text(&self) -> (text: String)
        ensures
            text@ == self.text_spec(),
    {
        match self.location.into_option() {
            Some(Some(location)) => {
                let mut text = String::from_str("was despawned by ");
                text.append(location.to_text().as_str());
                text
            },
            Some(None) => String::from_str(
                "does not exist (index has been reused or was never spawned)",
            ),
            None => String::from_str(
                "does not exist (enable `track_location` feature for more details)",
            ),
        }
    }
}

/// The text about an entity that does not exist tells where it was despawned if that is known, and
/// otherwise why it is not.
pub proof fn details_tell_what_is_known(details: EntityDoesNotExistDetails)
    ensures
        details.location matches MaybeLocation::On(Some(location)) ==> {
            let start = "was despawned by "@;
            &&& details.text_spec().take(start.len() as int) == start
            &&& details.text_spec().skip(start.len() as int) == location.text_spec()
        },
        details.location == MaybeLocation::On(None::<Location>) ==> details.text_spec()
            == "does not exist (index has been reused or was never spawned)"@,
        details.location is Off ==> details.text_spec()
            == "does not exist (enable `track_location` feature for more details)"@,
{
    if let MaybeLocation::On(Some(location)) = details.location {
        let start = "was despawned by "@;
        assert(details.text_spec().take(start.len() as int) =~= start);
        assert(details.text_spec().skip(start.len() as int) =~= location.text_spec());
    }
}

} // verus!
