//! What holds of entities whatever is done with them later on.

use vstd::prelude::*;

use crate::entity::entities::EntitiesState;
use crate::entity::location::{EntityLocation, Location};
use crate::entity::Entity;
use crate::identifier::HIGH_MASK;

verus! {

broadcast use crate::entity::generation::group_generation;

/// Something that is done with entities, by threads with the given slots.
pub enum EntityStep {
    /// An entity is reserved.
    Reserve(int),
    /// Nothing is at hand, and a block of entities is reserved.
    ReserveBlock(int, int),
    /// An entity is freed, and a number of generations is skipped.
    Free(int, Entity, int),
    /// The location of an index is set.
    Place(u32, EntityLocation),
    /// It is recorded where the entity with an index was spawned or despawned.
    Record(u32, Location),
    /// All live entities are freed.
    Clear(Seq<int>),
}

impl EntitiesState {
    /// Whether the metadata and the allocator agree, and the indices of live entities have been
    /// handed out.
    pub open spec fn steady(self) -> bool {
        &&& self.consistent()
        &&& self.allocator.distinct()
        &&& 0 <= self.allocator.next <= u32::MAX
        &&& self.meta.len() <= 0x1_0000_0000
        &&& forall|i: int| 0 <= i < self.meta.len() ==> (#[trigger] self.meta[i]).wf()
        &&& forall|index: u32|
            (#[trigger] self.meta_of(index)).location.valid() ==> self.allocator.in_use(index)
    }

    /// Whether something can be done: there is room, the index has been handed out, and no
    /// generation starts again.
    pub open spec fn allows(self, step: EntityStep) -> bool {
        match step {
            EntityStep::Reserve(slot) => {
                &&& self.allocator.has_slot(slot)
                &&& self.allocator.at_hand(slot) is None ==> self.allocator.has_room(1)
            },
            EntityStep::ReserveBlock(slot, count) => {
                &&& self.allocator.has_slot(slot)
                &&& self.allocator.at_hand(slot) is None
                &&& 0 <= count
                &&& self.allocator.has_room(count)
            },
            EntityStep::Free(slot, entity, generations) => {
                &&& self.allocator.has_slot(slot)
                &&& entity.wf()
                &&& self.allocator.in_use(entity.index_spec())
                &&& 0 <= generations < u32::MAX
                &&& entity.generation_spec() + generations + 1 <= HIGH_MASK
            },
            EntityStep::Place(index, location) => self.allocator.in_use(index),
            EntityStep::Record(index, caller) => index < self.meta.len(),
            EntityStep::Clear(slots) => {
                &&& self.allocator.slots_fit(slots, self.freed_entities(self.meta.len() as int))
                &&& forall|i: int|
                    0 <= i < self.meta.len() && (#[trigger] self.meta[i]).location.valid()
                        ==> self.meta[i].generation < HIGH_MASK
            },
        }
    }

    /// The state after something has been done.
    pub open spec fn after_step(self, step: EntityStep) -> Self {
        match step {
            EntityStep::Reserve(slot) => EntitiesState {
                allocator: self.allocator.after_reserve(slot),
                ..self
            },
            EntityStep::ReserveBlock(slot, count) => EntitiesState {
                allocator: self.allocator.after_take(slot).after_reserve_batch(slot, count),
                ..self
            },
            EntityStep::Free(slot, entity, generations) => self.after_free(
                slot,
                entity,
                generations,
            ),
            EntityStep::Place(index, location) => self.after_set(index, location),
            EntityStep::Record(index, caller) => crate::entity::laws::with_place(
                self,
                index,
                caller,
            ),
            EntityStep::Clear(slots) => self.cleared(slots, self.meta.len() as int),
        }
    }

    /// The state after several things have been done, one after another.
    pub open spec fn after_steps(self, steps: Seq<EntityStep>) -> Self
        decreases steps.len(),
    {
        if steps.len() == 0 {
            self
        } else {
            self.after_steps(steps.drop_last()).after_step(steps.last())
        }
    }

    /// Whether several things can be done, one after another.
    pub open spec fn allows_all(self, steps: Seq<EntityStep>) -> bool
        decreases steps.len(),
    {
        steps.len() > 0 ==> self.allows_all(steps.drop_last()) && self.after_steps(
            steps.drop_last(),
        ).allows(steps.last())
    }

    /// Whether the index of an entity has a later generation.
    pub open spec fn is_past(self, entity: Entity) -> bool {
        entity.wf() && entity.generation_spec() < self.meta_of(entity.index_spec()).generation
    }
}

proof fn reserve_is_steady(state: EntitiesState, slot: int)
    requires
        state.steady(),
        state.allows(EntityStep::Reserve(slot)),
    ensures
        state.after_step(EntityStep::Reserve(slot)).steady(),
{
    let after = state.after_step(EntityStep::Reserve(slot));
    crate::entity::laws::reserved_entity_is_contained(state, slot);
    crate::entity::allocator::reserved_entity_is_unique(state.allocator, slot);
    assert forall|index: u32|
        (#[trigger] after.meta_of(index)).location.valid() implies after.allocator.in_use(
        index,
    ) by {
        assert(state.meta_of(index) == after.meta_of(index));
        assert(state.allocator.in_use(index));
    }
}

proof fn block_is_steady(state: EntitiesState, slot: int, count: int)
    requires
        state.steady(),
        state.allows(EntityStep::ReserveBlock(slot, count)),
    ensures
        state.after_step(EntityStep::ReserveBlock(slot, count)).steady(),
{
    let after = state.after_step(EntityStep::ReserveBlock(slot, count));
    let middle = state.allocator.after_take(slot);
    crate::entity::laws::reserved_block_is_consistent(state, slot, count);
    crate::entity::laws::nothing_recycled(state.allocator, slot);
    crate::entity::allocator::reserved_batch_is_unique(middle, slot, count);
    assert forall|index: u32|
        (#[trigger] after.meta_of(index)).location.valid() implies after.allocator.in_use(
        index,
    ) by {
        assert(state.meta_of(index) == after.meta_of(index));
        assert(state.allocator.in_use(index));
        assert(middle.in_use(index));
    }
}

proof fn free_is_steady(state: EntitiesState, slot: int, entity: Entity, generations: int)
    requires
        state.steady(),
        state.allows(EntityStep::Free(slot, entity, generations)),
    ensures
        state.after_free(slot, entity, generations).steady(),
{
    let after = state.after_free(slot, entity, generations);
    let index = entity.index_spec();
    crate::entity::laws::free_keeps_consistency(state, slot, entity, generations);
    if state.can_free(entity) {
        let meta = state.freed_meta(index, generations);
        let recycled = crate::entity::entities::entity_with(index, meta.generation);
        crate::entity::allocator::recycled_entity_is_free(state.allocator, slot, recycled);
    }
    assert forall|i: u32| (#[trigger] after.meta_of(i)).location.valid() implies (
    after.allocator.in_use(i)) by {
        assert(state.meta_of(i).location.valid());
        assert(state.allocator.in_use(i));
    }
    assert forall|i: int| 0 <= i < after.meta.len() implies (#[trigger] after.meta[i]).wf() by {
        if i < state.meta.len() {
            assert(state.meta[i].wf());
        }
    }
}

proof fn set_is_steady(state: EntitiesState, index: u32, location: EntityLocation)
    requires
        state.steady(),
        state.allocator.in_use(index),
    ensures
        state.after_set(index, location).steady(),
{
    let after = state.after_set(index, location);
    crate::entity::laws::set_keeps_consistency(state, index, location);
    assert forall|i: u32| (#[trigger] after.meta_of(i)).location.valid() implies (
    after.allocator.in_use(i)) by {
        if i != index {
            assert(state.meta_of(i).location.valid());
        }
    }
    assert forall|i: int| 0 <= i < after.meta.len() implies (#[trigger] after.meta[i]).wf() by {
        if i < state.meta.len() {
            assert(state.meta[i].wf());
        }
    }
}

proof fn record_is_steady(state: EntitiesState, index: u32, caller: Location)
    requires
        state.steady(),
        index < state.meta.len(),
    ensures
        crate::entity::laws::with_place(state, index, caller).steady(),
{
    let after = crate::entity::laws::with_place(state, index, caller);
    assert forall|i: u32|
        (#[trigger] after.meta_of(i)).generation == state.meta_of(i).generation && after.meta_of(
            i,
        ).location == state.meta_of(i).location by {}
    assert forall|i: int| 0 <= i < after.meta.len() implies (#[trigger] after.meta[i]).wf() by {
        assert(state.meta[i].wf());
    }
    assert forall|e: Entity| #[trigger] after.allocator.entity_waits(e) implies {
        &&& e.index_spec() < after.allocator.next
        &&& after.meta_of(e.index_spec()).generation == e.generation_spec()
        &&& !after.meta_of(e.index_spec()).location.valid()
    } by {
        assert(state.allocator.entity_waits(e));
    }
    assert forall|i: u32| i >= after.allocator.next implies (#[trigger] after.meta_of(
        i,
    )).generation == 1 && !after.meta_of(i).location.valid() by {
        assert(state.meta_of(i).generation == 1);
    }
    assert forall|i: u32| (#[trigger] after.meta_of(i)).location.valid() implies (
    after.allocator.in_use(i)) by {
        assert(state.meta_of(i).location.valid());
    }
}

proof fn clear_is_steady(state: EntitiesState, slots: Seq<int>)
    requires
        state.steady(),
        state.allows(EntityStep::Clear(slots)),
    ensures
        state.after_step(EntityStep::Clear(slots)).steady(),
{
    let end = state.meta.len() as int;
    let after = state.after_step(EntityStep::Clear(slots));
    assert forall|i: int| 0 <= i < state.meta.len() implies (#[trigger] state.meta[i]).wf() && (
    state.meta[i].location.valid() ==> state.allocator.in_use(i as u32)) by {
        assert(state.meta_of(i as u32) == state.meta[i]);
    }
    crate::entity::laws::clear_keeps_consistency(state, slots, end);
    assert forall|i: int| 0 <= i < after.meta.len() implies (#[trigger] after.meta[i]).wf()
        && !after.meta[i].location.valid() by {
        assert(state.meta[i].wf());
        assert(state.meta_of(i as u32) == state.meta[i]);
    }
    assert forall|i: u32| !(#[trigger] after.meta_of(i)).location.valid() by {}
}

/// In the state in which there are no entities, the metadata and the allocator agree.
pub proof fn new_state_is_steady(track_location: bool)
    ensures
        EntitiesState::new_spec(track_location).steady(),
{
}

/// Whatever is done with entities, the metadata and the allocator still agree.
pub proof fn step_is_steady(state: EntitiesState, step: EntityStep)
    requires
        state.steady(),
        state.allows(step),
    ensures
        state.after_step(step).steady(),
{
    match step {
        EntityStep::Reserve(slot) => {
            reserve_is_steady(state, slot);
        },
        EntityStep::ReserveBlock(slot, count) => {
            block_is_steady(state, slot, count);
        },
        EntityStep::Free(slot, entity, generations) => {
            free_is_steady(state, slot, entity, generations);
        },
        EntityStep::Place(index, location) => {
            set_is_steady(state, index, location);
        },
        EntityStep::Record(index, caller) => {
            record_is_steady(state, index, caller);
        },
        EntityStep::Clear(slots) => {
            clear_is_steady(state, slots);
        },
    }
}

/// Whatever is done with entities, one thing after another, the metadata and the allocator still
/// agree.
pub proof fn steps_are_steady(state: EntitiesState, steps: Seq<EntityStep>)
    requires
        state.steady(),
        state.allows_all(steps),
    ensures
        state.after_steps(steps).steady(),
    decreases steps.len(),
{
    if steps.len() > 0 {
        steps_are_steady(state, steps.drop_last());
        step_is_steady(state.after_steps(steps.drop_last()), steps.last());
    }
}

proof fn step_keeps_past(state: EntitiesState, step: EntityStep, entity: Entity)
    requires
        state.steady(),
        state.allows(step),
        state.is_past(entity),
    ensures
        state.after_step(step).is_past(entity),
{
    let index = entity.index_spec();
    if let EntityStep::Clear(slots) = step {
        let after = state.after_step(step);
        if index < state.meta.len() {
            assert(state.meta[index as int].wf());
            assert(state.meta_of(index) == state.meta[index as int]);
            assert(after.meta_of(index) == after.meta[index as int]);
        }
    }
}

/// An entity whose index has a later generation is not contained, it is stored nowhere, and
/// it never comes back: whatever is done with entities, as long as no generation starts again,
/// it is not contained, and no entity that is reserved is that entity. If one has its index,
/// it has a larger generation.
pub proof fn past_entity_never_comes_back(
    state: EntitiesState,
    entity: Entity,
    steps: Seq<EntityStep>,
    slot: int,
)
    requires
        state.steady(),
        state.is_past(entity),
        state.allows_all(steps),
    ensures
        state.after_steps(steps).steady(),
        state.after_steps(steps).is_past(entity),
        !state.after_steps(steps).contains(entity),
        state.after_steps(steps).location_of(entity) is None,
        state.after_steps(steps).allows(EntityStep::Reserve(slot)) ==> {
            let reserved = state.after_steps(steps).allocator.reserved(slot);
            &&& reserved != entity
            &&& reserved.index_spec() == entity.index_spec() ==> reserved.generation_spec()
                > entity.generation_spec()
        },
        forall|count: int, index: u32|
            #![trigger state.after_steps(steps).allows(EntityStep::ReserveBlock(slot, count)),
                Entity::fresh(index)]
            state.after_steps(steps).allows(EntityStep::ReserveBlock(slot, count))
                && state.after_steps(steps).allocator.next <= index
                < state.after_steps(steps).allocator.next + count ==> Entity::fresh(index)
                != entity,
    decreases steps.len(),
{
    if steps.len() > 0 {
        past_entity_never_comes_back(state, entity, steps.drop_last(), slot);
        let before = state.after_steps(steps.drop_last());
        step_is_steady(before, steps.last());
        step_keeps_past(before, steps.last(), entity);
    }
    let later = state.after_steps(steps);
    if later.allows(EntityStep::Reserve(slot)) {
        crate::entity::laws::reserved_entity_is_contained(later, slot);
        let reserved = later.allocator.reserved(slot);
        let after = later.after_step(EntityStep::Reserve(slot));
        if reserved.index_spec() == entity.index_spec() {
            assert(after.meta_of(reserved.index_spec()) == later.meta_of(reserved.index_spec()));
        }
    }
    assert forall|index: u32| index >= later.allocator.next implies Entity::fresh(index)
        != entity by {
        assert(later.meta_of(index).generation == 1);
    }
}

/// An entity that clearing has freed never comes back, whatever is done with entities later on
/// as long as no generation starts again.
pub proof fn cleared_entity_never_comes_back(
    state: EntitiesState,
    slots: Seq<int>,
    entity: Entity,
    steps: Seq<EntityStep>,
    slot: int,
)
    requires
        state.steady(),
        entity.wf(),
        state.location_of(entity) is Some,
        state.allows(EntityStep::Clear(slots)),
        state.after_step(EntityStep::Clear(slots)).allows_all(steps),
    ensures
        ({
            let cleared = state.after_step(EntityStep::Clear(slots));
            let later = cleared.after_steps(steps);
            &&& cleared.live() == 0
            &&& !cleared.contains(entity)
            &&& cleared.location_of(entity) is None
            &&& !later.contains(entity)
            &&& later.location_of(entity) is None
            &&& later.allows(EntityStep::Reserve(slot)) ==> {
                let reserved = later.allocator.reserved(slot);
                &&& reserved != entity
                &&& reserved.index_spec() == entity.index_spec() ==> reserved.generation_spec()
                    > entity.generation_spec()
            }
        }),
{
    let cleared = state.after_step(EntityStep::Clear(slots));
    let i = entity.index_spec() as int;
    clear_is_steady(state, slots);
    assert(state.meta[i].location.valid());
    assert(state.meta_of(entity.index_spec()) == state.meta[i]);
    assert(cleared.meta_of(entity.index_spec()) == cleared.meta[i]);
    assert(cleared.is_past(entity));
    assert forall|k: int| 0 <= k < cleared.meta.len() implies !(
    #[trigger] cleared.meta[k]).location.valid() by {}
    crate::entity::entities::all_invalid_is_empty(cleared.meta);
    past_entity_never_comes_back(cleared, entity, Seq::empty(), slot);
    past_entity_never_comes_back(cleared, entity, steps, slot);
}

/// An entity that has been freed never comes back, whatever is done with entities later on as
/// long as no generation starts again.
pub proof fn freed_entity_never_comes_back(
    state: EntitiesState,
    freeing: int,
    entity: Entity,
    generations: int,
    steps: Seq<EntityStep>,
    slot: int,
)
    requires
        state.steady(),
        state.can_free(entity),
        state.allows(EntityStep::Free(freeing, entity, generations)),
        state.after_free(freeing, entity, generations).allows_all(steps),
    ensures
        ({
            let later = state.after_free(freeing, entity, generations).after_steps(steps);
            &&& !later.contains(entity)
            &&& later.location_of(entity) is None
            &&& later.allows(EntityStep::Reserve(slot)) ==> later.allocator.reserved(slot)
                != entity
        }),
{
    free_is_steady(state, freeing, entity, generations);
    let freed = state.after_free(freeing, entity, generations);
    assert(freed.is_past(entity));
    past_entity_never_comes_back(freed, entity, steps, slot);
}

/// Whatever has been done with entities since there were none, an entity that clearing frees
/// never comes back, whatever is done with entities later on as long as no generation starts
/// again.
pub proof fn cleared_entity_is_gone_for_good(
    track_location: bool,
    earlier: Seq<EntityStep>,
    slots: Seq<int>,
    entity: Entity,
    later: Seq<EntityStep>,
    slot: int,
)
    requires
        EntitiesState::new_spec(track_location).allows_all(earlier),
        ({
            let state = EntitiesState::new_spec(track_location).after_steps(earlier);
            &&& entity.wf()
            &&& state.location_of(entity) is Some
            &&& state.allows(EntityStep::Clear(slots))
            &&& state.after_step(EntityStep::Clear(slots)).allows_all(later)
        }),
    ensures
        ({
            let state = EntitiesState::new_spec(track_location).after_steps(earlier);
            let cleared = state.after_step(EntityStep::Clear(slots));
            let end = cleared.after_steps(later);
            &&& cleared.live() == 0
            &&& !cleared.contains(entity)
            &&& cleared.location_of(entity) is None
            &&& !end.contains(entity)
            &&& end.location_of(entity) is None
            &&& end.allows(EntityStep::Reserve(slot)) ==> {
                let reserved = end.allocator.reserved(slot);
                &&& reserved != entity
                &&& reserved.index_spec() == entity.index_spec() ==> reserved.generation_spec()
                    > entity.generation_spec()
            }
        }),
{
    new_state_is_steady(track_location);
    steps_are_steady(EntitiesState::new_spec(track_location), earlier);
    let state = EntitiesState::new_spec(track_location).after_steps(earlier);
    cleared_entity_never_comes_back(state, slots, entity, later, slot);
}

/// Whatever has been done with entities since there were none, an entity that is freed never comes
/// back, whatever is done with entities later on as long as no generation starts again.
pub proof fn freed_entity_is_gone_for_good(
    track_location: bool,
    earlier: Seq<EntityStep>,
    freeing: int,
    entity: Entity,
    generations: int,
    later: Seq<EntityStep>,
    slot: int,
)
    requires
        EntitiesState::new_spec(track_location).allows_all(earlier),
        ({
            let state = EntitiesState::new_spec(track_location).after_steps(earlier);
            &&& state.can_free(entity)
            &&& state.allows(EntityStep::Free(freeing, entity, generations))
            &&& state.after_free(freeing, entity, generations).allows_all(later)
        }),
    ensures
        ({
            let state = EntitiesState::new_spec(track_location).after_steps(earlier);
            let end = state.after_free(freeing, entity, generations).after_steps(later);
            &&& !end.contains(entity)
            &&& end.location_of(entity) is None
            &&& end.allows(EntityStep::Reserve(slot)) ==> end.allocator.reserved(slot) != entity
        }),
{
    new_state_is_steady(track_location);
    steps_are_steady(EntitiesState::new_spec(track_location), earlier);
    let state = EntitiesState::new_spec(track_location).after_steps(earlier);
    freed_entity_never_comes_back(state, freeing, entity, generations, later, slot);
}

} // verus!
