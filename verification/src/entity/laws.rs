//! What holds of entities over several operations.

use vstd::prelude::*;

use crate::entity::allocator::{AllocatorState, ENTITY_BLOCK};
use crate::entity::entities::{EntitiesState, EntityMeta, ReservationState};
use crate::entity::location::{EntityLocation, Location, MaybeLocation};
use crate::entity::Entity;
use crate::identifier::HIGH_MASK;

verus! {

broadcast use crate::entity::generation::group_generation;

/// Reserving one entity is reserving several of which there is one.
pub proof fn reserve_entity_is_reserve_entities_of_one(allocator: AllocatorState, slot: int)
    ensures
        ({
            let reservation = ReservationState { allocator, count: 1, last_index: None };
            &&& reservation.entity(slot) == Some(allocator.reserved(slot))
            &&& reservation.after(slot).allocator == allocator.after_reserve(slot)
            &&& reservation.after(slot).count == 0
        }),
{
}

impl ReservationState {
    /// Whether an index has been allocated for this reservation and is still to be
    /// handed out.
    pub open spec fn pending(self, index: u32) -> bool {
        self.last_index matches Some(last) && last - self.count < index <= last
    }

    /// Whether an index has been handed out.
    pub open spec fn handed_out(self, index: u32) -> bool {
        self.allocator.in_use(index) && !self.pending(index)
    }

    /// Whether no index waits twice and those that are pending do not wait.
    pub open spec fn distinct(self) -> bool {
        &&& self.wf()
        &&& self.allocator.distinct()
        &&& 0 <= self.allocator.next
        &&& forall|index: u32| #[trigger] self.pending(index) ==> self.allocator.in_use(index)
    }
}

/// The entities of a reservation are unique: the index of the next one has not been
/// handed out before, it is handed out afterwards, and for every other index nothing
/// changes.
pub proof fn reserved_entities_are_unique(state: ReservationState, slot: int)
    requires
        state.distinct(),
        state.count > 0,
        state.allocator.has_slot(slot),
        state.last_index is None && state.allocator.at_hand(slot) is None
            ==> state.allocator.has_room(state.count),
    ensures
        state.entity(slot) is Some,
        state.after(slot).distinct(),
        !state.handed_out(state.entity(slot)->0.index_spec()),
        state.after(slot).handed_out(state.entity(slot)->0.index_spec()),
        forall|index: u32|
            index != state.entity(slot)->0.index_spec() ==> (#[trigger] state.after(
                slot,
            ).handed_out(index) <==> state.handed_out(index)),
{
    let after = state.after(slot);
    let entity = state.entity(slot)->0;
    match state.last_index {
        Some(last) => {
            assert(state.pending(entity.index_spec()));
            assert forall|index: u32| #[trigger]
                after.pending(index) implies after.allocator.in_use(index) by {
                assert(state.pending(index));
            }
        },
        None => {
            if state.allocator.at_hand(slot) is Some {
                crate::entity::allocator::reserved_entity_is_unique(state.allocator, slot);
            } else {
                let middle = state.allocator.after_take(slot);
                nothing_recycled(state.allocator, slot);
                crate::entity::allocator::reserved_batch_is_unique(middle, slot, state.count);
                assert(middle.next == state.allocator.next);
                assert forall|index: u32| #[trigger]
                    after.pending(index) implies after.allocator.in_use(index) by {
                    assert(middle.next <= index < middle.next + state.count);
                }
                assert forall|index: u32|
                    index != entity.index_spec() implies (#[trigger] after.handed_out(index)
                    <==> state.handed_out(index)) by {
                    assert(middle.in_use(index) == state.allocator.in_use(index));
                    assert(after.allocator.in_use(index) || !after.allocator.in_use(index));
                }
                assert(middle.in_use(entity.index_spec()) == state.allocator.in_use(
                    entity.index_spec(),
                ));
                assert(middle.next <= entity.index_spec() < middle.next + state.count);
                assert(after.allocator.in_use(entity.index_spec()));
            }
        },
    }
}

/// Finding nothing to recycle changes nothing but, perhaps, that the slot is in use.
pub(crate) proof fn nothing_recycled(state: AllocatorState, slot: int)
    requires
        state.has_slot(slot),
        state.distinct(),
        state.at_hand(slot) is None,
    ensures
        state.after_take(slot).has_slot(slot),
        state.after_take(slot).distinct(),
        state.after_take(slot).next == state.next,
        forall|index: u32| #[trigger]
            state.after_take(slot).in_use(index) == state.in_use(index),
{
    let after = state.after_take(slot);
    assert forall|index: u32| #[trigger] after.waiting(index) == state.waiting(index) by {
        crate::entity::allocator::waiting_after_take(state, slot, index);
    }
    assert forall|index: u32|
        {
            &&& 0 <= #[trigger] after.waiting(index) <= 1
            &&& after.waiting(index) > 0 ==> index < after.next
        } by {
        assert(0 <= state.waiting(index) <= 1);
    }
    assert forall|index: u32| #[trigger] after.in_use(index) == state.in_use(index) by {
        assert(after.waiting(index) == state.waiting(index));
    }
}

/// The indices of a block that was allocated for a reservation are handed out in
/// increasing order without a gap.
pub proof fn reserved_block_is_consecutive(state: ReservationState, slot: int, later_slot: int)
    requires
        state.wf(),
        state.count > 1,
        0 <= state.allocator.next,
        state.last_index is None ==> state.allocator.at_hand(slot) is None
            && state.allocator.has_room(state.count),
    ensures
        state.after(slot).entity(later_slot)->0.index_spec() == state.entity(slot)->0.index_spec()
            + 1,
        state.after(slot).entity(later_slot)->0.generation_spec() == 1,
{
}

/// A freed entity is gone: it is not contained any more, it has no location, and
/// freeing it again has no effect.
///
/// The generation must not come back to itself, which it does only when a multiple
/// of the full cycle is skipped.
pub proof fn freed_entity_is_gone(
    state: EntitiesState,
    slot: int,
    entity: Entity,
    generations: int,
)
    requires
        entity.wf(),
        state.can_free(entity),
        0 <= generations < u32::MAX,
        (generations + 1) % 0x8000_0000 != 0,
        (generations + 1) % 0x8000_0000 != HIGH_MASK,
    ensures
        !state.after_free(slot, entity, generations).contains(entity),
        !state.after_free(slot, entity, generations).can_free(entity),
        state.after_free(slot, entity, generations).location_of(entity) is None,
{
    let generation = entity.generation_spec() as int;
    let steps = (generations + 1) % 0x8000_0000;
    assert(crate::identifier::generation_after(generation, generations + 1)
        == crate::identifier::generation_after(generation, steps));
    crate::identifier::generation_changes(generation, steps);
}

/// The thread that has freed an entity gets its index next, with a generation that is
/// `generations + 1` after that of the freed entity.
pub proof fn freed_index_is_allocated_next(
    state: EntitiesState,
    slot: int,
    entity: Entity,
    generations: int,
)
    requires
        entity.wf(),
        state.can_free(entity),
        state.allocator.has_slot(slot),
        0 <= generations < u32::MAX,
    ensures
        ({
            let next = state.after_free(slot, entity, generations).allocator.reserved(slot);
            &&& next.index_spec() == entity.index_spec()
            &&& next.generation_spec() == crate::identifier::generation_after(
                entity.generation_spec() as int,
                generations + 1,
            )
            &&& entity.generation_spec() + generations + 1 <= HIGH_MASK ==> next.generation_spec()
                == entity.generation_spec() + generations + 1
        }),
{
    let meta = state.freed_meta(entity.index_spec(), generations);
    let recycled = crate::entity::entities::entity_with(entity.index_spec(), meta.generation);
    crate::entity::allocator::recycled_entity_is_reserved_next(state.allocator, slot, recycled);
}

/// Freeing an entity leaves every other index alone.
pub proof fn free_keeps_other_entities(
    state: EntitiesState,
    slot: int,
    entity: Entity,
    generations: int,
    other: Entity,
)
    requires
        other.index_spec() != entity.index_spec(),
        state.contains(other),
    ensures
        state.after_free(slot, entity, generations).contains(other),
        state.after_free(slot, entity, generations).location_of(other) == state.location_of(other),
{
}

/// A location that has been set is the one that is found, and no other entity is
/// affected.
pub proof fn set_location_is_found(
    state: EntitiesState,
    entity: Entity,
    location: EntityLocation,
    other: Entity,
)
    requires
        state.meta_of(entity.index_spec()).generation == entity.generation_spec(),
        location.valid(),
        other.index_spec() != entity.index_spec(),
    ensures
        state.after_set(entity.index_spec(), location).location_of(entity) == Some(location),
        state.after_set(entity.index_spec(), location).contains(entity),
        state.after_set(entity.index_spec(), location).location_of(other) == state.location_of(
            other,
        ),
{
}

/// The state after it has been recorded where the entity with an index was last spawned or
/// despawned.
pub open spec fn with_place(state: EntitiesState, index: u32, caller: Location) -> EntitiesState {
    state.with_meta(
        index,
        EntityMeta {
            spawned_or_despawned_by: MaybeLocation::On(Some(caller)),
            ..state.meta_of(index)
        },
    )
}

/// Where an entity was despawned can be looked up, however many generations are skipped, and
/// it is not taken for the place of an entity with another generation.
pub proof fn despawn_location_is_found(
    state: EntitiesState,
    slot: int,
    entity: Entity,
    generations: int,
    caller: Location,
    other: Entity,
)
    requires
        entity.wf(),
        state.track_location,
        state.can_free(entity),
        other.index_spec() == entity.index_spec(),
        other != entity,
    ensures
        ({
            let recorded = with_place(
                state.after_free(slot, entity, generations),
                entity.index_spec(),
                caller,
            );
            &&& recorded.spawned_or_despawned_by(entity) == MaybeLocation::On(Some(caller))
            &&& recorded.spawned_or_despawned_by(other) == MaybeLocation::On(None::<Location>)
        }),
{
}

/// Where an entity was last spawned or despawned stays known when entities are reserved, and
/// when other indices are used. Once another entity with its index has been stored, it is not
/// known any more.
pub proof fn despawn_location_is_kept(
    state: EntitiesState,
    slot: int,
    entity: Entity,
    other: Entity,
    generations: int,
    location: EntityLocation,
)
    requires
        state.track_location,
        other.index_spec() != entity.index_spec(),
    ensures
        (EntitiesState {
            allocator: state.allocator.after_reserve(slot),
            ..state
        }).spawned_or_despawned_by(entity) == state.spawned_or_despawned_by(entity),
        state.meta.len() > entity.index_spec() ==> {
            &&& state.after_free(slot, other, generations).spawned_or_despawned_by(entity)
                == state.spawned_or_despawned_by(entity)
            &&& state.after_set(other.index_spec(), location).spawned_or_despawned_by(entity)
                == state.spawned_or_despawned_by(entity)
        },
        location.valid() && state.meta_of(entity.index_spec()).generation
            != entity.generation_spec() ==> state.after_set(
            entity.index_spec(),
            location,
        ).spawned_or_despawned_by(entity) == MaybeLocation::On(None::<Location>),
{
}

/// Whether an entity is in one of several queues.
pub open spec fn is_queued(queues: Seq<Seq<Entity>>, entity: Entity) -> bool {
    exists|i: int, j: int|
        0 <= i < queues.len() && 0 <= j < queues[i].len() && #[trigger] queues[i][j] == entity
}

impl AllocatorState {
    /// Whether an entity waits to be reserved.
    pub open spec fn entity_waits(self, entity: Entity) -> bool {
        is_queued(self.local, entity) || is_queued(self.shared, entity)
    }
}

impl EntitiesState {
    /// Whether the entities that wait to be reserved have the current generation of
    /// their index and are stored nowhere, and the same holds of the first entity of
    /// every index that has not been allocated.
    pub open spec fn consistent(self) -> bool {
        &&& forall|entity: Entity| #[trigger]
            self.allocator.entity_waits(entity) ==> {
                &&& entity.index_spec() < self.allocator.next
                &&& self.meta_of(entity.index_spec()).generation == entity.generation_spec()
                &&& !self.meta_of(entity.index_spec()).location.valid()
            }
        &&& forall|index: u32|
            index >= self.allocator.next ==> (#[trigger] self.meta_of(index)).generation == 1
                && !self.meta_of(index).location.valid()
    }
}

/// A reserved entity is contained, and it is stored nowhere yet.
pub proof fn reserved_entity_is_contained(state: EntitiesState, slot: int)
    requires
        state.consistent(),
        state.allocator.has_slot(slot),
        0 <= state.allocator.next,
        state.allocator.at_hand(slot) is None ==> state.allocator.has_room(1),
    ensures
        ({
            let entity = state.allocator.reserved(slot);
            let after = EntitiesState {
                allocator: state.allocator.after_reserve(slot),
                ..state
            };
            &&& after.consistent()
            &&& after.contains(entity)
            &&& after.location_of(entity) is None
        }),
{
    let entity = state.allocator.reserved(slot);
    let after = EntitiesState { allocator: state.allocator.after_reserve(slot), ..state };
    let used = state.allocator.with_slot(slot);
    let refilled = state.allocator.refilled(slot);
    let middle = state.allocator.after_take(slot);
    assert forall|e: Entity| #[trigger]
        refilled.entity_waits(e) implies state.allocator.entity_waits(e) by {
        if is_queued(refilled.local, e) {
            let (i, j) = choose|i: int, j: int|
                0 <= i < refilled.local.len() && 0 <= j < refilled.local[i].len()
                    && #[trigger] refilled.local[i][j] == e;
            if refilled.local[i] == used.local[i] {
                assert(state.allocator.local[i][j] == e);
            } else {
                assert(state.allocator.shared[0][j] == e);
            }
        } else {
            let (i, j) = choose|i: int, j: int|
                0 <= i < refilled.shared.len() && 0 <= j < refilled.shared[i].len()
                    && #[trigger] refilled.shared[i][j] == e;
            if refilled.shared == used.shared {
                assert(state.allocator.shared[i][j] == e);
            } else {
                assert(state.allocator.shared[i + 1][j] == e);
            }
        }
    }
    assert forall|e: Entity| #[trigger] middle.entity_waits(e) implies refilled.entity_waits(e) by {
        if is_queued(middle.local, e) {
            let (i, j) = choose|i: int, j: int|
                0 <= i < middle.local.len() && 0 <= j < middle.local[i].len()
                    && #[trigger] middle.local[i][j] == e;
            assert(refilled.local[i][j] == e);
        }
    }
    if state.allocator.at_hand(slot) is Some {
        let queue = refilled.local[slot];
        assert(queue[queue.len() - 1] == entity);
        assert(refilled.entity_waits(entity));
        assert(state.allocator.entity_waits(entity));
    } else {
        let fresh = crate::entity::allocator::fresh_descending(
            middle.next + 1,
            middle.next + 1 + middle.refill(slot),
        );
        assert forall|e: Entity| #[trigger] after.allocator.entity_waits(e) implies {
            &&& e.index_spec() < after.allocator.next
            &&& after.meta_of(e.index_spec()).generation == e.generation_spec()
            &&& !after.meta_of(e.index_spec()).location.valid()
        } by {
            if is_queued(after.allocator.local, e) {
                let (i, j) = choose|i: int, j: int|
                    0 <= i < after.allocator.local.len() && 0 <= j < after.allocator.local[i].len()
                        && #[trigger] after.allocator.local[i][j] == e;
                if i == slot && j >= middle.local[slot].len() {
                    assert(e == fresh[j - middle.local[slot].len()]);
                    assert(state.meta_of(e.index_spec()).generation == 1);
                } else {
                    assert(middle.local[i][j] == e);
                    assert(middle.entity_waits(e));
                    assert(refilled.entity_waits(e));
                }
            } else {
                assert(middle.entity_waits(e));
                assert(refilled.entity_waits(e));
            }
        }
    }
    assert forall|index: u32| index >= after.allocator.next implies (#[trigger] after.meta_of(
        index,
    )).generation == 1 && !after.meta_of(index).location.valid() by {
        assert(state.meta_of(index) == after.meta_of(index));
    }
    assert(state.meta_of(entity.index_spec()) == after.meta_of(entity.index_spec()));
}

/// The entities of a block that is reserved when nothing is at hand are contained, and they are
/// stored nowhere yet.
pub proof fn reserved_block_is_consistent(state: EntitiesState, slot: int, count: int)
    requires
        state.consistent(),
        state.allocator.has_slot(slot),
        0 <= state.allocator.next,
        0 <= count,
        state.allocator.at_hand(slot) is None,
        state.allocator.has_room(count),
    ensures
        ({
            let after = EntitiesState {
                allocator: state.allocator.after_take(slot).after_reserve_batch(slot, count),
                ..state
            };
            &&& after.consistent()
            &&& forall|index: u32|
                state.allocator.next <= index < state.allocator.next + count ==> after.contains(
                    #[trigger] Entity::fresh(index),
                ) && after.location_of(Entity::fresh(index)) is None
        }),
{
    let used = state.allocator.with_slot(slot);
    let middle = state.allocator.after_take(slot);
    let after = EntitiesState {
        allocator: middle.after_reserve_batch(slot, count),
        ..state
    };
    let refilled = state.allocator.refilled(slot);
    assert(refilled.local[slot].len() == 0);
    assert forall|e: Entity| #[trigger] middle.entity_waits(e) implies (
    state.allocator.entity_waits(e)) by {
        if is_queued(middle.local, e) {
            let (i, j) = choose|i: int, j: int|
                0 <= i < middle.local.len() && 0 <= j < middle.local[i].len()
                    && #[trigger] middle.local[i][j] == e;
            assert(refilled.local[i][j] == e);
            assert(i != slot);
            assert(state.allocator.local[i][j] == e);
        } else {
            let (i, j) = choose|i: int, j: int|
                0 <= i < middle.shared.len() && 0 <= j < middle.shared[i].len()
                    && #[trigger] middle.shared[i][j] == e;
            if refilled.shared == used.shared {
                assert(state.allocator.shared[i][j] == e);
            } else {
                assert(state.allocator.shared[i + 1][j] == e);
            }
        }
    }
    let fresh = crate::entity::allocator::fresh_descending(
        middle.next + count,
        middle.next + count + middle.refill(slot),
    );
    assert forall|e: Entity| #[trigger] after.allocator.entity_waits(e) implies {
        &&& e.index_spec() < after.allocator.next
        &&& after.meta_of(e.index_spec()).generation == e.generation_spec()
        &&& !after.meta_of(e.index_spec()).location.valid()
    } by {
        if is_queued(after.allocator.local, e) {
            let (i, j) = choose|i: int, j: int|
                0 <= i < after.allocator.local.len() && 0 <= j < after.allocator.local[i].len()
                    && #[trigger] after.allocator.local[i][j] == e;
            if i == slot && j >= middle.local[slot].len() {
                assert(e == fresh[j - middle.local[slot].len()]);
                assert(state.meta_of(e.index_spec()).generation == 1);
            } else {
                assert(middle.local[i][j] == e);
                assert(middle.entity_waits(e));
            }
        } else {
            assert(middle.entity_waits(e));
        }
    }
    assert forall|index: u32| index >= state.allocator.next implies (#[trigger] after.meta_of(
        index,
    )).generation == 1 && !after.meta_of(index).location.valid() by {
        assert(state.meta_of(index) == after.meta_of(index));
    }
    assert forall|index: u32|
        state.allocator.next <= index < state.allocator.next + count implies after.contains(
        #[trigger] Entity::fresh(index),
    ) && after.location_of(Entity::fresh(index)) is None by {
        assert(state.meta_of(index) == after.meta_of(index));
    }
}

/// An entity that waits makes its index wait.
proof fn queued_entity_occurs(queues: Seq<Seq<Entity>>, entity: Entity)
    requires
        is_queued(queues, entity),
    ensures
        crate::entity::allocator::total_occurrences(queues, entity.index_spec()) > 0,
    decreases queues.len(),
{
    let (i, j) = choose|i: int, j: int|
        0 <= i < queues.len() && 0 <= j < queues[i].len() && #[trigger] queues[i][j] == entity;
    crate::entity::allocator::total_occurrences_nonnegative(
        queues.drop_last(),
        entity.index_spec(),
    );
    if i == queues.len() - 1 {
        member_occurs(queues[i], j, entity.index_spec());
    } else {
        assert(queues.drop_last()[i][j] == entity);
        queued_entity_occurs(queues.drop_last(), entity);
        crate::entity::allocator::occurrences_concat(
            Seq::empty(),
            queues.last(),
            entity.index_spec(),
        );
    }
}

proof fn member_occurs(queue: Seq<Entity>, j: int, index: u32)
    requires
        0 <= j < queue.len(),
        queue[j].index_spec() == index,
    ensures
        crate::entity::allocator::occurrences(queue, index) > 0,
    decreases queue.len(),
{
    crate::entity::allocator::occurrences_concat(Seq::empty(), queue.drop_last(), index);
    if j < queue.len() - 1 {
        member_occurs(queue.drop_last(), j, index);
    }
}

/// An entity whose index is in use does not wait.
proof fn used_index_does_not_wait(state: AllocatorState, entity: Entity)
    requires
        state.in_use(entity.index_spec()),
    ensures
        !state.entity_waits(entity),
{
    let index = entity.index_spec();
    crate::entity::allocator::total_occurrences_nonnegative(state.local, index);
    crate::entity::allocator::total_occurrences_nonnegative(state.shared, index);
    if is_queued(state.local, entity) {
        queued_entity_occurs(state.local, entity);
    }
    if is_queued(state.shared, entity) {
        queued_entity_occurs(state.shared, entity);
    }
}

/// Freeing an entity whose index is in use keeps the entities that wait consistent
/// with the metadata.
pub proof fn free_keeps_consistency(
    state: EntitiesState,
    slot: int,
    entity: Entity,
    generations: int,
)
    requires
        state.consistent(),
        state.allocator.has_slot(slot),
        state.allocator.in_use(entity.index_spec()),
        entity.wf(),
        0 <= generations < u32::MAX,
    ensures
        state.after_free(slot, entity, generations).consistent(),
{
    let after = state.after_free(slot, entity, generations);
    let index = entity.index_spec();
    assert forall|i: u32| i >= after.allocator.next implies (#[trigger] after.meta_of(i)).generation
        == 1 && !after.meta_of(i).location.valid() by {
        assert(state.meta_of(i) == after.meta_of(i));
    }
    let used = state.allocator.with_slot(slot);
    let queue = used.local[slot];
    let new = crate::entity::entities::entity_with(
        index,
        state.freed_meta(index, generations).generation,
    );
    assert forall|e: Entity| #[trigger] after.allocator.entity_waits(e) implies {
        &&& e.index_spec() < after.allocator.next
        &&& after.meta_of(e.index_spec()).generation == e.generation_spec()
        &&& !after.meta_of(e.index_spec()).location.valid()
    } by {
        if state.can_free(entity) {
            if e != new {
                assert(state.allocator.entity_waits(e)) by {
                    if is_queued(after.allocator.local, e) {
                        let (i, j) = choose|i: int, j: int|
                            0 <= i < after.allocator.local.len() && 0 <= j
                                < after.allocator.local[i].len()
                                && #[trigger] after.allocator.local[i][j] == e;
                        assert(state.allocator.local[i][j] == e);
                    } else {
                        let (i, j) = choose|i: int, j: int|
                            0 <= i < after.allocator.shared.len() && 0 <= j
                                < after.allocator.shared[i].len()
                                && #[trigger] after.allocator.shared[i][j] == e;
                        if i < state.allocator.shared.len() {
                            assert(state.allocator.shared[i][j] == e);
                        } else {
                            assert(queue.skip(ENTITY_BLOCK as int)[j] == queue[j + ENTITY_BLOCK]);
                            assert(state.allocator.local[slot][j + ENTITY_BLOCK] == e);
                        }
                    }
                }
                if e.index_spec() == index {
                    used_index_does_not_wait(state.allocator, e);
                }
                assert(state.meta_of(e.index_spec()) == after.meta_of(e.index_spec()));
            }
        } else {
            assert(state.allocator.entity_waits(e));
            assert(state.meta_of(e.index_spec()) == after.meta_of(e.index_spec()));
        }
    }
}

/// Setting the location of an entity whose index is in use keeps the entities that
/// wait consistent with the metadata.
pub proof fn set_keeps_consistency(state: EntitiesState, index: u32, location: EntityLocation)
    requires
        state.consistent(),
        state.allocator.in_use(index),
    ensures
        state.after_set(index, location).consistent(),
{
    let after = state.after_set(index, location);
    assert forall|i: u32| i >= after.allocator.next implies (#[trigger] after.meta_of(i)).generation
        == 1 && !after.meta_of(i).location.valid() by {
        assert(state.meta_of(i) == after.meta_of(i));
    }
    assert forall|e: Entity| #[trigger] after.allocator.entity_waits(e) implies {
        &&& e.index_spec() < after.allocator.next
        &&& after.meta_of(e.index_spec()).generation == e.generation_spec()
        &&& !after.meta_of(e.index_spec()).location.valid()
    } by {
        assert(state.allocator.entity_waits(e));
        if e.index_spec() == index {
            used_index_does_not_wait(state.allocator, e);
        }
        assert(state.meta_of(e.index_spec()) == after.meta_of(e.index_spec()));
    }
}

/// Freeing all live entities, whose indices are in use, keeps the entities that wait
/// consistent with the metadata.
pub proof fn clear_keeps_consistency(state: EntitiesState, slots: Seq<int>, end: int)
    requires
        state.consistent(),
        state.allocator.distinct(),
        0 <= end <= state.meta.len() <= 0x1_0000_0000,
        state.allocator.slots_fit(slots, state.freed_entities(end)),
        forall|i: int|
            0 <= i < state.meta.len() ==> (#[trigger] state.meta[i]).wf() && (
            state.meta[i].location.valid() ==> state.allocator.in_use(i as u32)),
    ensures
        state.cleared(slots, end).consistent(),
        state.cleared(slots, end).allocator.distinct(),
        state.cleared(slots, end).allocator.next == state.allocator.next,
        forall|i: int|
            end <= i < state.meta.len() && (#[trigger] state.meta[i]).location.valid()
                ==> state.cleared(slots, end).allocator.in_use(i as u32),
    decreases end,
{
    if end == 0 {
        assert(state.cleared(slots, 0) =~= state) by {
            assert(state.cleared_meta(0) =~= state.meta);
        }
    } else if !state.meta[end - 1].location.valid() {
        clear_keeps_consistency(state, slots, end - 1);
        assert(state.cleared_meta(end) =~= state.cleared_meta(end - 1));
    } else {
        let index = (end - 1) as u32;
        let before = state.cleared(slots.drop_last(), end - 1);
        let entity = crate::entity::entities::entity_with(index, state.meta[end - 1].generation);
        let slot = slots.last();
        let freed = state.freed_entities(end - 1);
        let recycled = crate::entity::entities::entity_with(
            index,
            state.freed_meta(index, 0).generation,
        );
        assert(state.freed_entities(end) == freed.push(recycled));
        assert(freed.push(recycled).drop_last() =~= freed);
        clear_keeps_consistency(state, slots.drop_last(), end - 1);
        assert(before.allocator.in_use(index));
        assert(state.meta[end - 1].wf());
        free_keeps_consistency(before, slot, entity, 0);
        crate::entity::allocator::recycled_entity_is_free(before.allocator, slot, recycled);
        let after = before.after_free(slot, entity, 0);
        assert(before.meta_of(index) == state.meta[end - 1]);
        assert(before.freed_meta(index, 0) == state.freed_meta(index, 0));
        assert(after.meta =~= state.cleared_meta(end));
        assert(after =~= state.cleared(slots, end));
    }
}

/// The number of live entities is the number of indices whose entity is stored somewhere.
pub proof fn live_entities_are_counted(state: EntitiesState)
    ensures
        state.live() == Set::new(
            |i: int| 0 <= i < state.meta.len() && state.meta[i].location.valid(),
        ).len(),
        Set::new(
            |i: int| 0 <= i < state.meta.len() && state.meta[i].location.valid(),
        ).finite(),
{
    live_indices_are_counted(state.meta);
}

proof fn live_indices_are_counted(meta: Seq<EntityMeta>)
    ensures
        Set::new(|i: int| 0 <= i < meta.len() && meta[i].location.valid()).finite(),
        crate::entity::entities::live_count(meta) == Set::new(
            |i: int| 0 <= i < meta.len() && meta[i].location.valid(),
        ).len(),
    decreases meta.len(),
{
    let all = Set::new(|i: int| 0 <= i < meta.len() && meta[i].location.valid());
    if meta.len() == 0 {
        assert(all =~= Set::<int>::empty());
    } else {
        let rest = meta.drop_last();
        let fewer = Set::new(|i: int| 0 <= i < rest.len() && rest[i].location.valid());
        live_indices_are_counted(rest);
        if meta.last().location.valid() {
            assert(all =~= fewer.insert(meta.len() - 1));
        } else {
            assert(all =~= fewer);
        }
    }
}

/// Of the entities with the same index at most one is contained. An entity that is stored somewhere
/// is contained, and one whose index has never been allocated is not.
pub proof fn one_entity_of_an_index_is_contained(
    state: EntitiesState,
    one: Entity,
    other: Entity,
)
    requires
        forall|i: int| 0 <= i < state.meta.len() ==> (#[trigger] state.meta[i]).wf(),
    ensures
        state.contains(one) && state.contains(other) && one.index_spec() == other.index_spec()
            ==> one == other,
        state.location_of(one) is Some ==> state.contains(one),
        one.index_spec() >= state.meta.len() && one.index_spec() >= state.allocator.next
            ==> !state.contains(one) && state.resolved(one.index_spec()) is None,
        state.resolved(one.index_spec()) matches Some(current) ==> current.index_spec()
            == one.index_spec() && state.contains(current),
{
    if one.index_spec() < state.meta.len() {
        assert(state.meta[one.index_spec() as int].wf());
    }
}

} // verus!
