//! What single operations do to the metadata of entities, and to those that wait to be reserved.

use vstd::prelude::*;

use crate::entity::allocator::{AllocatorState, ENTITY_BLOCK};
use crate::entity::entities::{EntitiesState, EntityMeta, ReservationState};
use crate::entity::location::{EntityLocation, Location, MaybeLocation};
use crate::entity::Entity;
use crate::identifier::HIGH_MASK;

verus! {

broadcast use crate::entity::generation::group_generation;

/// An entity is contained exactly if it has the generation that is stored for its index or, if
/// none is stored, the first generation of an index that has been allocated. It has a location
/// exactly if the generation is stored, with a location whose archetype is one.
pub proof fn entity_goes_by_its_index(state: EntitiesState, entity: Entity)
    requires
        forall|i: int| 0 <= i < state.meta.len() ==> (#[trigger] state.meta[i]).wf(),
    ensures
        ({
            let i = entity.index_spec() as int;
            let stored = i < state.meta.len();
            let generation = entity.generation_spec();
            &&& stored ==> (state.contains(entity) <==> state.meta[i].generation == generation)
            &&& !stored ==> (state.contains(entity) <==> i < state.allocator.next && generation
                == 1)
            &&& state.location_of(entity) is Some <==> stored && state.meta[i].generation
                == generation && state.meta[i].location.archetype_id.0 != u32::MAX
            &&& state.location_of(entity) is Some ==> state.location_of(entity)->0
                == state.meta[i].location
            &&& state.resolved(entity.index_spec()) is Some <==> stored || i < state.allocator.next
            &&& state.resolved(entity.index_spec()) is Some ==> {
                let current = state.resolved(entity.index_spec())->0;
                &&& current.index_spec() == entity.index_spec()
                &&& current.generation_spec() == (if stored {
                    state.meta[i].generation
                } else {
                    1u32
                })
            }
        }),
{
    if entity.index_spec() < state.meta.len() {
        assert(state.meta[entity.index_spec() as int].wf());
    }
}

/// The metadata of an index that is not stored is that of an index that has not been used: it has
/// the first generation, no location, and no place where an entity was spawned.
pub proof fn unused_index_has_the_first_generation(state: EntitiesState, index: u32)
    ensures
        index < state.meta.len() ==> state.meta_of(index) == state.meta[index as int],
        index >= state.meta.len() ==> ({
            let meta = state.meta_of(index);
            &&& meta.generation == 1
            &&& meta.last_generation == 1
            &&& meta.location.archetype_id.0 == u32::MAX
            &&& state.track_location ==> meta.spawned_or_despawned_by
                == MaybeLocation::On(None::<Location>)
            &&& !state.track_location ==> meta.spawned_or_despawned_by is Off
        }),
{
}

/// Replacing the metadata of an index stores it for that index, and changes no other one. Indices
/// up to it that were not stored are stored as unused.
pub proof fn replacing_changes_one_index(
    state: EntitiesState,
    index: u32,
    meta: EntityMeta,
    i: u32,
)
    ensures
        ({
            let after = state.with_meta(index, meta);
            &&& after.meta.len() == (if index < state.meta.len() {
                state.meta.len() as int
            } else {
                index + 1
            })
            &&& after.meta[index as int] == meta
            &&& i < state.meta.len() && i != index ==> after.meta[i as int] == state.meta[i as int]
            &&& state.meta.len() <= i < index ==> after.meta[i as int].generation == 1
                && after.meta[i as int].location.archetype_id.0 == u32::MAX
            &&& after.allocator == state.allocator
            &&& after.track_location == state.track_location
        }),
{
}

/// Freeing an entity that has the current generation of its index takes away its location, and
/// gives the index a generation that is as much later as it should be. The entity with that
/// generation is recycled. Generations start again at 1 after the last one. Freeing any other
/// entity changes nothing for its index, and nothing waits. In either case no other index is
/// changed.
pub proof fn free_changes_one_index(
    state: EntitiesState,
    slot: int,
    entity: Entity,
    generations: int,
    i: int,
)
    requires
        entity.wf(),
        0 <= generations < HIGH_MASK,
    ensures
        ({
            let after = state.after_free(slot, entity, generations);
            let index = entity.index_spec() as int;
            let stored = index < state.meta.len();
            let generation = if stored {
                state.meta[index].generation
            } else {
                1u32
            };
            let current = entity.generation_spec() == generation;
            &&& state.can_free(entity) <==> current
            &&& index < after.meta.len()
            &&& after.track_location == state.track_location
            &&& 0 <= i < state.meta.len() && i != index ==> after.meta[i] == state.meta[i]
            &&& current ==> {
                &&& after.meta[index].location.archetype_id.0 == u32::MAX
                &&& after.meta[index].last_generation == generation
                &&& after.meta[index].generation == (if generation + generations + 1 <= HIGH_MASK {
                    generation + generations + 1
                } else {
                    generation + generations + 1 - HIGH_MASK
                })
                &&& stored ==> after.meta[index].spawned_or_despawned_by
                    == state.meta[index].spawned_or_despawned_by
                &&& forall|next: Entity|
                    next.index_spec() == index && next.generation_spec()
                        == after.meta[index].generation ==> after.allocator
                        == #[trigger] state.allocator.after_recycle(slot, next)
            }
            &&& !current ==> {
                &&& stored ==> after.meta[index] == state.meta[index]
                &&& !stored ==> after.meta[index].generation == 1
                &&& after.allocator == state.allocator
            }
        }),
{
    if state.can_free(entity) {
        crate::identifier::generations_count_up(
            entity.generation_spec() as int,
            generations + 1,
        );
    }
}

/// Setting the location of an index gives it that location, and keeps its generation. No other
/// index is changed, and nothing waits or is handed out.
pub proof fn set_changes_one_index(
    state: EntitiesState,
    index: u32,
    location: EntityLocation,
    i: int,
)
    ensures
        ({
            let after = state.after_set(index, location);
            let k = index as int;
            let generation = if index < state.meta.len() {
                state.meta[k].generation
            } else {
                1u32
            };
            &&& after.meta.len() == (if index < state.meta.len() {
                state.meta.len() as int
            } else {
                index + 1
            })
            &&& after.meta[k].location == location
            &&& after.meta[k].generation == generation
            &&& location.archetype_id.0 != u32::MAX ==> after.meta[k].last_generation == generation
            &&& location.archetype_id.0 == u32::MAX && index < state.meta.len()
                ==> after.meta[k].last_generation == state.meta[k].last_generation
            &&& index < state.meta.len() ==> after.meta[k].spawned_or_despawned_by
                == state.meta[k].spawned_or_despawned_by
            &&& 0 <= i < state.meta.len() && i != k ==> after.meta[i] == state.meta[i]
            &&& after.allocator == state.allocator
            &&& after.track_location == state.track_location
        }),
{
}

/// Clearing frees the entities that have a location, and no others: their indices get the next
/// generation and no location. All other indices stay as they are.
pub proof fn clear_frees_live_entities(state: EntitiesState, after: EntitiesState, i: int)
    requires
        state.may_clear_to(after),
        state.meta.len() <= 0x1_0000_0000,
        0 <= i < state.meta.len(),
        state.meta[i].wf(),
    ensures
        after.meta.len() == state.meta.len(),
        after.track_location == state.track_location,
        state.meta[i].location.archetype_id.0 == u32::MAX ==> after.meta[i] == state.meta[i],
        state.meta[i].location.archetype_id.0 != u32::MAX ==> {
            &&& after.meta[i].location.archetype_id.0 == u32::MAX
            &&& after.meta[i].last_generation == state.meta[i].generation
            &&& after.meta[i].generation == (if state.meta[i].generation < HIGH_MASK {
                state.meta[i].generation + 1
            } else {
                1
            })
            &&& after.meta[i].spawned_or_despawned_by == state.meta[i].spawned_or_despawned_by
        },
{
    crate::identifier::generations_count_up(state.meta[i].generation as int, 1);
}

/// Where an entity was spawned or despawned is what is recorded for its index, if the generation
/// that was last stored or freed is its own. Nothing is known if places are not tracked.
pub proof fn place_is_that_of_the_last_generation(state: EntitiesState, entity: Entity)
    ensures
        ({
            let i = entity.index_spec() as int;
            let place = state.spawned_or_despawned_by(entity);
            let known = i < state.meta.len() && state.meta[i].last_generation
                == entity.generation_spec();
            &&& !state.track_location ==> place is Off
            &&& state.track_location && known ==> place == state.meta[i].spawned_or_despawned_by
            &&& state.track_location && !known ==> place == MaybeLocation::On(None::<Location>)
        }),
{
}

/// A thread reserves the last entity of its queue. If the queue is empty, it reserves the last one
/// of the first block that all threads share. If there is none, it reserves the first entity of the
/// first index that has not been allocated.
pub proof fn reserved_entity_is_the_last_that_waits(state: AllocatorState, slot: int)
    requires
        state.sized(),
        state.has_slot(slot),
    ensures
        ({
            let waits = slot < state.local.len() && state.local[slot].len() > 0;
            let entity = state.reserved(slot);
            &&& waits ==> entity == state.local[slot][state.local[slot].len() - 1]
            &&& !waits && state.shared.len() > 0 ==> entity == state.shared[0][ENTITY_BLOCK - 1]
            &&& !waits && state.shared.len() == 0 && 0 <= state.next <= u32::MAX
                ==> entity.index_spec() == state.next && entity.generation_spec() == 1
            &&& state.at_hand(slot) is Some <==> waits || state.shared.len() > 0
            &&& state.at_hand(slot) is Some ==> state.at_hand(slot)->0 == entity
        }),
{
    if state.shared.len() > 0 {
        assert(state.shared[0].len() == ENTITY_BLOCK);
    }
}

/// A thread that takes what waits for it takes one entity from the end of its queue, which gets a
/// shared block first if it is empty. The queues of other threads, and the indices that have not
/// been allocated, stay.
pub proof fn taking_takes_one_entity(state: AllocatorState, slot: int, other: int)
    requires
        state.sized(),
        state.has_slot(slot),
    ensures
        ({
            let after = state.after_take(slot);
            let waits = slot < state.local.len() && state.local[slot].len() > 0;
            &&& after.next == state.next
            &&& waits ==> after.shared == state.shared && after.local[slot]
                == state.local[slot].drop_last()
            &&& !waits && state.shared.len() > 0 ==> after.shared == state.shared.skip(1)
                && after.local[slot] == state.shared[0].drop_last()
            &&& !waits && state.shared.len() == 0 ==> after.shared == state.shared
                && after.local[slot].len() == 0
            &&& 0 <= other < state.local.len() && other != slot ==> after.local[other]
                == state.local[other] && after.fresh[other] == state.fresh[other]
        }),
{
    if state.shared.len() > 0 {
        assert(state.shared[0].len() == ENTITY_BLOCK);
    }
}

/// A thread that allocates indices fills its queue up to a block with the indices that follow them,
/// the smallest of which is reserved first. What waited in the queue stays, and so do the queues of
/// other threads.
pub proof fn allocating_fills_the_queue(
    state: AllocatorState,
    slot: int,
    count: int,
    i: int,
    other: int,
)
    requires
        state.sized(),
        state.has_slot(slot),
        0 <= state.next,
        0 <= count,
        state.has_room(count),
    ensures
        ({
            let after = state.after_reserve_batch(slot, count);
            let waiting: int = if slot < state.local.len() {
                state.local[slot].len() as int
            } else {
                0
            };
            let filled: int = if waiting < ENTITY_BLOCK {
                ENTITY_BLOCK as int
            } else {
                waiting
            };
            &&& after.local[slot].len() == filled
            &&& after.next == state.next + count + (filled - waiting)
            &&& 0 <= i < waiting ==> after.local[slot][i] == state.local[slot][i]
                && after.fresh[slot][i] == state.fresh[slot][i]
            &&& waiting <= i < filled ==> {
                &&& after.local[slot][i].index_spec() == state.next + count + (filled - 1 - i)
                &&& after.local[slot][i].generation_spec() == 1
                &&& after.fresh[slot][i]
            }
            &&& after.shared == state.shared
            &&& 0 <= other < state.local.len() && other != slot ==> after.local[other]
                == state.local[other] && after.fresh[other] == state.fresh[other]
        }),
{
    if slot < state.local.len() {
        assert(state.fresh[slot].len() == state.local[slot].len());
    }
}

/// Recycling appends the entity to the queue of the thread. A queue that is full hands all but its
/// first block to all threads before that.
pub proof fn recycling_appends_to_the_queue(
    state: AllocatorState,
    slot: int,
    entity: Entity,
    other: int,
)
    requires
        state.sized(),
        state.has_slot(slot),
    ensures
        ({
            let after = state.after_recycle(slot, entity);
            let waiting = if slot < state.local.len() {
                state.local[slot]
            } else {
                Seq::<Entity>::empty()
            };
            &&& waiting.len() < 2 * ENTITY_BLOCK ==> after.local[slot] == waiting.push(entity)
                && after.shared == state.shared
            &&& waiting.len() == 2 * ENTITY_BLOCK ==> {
                &&& after.local[slot] == waiting.take(ENTITY_BLOCK as int).push(entity)
                &&& after.shared == state.shared.push(waiting.skip(ENTITY_BLOCK as int))
            }
            &&& waiting.len() <= 2 * ENTITY_BLOCK
            &&& !after.fresh[slot][after.local[slot].len() - 1]
            &&& after.next == state.next
            &&& 0 <= other < state.local.len() && other != slot ==> after.local[other]
                == state.local[other] && after.fresh[other] == state.fresh[other]
        }),
{
    if slot < state.local.len() {
        assert(state.fresh[slot].len() == state.local[slot].len());
        assert(state.local[slot].len() <= 2 * ENTITY_BLOCK);
    }
}

/// A thread reuses the last entity in its queue that has been recycled, which leaves the queue. The
/// others keep their order.
pub proof fn reused_entity_is_the_last_recycled(state: AllocatorState, slot: int, position: int)
    requires
        state.sized(),
        0 <= slot < state.local.len(),
        0 <= position < state.local[slot].len(),
        !state.fresh[slot][position],
        forall|j: int| position < j < state.local[slot].len() ==> #[trigger] state.fresh[slot][j],
    ensures
        state.recycled(slot) == Some(state.local[slot][position]),
        state.after_reserve_recycled(slot).local[slot] == state.local[slot].remove(position),
        state.after_reserve_recycled(slot).shared == state.shared,
        state.after_reserve_recycled(slot).next == state.next,
{
    let all = state.fresh[slot];
    assert(all.len() == state.local[slot].len());
    crate::entity::allocator::last_unset_is_unset(all);
    let last = crate::entity::allocator::last_unset(all);
    if last > position {
        assert(state.fresh[slot][last]);
    }
    if last < position {
        assert(all[position]);
    }
}

/// There is room for a number of indices exactly if a thread without a queue could allocate them.
/// Any other thread can then allocate them, too.
pub proof fn room_is_for_every_thread(state: AllocatorState, slot: int, count: int)
    requires
        state.sized(),
        state.has_slot(slot),
        0 <= count,
    ensures
        state.has_room(count) <==> state.after_reserve_batch(state.local.len() as int, count).next
            <= u32::MAX,
        state.has_room(count) ==> state.after_reserve_batch(slot, count).next <= u32::MAX,
{
}

/// An index has been handed out exactly if it has been allocated and no entity with that index
/// waits in a queue.
pub proof fn index_in_use_does_not_wait(state: AllocatorState, index: u32)
    ensures
        state.in_use(index) <==> {
            &&& index < state.next
            &&& forall|i: int, j: int|
                0 <= i < state.local.len() && 0 <= j < state.local[i].len() ==> (
                #[trigger] state.local[i][j]).index_spec() != index
            &&& forall|i: int, j: int|
                0 <= i < state.shared.len() && 0 <= j < state.shared[i].len() ==> (
                #[trigger] state.shared[i][j]).index_spec() != index
        },
{
    absent_from_queues(state.local, index);
    absent_from_queues(state.shared, index);
}

proof fn absent_from_queue(queue: Seq<Entity>, index: u32)
    ensures
        crate::entity::allocator::occurrences(queue, index) >= 0,
        crate::entity::allocator::occurrences(queue, index) == 0 <==> forall|j: int|
            0 <= j < queue.len() ==> (#[trigger] queue[j]).index_spec() != index,
    decreases queue.len(),
{
    if queue.len() > 0 {
        let rest = queue.drop_last();
        absent_from_queue(rest, index);
        if forall|j: int|
            0 <= j < rest.len() ==> (#[trigger] rest[j]).index_spec() != index {
            assert forall|j: int| 0 <= j < queue.len() - 1 implies (
            #[trigger] queue[j]).index_spec() != index by {
                assert(rest[j].index_spec() != index);
            }
        } else {
            let j = choose|j: int|
                0 <= j < rest.len() && (#[trigger] rest[j]).index_spec() == index;
            assert(queue[j].index_spec() == index);
        }
    }
}

proof fn absent_from_queues(queues: Seq<Seq<Entity>>, index: u32)
    ensures
        crate::entity::allocator::total_occurrences(queues, index) >= 0,
        crate::entity::allocator::total_occurrences(queues, index) == 0 <==> forall|i: int, j: int|
            0 <= i < queues.len() && 0 <= j < queues[i].len() ==> (
            #[trigger] queues[i][j]).index_spec() != index,
    decreases queues.len(),
{
    if queues.len() > 0 {
        let rest = queues.drop_last();
        let last = queues.last();
        let n = queues.len() - 1;
        absent_from_queues(rest, index);
        absent_from_queue(last, index);
        if crate::entity::allocator::total_occurrences(queues, index) == 0 {
            assert forall|i: int, j: int|
                0 <= i < queues.len() && 0 <= j < queues[i].len() implies (
            #[trigger] queues[i][j]).index_spec() != index by {
                if i < n {
                    assert(rest[i][j].index_spec() != index);
                } else {
                    assert(last[j].index_spec() != index);
                }
            }
        } else if crate::entity::allocator::occurrences(last, index) > 0 {
            let j = choose|j: int|
                0 <= j < last.len() && (#[trigger] last[j]).index_spec() == index;
            assert(queues[n][j].index_spec() == index);
        } else {
            let (i, j) = choose|i: int, j: int|
                0 <= i < rest.len() && 0 <= j < rest[i].len() && (
                #[trigger] rest[i][j]).index_spec() == index;
            assert(queues[i][j].index_spec() == index);
        }
    }
}

/// The indices that have been handed out are those that have been allocated without those that wait
/// and never were handed out.
pub proof fn handed_out_are_counted(state: AllocatorState)
    ensures
        state.handed_out_count() == state.next - state.fresh.flatten().filter(
            |fresh: bool| fresh,
        ).len(),
{
    state.fresh.lemma_flatten_and_flatten_alt_are_equivalent();
    set_flags_are_counted(state.fresh);
}

proof fn set_flags_are_counted(all: Seq<Seq<bool>>)
    ensures
        crate::entity::allocator::all_set_flags(all) == all.flatten_alt().filter(
            |fresh: bool| fresh,
        ).len(),
    decreases all.len(),
{
    reveal(Seq::filter);
    if all.len() > 0 {
        set_flags_are_counted(all.drop_last());
        Seq::filter_distributes_over_add(
            all.drop_last().flatten_alt(),
            all.last(),
            |fresh: bool| fresh,
        );
        flags_are_counted(all.last());
    }
}

proof fn flags_are_counted(all: Seq<bool>)
    ensures
        crate::entity::allocator::set_flags(all) == all.filter(|fresh: bool| fresh).len(),
    decreases all.len(),
{
    reveal(Seq::filter);
    if all.len() > 0 {
        flags_are_counted(all.drop_last());
    }
}

/// The entities that have been recycled are those in the shared blocks and those in the queues of
/// threads that are not fresh, each of them as often as it stands there.
pub proof fn recycled_entities_are_those_that_wait(state: AllocatorState, i: int)
    requires
        state.sized(),
    ensures
        state.recycled_entities() == state.recycled_queues().flatten().to_multiset().add(
            state.shared.flatten().to_multiset(),
        ),
        state.recycled_queues().len() == state.local.len(),
        0 <= i < state.local.len() ==> state.recycled_queues()[i] == state.local[i].zip_with(
            state.fresh[i],
        ).filter(|waiting: (Entity, bool)| !waiting.1).map_values(
            |waiting: (Entity, bool)| waiting.0,
        ),
{
    gathered_is_flat(state.recycled_queues());
    gathered_is_flat(state.shared);
    state.recycled_queues().lemma_flatten_and_flatten_alt_are_equivalent();
    state.shared.lemma_flatten_and_flatten_alt_are_equivalent();
    if 0 <= i < state.local.len() {
        assert(state.fresh[i].len() == state.local[i].len());
        unflagged_are_kept(state.local[i], state.fresh[i]);
    }
}

proof fn gathered_is_flat(queues: Seq<Seq<Entity>>)
    ensures
        crate::entity::allocator::gathered(queues) == queues.flatten_alt().to_multiset(),
    decreases queues.len(),
{
    if queues.len() > 0 {
        gathered_is_flat(queues.drop_last());
        vstd::seq_lib::lemma_multiset_commutative(
            queues.drop_last().flatten_alt(),
            queues.last(),
        );
    } else {
        queues.flatten_alt().to_multiset_ensures();
        assert(queues.flatten_alt().to_multiset() =~= vstd::multiset::Multiset::empty());
    }
}

proof fn unflagged_are_kept(queue: Seq<Entity>, all: Seq<bool>)
    requires
        queue.len() == all.len(),
    ensures
        crate::entity::allocator::unflagged(queue, all) == queue.zip_with(all).filter(
            |waiting: (Entity, bool)| !waiting.1,
        ).map_values(|waiting: (Entity, bool)| waiting.0),
    decreases queue.len(),
{
    reveal(Seq::filter);
    let both = queue.zip_with(all);
    if queue.len() > 0 {
        let rest = queue.drop_last().zip_with(all.drop_last());
        unflagged_are_kept(queue.drop_last(), all.drop_last());
        assert(both.drop_last() =~= rest);
        assert(both.last() == (queue.last(), all.last()));
        assert(crate::entity::allocator::unflagged(queue, all) =~= both.filter(
            |waiting: (Entity, bool)| !waiting.1,
        ).map_values(|waiting: (Entity, bool)| waiting.0));
    } else {
        assert(both.filter(|waiting: (Entity, bool)| !waiting.1) =~= Seq::empty());
        assert(crate::entity::allocator::unflagged(queue, all) =~= Seq::<Entity>::empty());
    }
}

/// Reserving is taking what waits. If nothing waits, it is allocating one index.
pub proof fn reserving_is_taking_or_allocating(state: AllocatorState, slot: int)
    ensures
        state.at_hand(slot) is Some ==> state.after_reserve(slot) == state.after_take(slot),
        state.at_hand(slot) is None ==> state.after_reserve(slot) == state.after_take(
            slot,
        ).after_reserve_batch(slot, 1),
{
}

/// A reservation takes what waits. When nothing waits, it allocates a block of indices for all that
/// is left to reserve, and from then on hands out the entities of that block.
pub proof fn reservation_takes_or_allocates(state: ReservationState, slot: int)
    requires
        state.wf(),
        state.count > 0,
        0 <= state.allocator.next,
        state.last_index is None && state.allocator.at_hand(slot) is None
            ==> state.allocator.has_room(state.count),
    ensures
        ({
            let entity = state.entity(slot)->0;
            let after = state.after(slot);
            &&& state.last_index matches Some(last) ==> {
                &&& entity.index_spec() == last - state.count + 1
                &&& entity.generation_spec() == 1
                &&& after.allocator == state.allocator
                &&& after.last_index == state.last_index
            }
            &&& state.last_index is None && state.allocator.at_hand(slot) is Some ==> {
                &&& entity == state.allocator.at_hand(slot)->0
                &&& after.allocator == state.allocator.after_take(slot)
                &&& after.last_index is None
            }
            &&& state.last_index is None && state.allocator.at_hand(slot) is None ==> {
                &&& entity.index_spec() == state.allocator.next
                &&& entity.generation_spec() == 1
                &&& after.allocator == state.allocator.after_take(slot).after_reserve_batch(
                    slot,
                    state.count,
                )
                &&& after.last_index is Some
                &&& after.last_index->0 == state.allocator.next + state.count - 1
            }
        }),
{
}

/// Recycling several entities adds all of them to those that have been recycled, and hands out no
/// index.
proof fn all_are_recycled(state: AllocatorState, slots: Seq<int>, entities: Seq<Entity>)
    requires
        state.sized(),
        state.slots_fit(slots, entities),
    ensures
        state.after_recycle_all(slots, entities).sized(),
        state.after_recycle_all(slots, entities).recycled_entities()
            == state.recycled_entities().add(entities.to_multiset()),
        state.after_recycle_all(slots, entities).fresh_count() == state.fresh_count(),
        state.after_recycle_all(slots, entities).next == state.next,
    decreases entities.len(),
{
    entities.to_multiset_ensures();
    if entities.len() > 0 {
        let rest = entities.drop_last();
        let last = entities.last();
        all_are_recycled(state, slots.drop_last(), rest);
        let middle = state.after_recycle_all(slots.drop_last(), rest);
        crate::entity::allocator_laws::recycling_adds_an_entity(middle, slots.last(), last);
        rest.to_multiset_ensures();
        assert(rest.push(last) =~= entities);
        assert(middle.recycled_entities().insert(last) =~= state.recycled_entities().add(
            entities.to_multiset(),
        ));
    } else {
        assert(entities.to_multiset() =~= vstd::multiset::Multiset::empty());
        assert(state.recycled_entities().add(entities.to_multiset())
            =~= state.recycled_entities());
    }
}

/// Clearing recycles the next entity of every index that had a location, and of no other one: as
/// many entities wait in addition as were alive, and no index is handed out.
pub proof fn clear_recycles_live_entities(
    state: EntitiesState,
    after: EntitiesState,
    next: Entity,
)
    requires
        state.may_clear_to(after),
        state.allocator.sized(),
        state.meta.len() <= 0x1_0000_0000,
        forall|i: int| 0 <= i < state.meta.len() ==> (#[trigger] state.meta[i]).wf(),
    ensures
        after.allocator.recycled_entities().len() == state.allocator.recycled_entities().len()
            + state.live(),
        after.allocator.handed_out_count() == state.allocator.handed_out_count(),
        next.index_spec() < state.meta.len() && state.meta[next.index_spec() as int].location.valid()
            && next.generation_spec() == after.meta[next.index_spec() as int].generation
            ==> after.allocator.recycled_entities().count(next) > 0,
{
    let end = state.meta.len() as int;
    let freed = state.freed_entities(end);
    let slots = choose|slots: Seq<int>|
        {
            &&& #[trigger] state.allocator.slots_fit(slots, freed)
            &&& after == state.cleared(slots, end)
        };
    all_are_recycled(state.allocator, slots, freed);
    freed.to_multiset_ensures();
    freed_entities_are_live(state, end, next.index_spec() as int);
    assert(state.meta.take(end) =~= state.meta);
    let i = next.index_spec() as int;
    if i < end && state.meta[i].location.valid() && next.generation_spec()
        == after.meta[i].generation {
        let k = choose|k: int|
            0 <= k < freed.len() && (#[trigger] freed[k]).index_spec() == i
                && freed[k].generation_spec() == state.freed_meta(i as u32, 0).generation;
        assert(freed[k] == next);
        assert(freed.contains(next));
    }
}

proof fn freed_entities_are_live(state: EntitiesState, end: int, i: int)
    requires
        0 <= end <= state.meta.len() <= 0x1_0000_0000,
        forall|k: int| 0 <= k < state.meta.len() ==> (#[trigger] state.meta[k]).wf(),
    ensures
        state.freed_entities(end).len() == crate::entity::entities::live_count(
            state.meta.take(end),
        ),
        0 <= i < end && state.meta[i].location.valid() ==> exists|k: int|
            0 <= k < state.freed_entities(end).len() && (#[trigger] state.freed_entities(
                end,
            )[k]).index_spec() == i && state.freed_entities(end)[k].generation_spec()
                == state.freed_meta(i as u32, 0).generation,
    decreases end,
{
    if end > 0 {
        let before = state.freed_entities(end - 1);
        let freed = state.freed_entities(end);
        freed_entities_are_live(state, end - 1, i);
        assert(state.meta.take(end).drop_last() =~= state.meta.take(end - 1));
        if 0 <= i < end - 1 && state.meta[i].location.valid() {
            let k = choose|k: int|
                0 <= k < before.len() && (#[trigger] before[k]).index_spec() == i
                    && before[k].generation_spec() == state.freed_meta(i as u32, 0).generation;
            assert(freed[k] == before[k]);
        } else if i == end - 1 && state.meta[i].location.valid() {
            assert(state.meta[i].wf());
            crate::identifier::generations_count_up(state.meta[i].generation as int, 1);
            assert(freed[freed.len() - 1].index_spec() == i);
        }
    }
}

/// A reservation hands out as many entities as were asked for, and then no more.
pub proof fn reservation_counts_down(state: ReservationState, slot: int)
    requires
        state.wf(),
    ensures
        state.entity(slot) is Some <==> state.count > 0,
        state.count > 0 ==> state.after(slot).count == state.count - 1,
        state.count == 0 ==> state.after(slot) == state,
{
}

} // verus!
