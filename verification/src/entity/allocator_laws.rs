//! What holds of the allocator over several operations.

use vstd::multiset::Multiset;
use vstd::prelude::*;

use crate::entity::allocator::{AllocatorState, ENTITY_BLOCK, ENTITY_LOCAL_SIZE};
use crate::entity::Entity;

verus! {

proof fn unflagged_concat(a: Seq<Entity>, fa: Seq<bool>, b: Seq<Entity>, fb: Seq<bool>)
    requires
        a.len() == fa.len(),
        b.len() == fb.len(),
    ensures
        crate::entity::allocator::unflagged(a + b, fa + fb)
            == crate::entity::allocator::unflagged(a, fa) + crate::entity::allocator::unflagged(
            b,
            fb,
        ),
    decreases b.len(),
{
    if b.len() == 0 {
        assert(a + b =~= a);
        assert(fa + fb =~= fa);
        assert(crate::entity::allocator::unflagged(a, fa)
            + crate::entity::allocator::unflagged(b, fb) =~= crate::entity::allocator::unflagged(
            a,
            fa,
        ));
    } else {
        assert((a + b).drop_last() =~= a + b.drop_last());
        assert((fa + fb).drop_last() =~= fa + fb.drop_last());
        unflagged_concat(a, fa, b.drop_last(), fb.drop_last());
        if !fb.last() {
            assert(crate::entity::allocator::unflagged(a + b, fa + fb)
                =~= crate::entity::allocator::unflagged(a, fa)
                + crate::entity::allocator::unflagged(b, fb));
        }
    }
}

proof fn unflagged_all(queue: Seq<Entity>, all: Seq<bool>)
    requires
        queue.len() == all.len(),
        forall|i: int| 0 <= i < all.len() ==> !#[trigger] all[i],
    ensures
        crate::entity::allocator::unflagged(queue, all) == queue,
    decreases queue.len(),
{
    if queue.len() > 0 {
        unflagged_all(queue.drop_last(), all.drop_last());
        assert(queue.drop_last().push(queue.last()) =~= queue);
    } else {
        assert(crate::entity::allocator::unflagged(queue, all) =~= queue);
    }
}

proof fn unflagged_remove(queue: Seq<Entity>, all: Seq<bool>)
    requires
        queue.len() == all.len(),
        crate::entity::allocator::last_unset(all) >= 0,
    ensures
        ({
            let p = crate::entity::allocator::last_unset(all);
            &&& p < queue.len()
            &&& crate::entity::allocator::unflagged(queue, all)
                == crate::entity::allocator::unflagged(queue.remove(p), all.remove(p)).push(
                queue[p],
            )
        }),
    decreases queue.len(),
{
    let p = crate::entity::allocator::last_unset(all);
    crate::entity::allocator::last_unset_is_unset(all);
    if p == all.len() - 1 {
        assert(queue.remove(p) =~= queue.drop_last());
        assert(all.remove(p) =~= all.drop_last());
    } else {
        unflagged_remove(queue.drop_last(), all.drop_last());
        assert(queue.remove(p).drop_last() =~= queue.drop_last().remove(p));
        assert(all.remove(p).drop_last() =~= all.drop_last().remove(p));
    }
}

proof fn unflagged_none(queue: Seq<Entity>, all: Seq<bool>)
    requires
        queue.len() == all.len(),
    ensures
        crate::entity::allocator::unflagged(queue, all).len() == 0
            <==> crate::entity::allocator::last_unset(all) < 0,
    decreases queue.len(),
{
    if queue.len() > 0 {
        unflagged_none(queue.drop_last(), all.drop_last());
    }
}

proof fn gathered_push(queues: Seq<Seq<Entity>>, queue: Seq<Entity>)
    ensures
        crate::entity::allocator::gathered(queues.push(queue))
            == crate::entity::allocator::gathered(queues).add(queue.to_multiset()),
{
    assert(queues.push(queue).drop_last() =~= queues);
}

proof fn gathered_update(
    queues: Seq<Seq<Entity>>,
    k: int,
    queue: Seq<Entity>,
    more: Multiset<Entity>,
    less: Multiset<Entity>,
)
    requires
        0 <= k < queues.len(),
        queue.to_multiset().add(less) == queues[k].to_multiset().add(more),
    ensures
        crate::entity::allocator::gathered(queues.update(k, queue)).add(less)
            == crate::entity::allocator::gathered(queues).add(more),
        forall|entity: Entity|
            #![trigger crate::entity::allocator::gathered(queues.update(k, queue)).count(entity)]
            #![trigger crate::entity::allocator::gathered(queues).count(entity)]
            crate::entity::allocator::gathered(queues.update(k, queue)).count(entity)
                + less.count(entity) == crate::entity::allocator::gathered(queues).count(entity)
                + more.count(entity),
    decreases queues.len(),
{
    let rest = queues.drop_last();
    let updated = queues.update(k, queue);
    if k == queues.len() - 1 {
        assert(updated.drop_last() =~= rest);
        assert(crate::entity::allocator::gathered(updated).add(less)
            =~= crate::entity::allocator::gathered(rest).add(queue.to_multiset().add(less)));
        assert(crate::entity::allocator::gathered(queues).add(more)
            =~= crate::entity::allocator::gathered(rest).add(queues[k].to_multiset().add(more)));
    } else {
        assert(updated.drop_last() =~= rest.update(k, queue));
        gathered_update(rest, k, queue, more, less);
        let last = queues.last().to_multiset();
        assert(crate::entity::allocator::gathered(updated).add(less)
            =~= crate::entity::allocator::gathered(rest.update(k, queue)).add(less).add(last));
        assert(crate::entity::allocator::gathered(queues).add(more)
            =~= crate::entity::allocator::gathered(rest).add(more).add(last));
    }
    let a = crate::entity::allocator::gathered(updated);
    let b = crate::entity::allocator::gathered(queues);
    assert forall|entity: Entity| #[trigger] a.count(entity) + less.count(entity) == b.count(entity)
        + more.count(entity) by {
        assert(a.add(less).count(entity) == b.add(more).count(entity));
    }
}

proof fn gathered_skip_first(queues: Seq<Seq<Entity>>)
    requires
        queues.len() > 0,
    ensures
        crate::entity::allocator::gathered(queues) == queues[0].to_multiset().add(
            crate::entity::allocator::gathered(queues.skip(1)),
        ),
    decreases queues.len(),
{
    let rest = queues.drop_last();
    if queues.len() == 1 {
        assert(queues.skip(1) =~= Seq::empty());
        assert(rest =~= Seq::empty());
        assert(crate::entity::allocator::gathered(queues) =~= queues[0].to_multiset().add(
            crate::entity::allocator::gathered(queues.skip(1)),
        ));
    } else {
        gathered_skip_first(rest);
        assert(queues.skip(1).drop_last() =~= rest.skip(1));
        assert(crate::entity::allocator::gathered(queues) =~= queues[0].to_multiset().add(
            crate::entity::allocator::gathered(queues.skip(1)),
        ));
    }
}

/// A slot that comes into use has nothing in its queue.
proof fn used_slot(state: AllocatorState, slot: int)
    requires
        state.sized(),
        state.has_slot(slot),
    ensures
        state.with_slot(slot).sized(),
        state.with_slot(slot).recycled_entities() == state.recycled_entities(),
        state.with_slot(slot).fresh_count() == state.fresh_count(),
        slot < state.with_slot(slot).local.len(),
{
    let used = state.with_slot(slot);
    if slot == state.local.len() {
        crate::entity::allocator::all_set_flags_push(state.fresh, Seq::empty());
        assert forall|i: int| 0 <= i < used.local.len() implies (#[trigger] used.local[i]).len()
            <= ENTITY_LOCAL_SIZE && used.fresh[i].len() == used.local[i].len() by {
            if i < state.local.len() {
                assert(state.fresh[i].len() == state.local[i].len());
            }
        }
        assert forall|i: int, j: int|
            0 <= i < used.local.len() && ENTITY_BLOCK <= j < used.local[i].len() implies
            !#[trigger] used.fresh[i][j] by {
            assert(!state.fresh[i][j]);
        }
        let empty = Seq::<Entity>::empty();
        assert(used.recycled_queues() =~= state.recycled_queues().push(empty));
        gathered_push(state.recycled_queues(), empty);
        empty.to_multiset_ensures();
        assert(empty.to_multiset() =~= Multiset::empty());
        assert(used.recycled_entities() =~= state.recycled_entities());
    }
}

/// Recycling an entity adds it to those that have been recycled, and no index becomes one
/// that has never been handed out.
pub proof fn recycling_adds_an_entity(state: AllocatorState, slot: int, entity: Entity)
    requires
        state.sized(),
        state.has_slot(slot),
    ensures
        state.after_recycle(slot, entity).sized(),
        state.after_recycle(slot, entity).recycled_entities() == state.recycled_entities().insert(
            entity,
        ),
        state.after_recycle(slot, entity).fresh_count() == state.fresh_count(),
{
    let used = state.with_slot(slot);
    let after = state.after_recycle(slot, entity);
    used_slot(state, slot);
    crate::entity::allocator::same_slot(state, slot);
    crate::entity::allocator::recycled_is_sized(used, slot, entity);
    let queue = used.local[slot];
    let all = used.fresh[slot];
    assert(all.len() == queue.len());
    let kept = crate::entity::allocator::unflagged(queue, all);
    let one = Multiset::singleton(entity);
    let queues = used.recycled_queues();
    let new = crate::entity::allocator::unflagged(after.local[slot], after.fresh[slot]);
    assert(after.recycled_queues() =~= queues.update(slot, new));
    if queue.len() == ENTITY_LOCAL_SIZE {
        let block = queue.skip(ENTITY_BLOCK as int);
        let first = queue.take(ENTITY_BLOCK as int);
        let first_flags = all.take(ENTITY_BLOCK as int);
        let block_flags = all.skip(ENTITY_BLOCK as int);
        assert(first + block =~= queue);
        assert(first_flags + block_flags =~= all);
        assert forall|i: int| 0 <= i < block_flags.len() implies !#[trigger] block_flags[i] by {
            assert(!used.fresh[slot][i + ENTITY_BLOCK]);
        }
        unflagged_concat(first, first_flags, block, block_flags);
        unflagged_all(block, block_flags);
        let stays = crate::entity::allocator::unflagged(first, first_flags);
        assert(first.push(entity).drop_last() =~= first);
        assert(first_flags.push(false).drop_last() =~= first_flags);
        assert(new == stays.push(entity));
        stays.to_multiset_ensures();
        vstd::seq_lib::lemma_multiset_commutative(stays, block);
        let moved = block.to_multiset();
        assert(new.to_multiset().add(moved) =~= kept.to_multiset().add(one));
        gathered_update(queues, slot, new, one, moved);
        gathered_push(used.shared, block);
        assert(after.recycled_entities() =~= used.recycled_entities().insert(entity));
    } else {
        assert(queue.push(entity).drop_last() =~= queue);
        assert(all.push(false).drop_last() =~= all);
        assert(new == kept.push(entity));
        kept.to_multiset_ensures();
        assert(new.to_multiset().add(Multiset::empty()) =~= kept.to_multiset().add(one));
        gathered_update(queues, slot, new, one, Multiset::empty());
        assert(after.recycled_entities() =~= used.recycled_entities().insert(entity));
    }
}

/// Reusing an entity takes it away from those that have been recycled. If there is none for
/// the thread, nothing is taken away, and neither its queue nor the shared blocks hold one.
pub proof fn reusing_claims_an_entity(state: AllocatorState, slot: int)
    requires
        state.sized(),
        state.has_slot(slot),
    ensures
        state.after_reserve_recycled(slot).sized(),
        state.after_reserve_recycled(slot).fresh_count() == state.fresh_count(),
        state.recycled(slot) matches Some(entity) ==> {
            &&& state.recycled_entities().count(entity) > 0
            &&& state.after_reserve_recycled(slot).recycled_entities()
                == state.recycled_entities().remove(entity)
        },
        state.recycled(slot) is None ==> {
            &&& state.after_reserve_recycled(slot).recycled_entities()
                == state.recycled_entities()
            &&& state.shared.len() == 0
            &&& slot < state.local.len() ==> state.recycled_queues()[slot].len() == 0
        },
        state.after_reserve_recycled(slot).local.len() == state.with_slot(slot).local.len(),
{
    let used = state.with_slot(slot);
    let stocked = state.restocked(slot);
    let after = state.after_reserve_recycled(slot);
    used_slot(state, slot);
    crate::entity::allocator::same_slot(state, slot);
    crate::entity::allocator::restocked_is_sized(used, slot);
    let queue = used.local[slot];
    let all = used.fresh[slot];
    assert(all.len() == queue.len());
    unflagged_none(queue, all);
    let queues = used.recycled_queues();
    if crate::entity::allocator::last_unset(all) < 0 && used.shared.len() > 0 {
        let block = used.shared[0];
        assert(block.len() == ENTITY_BLOCK);
        let unset = crate::entity::allocator::flags(ENTITY_BLOCK as int, false);
        unflagged_concat(queue, all, block, unset);
        unflagged_all(block, unset);
        let kept = crate::entity::allocator::unflagged(queue, all);
        let new = kept + block;
        assert(stocked.recycled_queues() =~= queues.update(slot, new));
        vstd::seq_lib::lemma_multiset_commutative(kept, block);
        assert(new.to_multiset().add(Multiset::empty()) =~= kept.to_multiset().add(
            block.to_multiset(),
        ));
        gathered_update(queues, slot, new, block.to_multiset(), Multiset::empty());
        gathered_skip_first(used.shared);
        assert(stocked.recycled_entities() =~= used.recycled_entities());
    }
    assert(stocked.recycled_entities() == state.recycled_entities());
    let position = crate::entity::allocator::last_unset(stocked.fresh[slot]);
    crate::entity::allocator::last_unset_is_unset(stocked.fresh[slot]);
    assert(stocked.fresh[slot].len() == stocked.local[slot].len());
    if position >= 0 {
        let entity = stocked.local[slot][position];
        let before = crate::entity::allocator::unflagged(stocked.local[slot], stocked.fresh[slot]);
        let new = crate::entity::allocator::unflagged(after.local[slot], after.fresh[slot]);
        let one = Multiset::singleton(entity);
        unflagged_remove(stocked.local[slot], stocked.fresh[slot]);
        crate::entity::allocator::removed_is_sized(stocked, slot, position);
        assert(after.recycled_queues() =~= stocked.recycled_queues().update(slot, new));
        new.to_multiset_ensures();
        assert(new.to_multiset().add(one) =~= before.to_multiset().add(Multiset::empty()));
        gathered_update(stocked.recycled_queues(), slot, new, Multiset::empty(), one);
        assert(after.recycled_entities().add(one) =~= stocked.recycled_entities());
        assert(stocked.recycled_entities().count(entity) == after.recycled_entities().count(entity)
            + 1);
        assert(after.recycled_entities() =~= stocked.recycled_entities().remove(entity));
    } else if used.shared.len() > 0 && crate::entity::allocator::last_unset(all) < 0 {
        let last = stocked.fresh[slot].len() - 1;
        assert(!stocked.fresh[slot][last]);
    }
}

/// Reserving an entity either claims one that has been recycled, or hands out an index for
/// the first time.
pub proof fn reserving_claims_or_hands_out(state: AllocatorState, slot: int)
    requires
        state.sized(),
        state.has_slot(slot),
    ensures
        state.after_reserve(slot).sized(),
        ({
            let after = state.after_reserve(slot);
            let entity = state.reserved(slot);
            ||| {
                &&& state.recycled_entities().count(entity) > 0
                &&& after.recycled_entities() == state.recycled_entities().remove(entity)
                &&& after.handed_out_count() == state.handed_out_count()
            }
            ||| {
                &&& after.recycled_entities() == state.recycled_entities()
                &&& after.handed_out_count() == state.handed_out_count() + 1
            }
        }),
{
    let used = state.with_slot(slot);
    let refilled = state.refilled(slot);
    let taken = state.after_take(slot);
    let after = state.after_reserve(slot);
    used_slot(state, slot);
    crate::entity::allocator::same_slot(state, slot);
    crate::entity::allocator::refilled_is_sized(used, slot);
    crate::entity::allocator::taken_is_sized(refilled, slot);
    let queue = used.local[slot];
    assert(used.fresh[slot].len() == queue.len());
    let queues = used.recycled_queues();
    if queue.len() == 0 && used.shared.len() > 0 {
        let block = used.shared[0];
        assert(block.len() == ENTITY_BLOCK);
        unflagged_all(block, crate::entity::allocator::flags(ENTITY_BLOCK as int, false));
        assert(refilled.recycled_queues() =~= queues.update(slot, block));
        assert(queues[slot] =~= Seq::<Entity>::empty());
        queues[slot].to_multiset_ensures();
        assert(queues[slot].to_multiset() =~= Multiset::empty());
        assert(block.to_multiset().add(Multiset::empty()) =~= queues[slot].to_multiset().add(
            block.to_multiset(),
        ));
        gathered_update(queues, slot, block, block.to_multiset(), Multiset::empty());
        gathered_skip_first(used.shared);
        assert(refilled.recycled_entities() =~= used.recycled_entities());
    }
    assert(refilled.recycled_entities() == state.recycled_entities());
    assert(refilled.fresh[slot].len() == refilled.local[slot].len());
    if refilled.local[slot].len() > 0 {
        let entity = refilled.local[slot].last();
        let before = crate::entity::allocator::unflagged(
            refilled.local[slot],
            refilled.fresh[slot],
        );
        let new = crate::entity::allocator::unflagged(taken.local[slot], taken.fresh[slot]);
        assert(taken.recycled_queues() =~= refilled.recycled_queues().update(slot, new));
        if refilled.fresh[slot].last() {
            assert(new == before);
            assert(taken.recycled_queues() =~= refilled.recycled_queues());
        } else {
            let one = Multiset::singleton(entity);
            assert(before == new.push(entity));
            new.to_multiset_ensures();
            assert(new.to_multiset().add(one) =~= before.to_multiset().add(Multiset::empty()));
            gathered_update(refilled.recycled_queues(), slot, new, Multiset::empty(), one);
            assert(taken.recycled_entities().add(one) =~= refilled.recycled_entities());
            assert(refilled.recycled_entities().count(entity)
                == taken.recycled_entities().count(entity) + 1);
            assert(taken.recycled_entities() =~= refilled.recycled_entities().remove(entity));
        }
    } else {
        crate::entity::allocator::reserved_batch_is_sized(taken, slot, 1);
        let refill = taken.refill(slot);
        let more = crate::entity::allocator::fresh_descending(
            taken.next + 1,
            taken.next + 1 + refill,
        );
        let set = crate::entity::allocator::flags(refill, true);
        unflagged_nothing(more, set);
        unflagged_concat(taken.local[slot], taken.fresh[slot], more, set);
        let old_queue = crate::entity::allocator::unflagged(taken.local[slot], taken.fresh[slot]);
        assert(old_queue + Seq::<Entity>::empty() =~= old_queue);
        assert(after.recycled_queues() =~= taken.recycled_queues());
    }
}

proof fn unflagged_nothing(queue: Seq<Entity>, all: Seq<bool>)
    requires
        queue.len() == all.len(),
        forall|i: int| 0 <= i < all.len() ==> #[trigger] all[i],
    ensures
        crate::entity::allocator::unflagged(queue, all) == Seq::<Entity>::empty(),
    decreases queue.len(),
{
    if queue.len() > 0 {
        unflagged_nothing(queue.drop_last(), all.drop_last());
    }
}

/// The state after the thread with the first slot has reserved a number of entities from a new
/// allocator, and nothing else has been done.
pub open spec fn after_reservations(count: nat) -> AllocatorState
    decreases count,
{
    if count == 0 {
        AllocatorState::new_spec()
    } else {
        after_reservations((count - 1) as nat).after_reserve(0)
    }
}

/// The end of the block of indices up to which a thread that only reserves has allocated.
pub open spec fn block_end(count: nat) -> int {
    (count + ENTITY_BLOCK) / (1 + ENTITY_BLOCK) * (1 + ENTITY_BLOCK)
}

/// A thread that only reserves entities from a new allocator gets the indices in increasing
/// order, without a gap and without a repetition, each with the first generation.
pub proof fn reservations_count_up(count: nat)
    requires
        count + 2 * (1 + ENTITY_BLOCK) <= u32::MAX,
    ensures
        after_reservations(count).reserved(0) == Entity::fresh(count as u32),
        after_reservations(count).handed_out_count() == count,
{
    reservations_state(count);
    let end = block_end(count);
    let state = after_reservations(count);
    if count > 0 {
        let all = crate::entity::allocator::flags(end - count, true);
        crate::entity::allocator::set_flags_equal(end - count, true);
        assert(state.fresh.drop_last() =~= Seq::empty());
        assert(crate::entity::allocator::all_set_flags(state.fresh.drop_last()) == 0);
        assert(state.fresh.last() == all);
        if end > count {
            assert(state.local[0].last() == Entity::fresh(count as u32));
        }
    }
}

proof fn reservations_state(count: nat)
    requires
        count + 1 + ENTITY_BLOCK <= u32::MAX,
    ensures
        ({
            let end = block_end(count);
            let state = after_reservations(count);
            &&& count <= end <= count + ENTITY_BLOCK
            &&& state.next == end
            &&& state.shared == Seq::<Seq<Entity>>::empty()
            &&& count == 0 ==> state == AllocatorState::new_spec()
            &&& count > 0 ==> state.local == seq![
                crate::entity::allocator::fresh_descending(count as int, end),
            ]
            &&& count > 0 ==> state.fresh == seq![
                crate::entity::allocator::flags(end - count, true),
            ]
        }),
    decreases count,
{
    let end = block_end(count);
    assert(count <= end <= count + 15);
    if count > 0 {
        let n = (count - 1) as nat;
        let before = after_reservations(n);
        let state = after_reservations(count);
        reservations_state(n);
        let last = block_end(n);
        assert(last > n ==> end == last);
        assert(last == n ==> end == n + 16);
        if last > n {
            let queue = crate::entity::allocator::fresh_descending(n as int, last);
            assert(before.local[0] == queue);
            assert(queue.drop_last() =~= crate::entity::allocator::fresh_descending(
                count as int,
                last,
            ));
            assert(crate::entity::allocator::flags(last - n, true).drop_last()
                =~= crate::entity::allocator::flags(last - count, true));
        } else if n > 0 {
            assert(before.local[0] =~= Seq::empty());
            assert(before.fresh[0] =~= Seq::empty());
        }
        assert(state.local =~= seq![
            crate::entity::allocator::fresh_descending(count as int, end),
        ]) by {
            assert(state.local[0] =~= crate::entity::allocator::fresh_descending(
                count as int,
                end,
            ));
        }
        assert(state.fresh =~= seq![crate::entity::allocator::flags(end - count, true)]) by {
            assert(state.fresh[0] =~= crate::entity::allocator::flags(end - count, true));
        }
    }
}

/// The state after one thread has recycled some entities, one after another.
pub open spec fn after_recyclings(state: AllocatorState, entities: Seq<Entity>) -> AllocatorState
    decreases entities.len(),
{
    if entities.len() == 0 {
        state
    } else {
        after_recyclings(state, entities.drop_last()).after_recycle(0, entities.last())
    }
}

/// The state after one thread has tried a number of times to reuse an entity.
pub open spec fn after_reuses(state: AllocatorState, count: nat) -> AllocatorState
    decreases count,
{
    if count == 0 {
        state
    } else {
        after_reuses(state, (count - 1) as nat).after_reserve_recycled(0)
    }
}

/// The entities that one thread gets when it reuses a number of them.
pub open spec fn reused(state: AllocatorState, count: nat) -> Seq<Entity>
    decreases count,
{
    if count == 0 {
        Seq::empty()
    } else {
        reused(state, (count - 1) as nat).push(
            after_reuses(state, (count - 1) as nat).recycled(0)->0,
        )
    }
}

proof fn recyclings_are_gathered(entities: Seq<Entity>)
    ensures
        ({
            let state = after_recyclings(AllocatorState::new_spec(), entities);
            &&& state.sized()
            &&& state.local.len() <= 1
            &&& state.recycled_entities() == entities.to_multiset()
        }),
    decreases entities.len(),
{
    let new = AllocatorState::new_spec();
    if entities.len() == 0 {
        entities.to_multiset_ensures();
        assert(new.recycled_queues() =~= Seq::empty());
        assert(new.recycled_entities() =~= entities.to_multiset());
    } else {
        let rest = entities.drop_last();
        recyclings_are_gathered(rest);
        recycling_adds_an_entity(after_recyclings(new, rest), 0, entities.last());
        rest.to_multiset_ensures();
        assert(rest.push(entities.last()) =~= entities);
    }
}

proof fn reuses_are_gathered(state: AllocatorState, count: nat)
    requires
        state.sized(),
        state.local.len() <= 1,
        count <= state.recycled_entities().len(),
    ensures
        after_reuses(state, count).sized(),
        after_reuses(state, count).local.len() <= 1,
        after_reuses(state, count).recycled_entities().add(reused(state, count).to_multiset())
            == state.recycled_entities(),
        reused(state, count).len() == count,
        forall|k: nat| k < count ==> (#[trigger] after_reuses(state, k)).recycled(0) is Some,
    decreases count,
{
    reused(state, count).to_multiset_ensures();
    if count == 0 {
        assert(reused(state, 0).to_multiset() =~= Multiset::empty());
        assert(state.recycled_entities().add(Multiset::empty()) =~= state.recycled_entities());
    } else {
        let n = (count - 1) as nat;
        let before = after_reuses(state, n);
        let after = after_reuses(state, count);
        let taken = reused(state, n);
        reuses_are_gathered(state, n);
        reusing_claims_an_entity(before, 0);
        taken.to_multiset_ensures();
        assert(before.recycled_entities().len() > 0);
        some_is_reused(before);
        let entity = before.recycled(0)->0;
        assert(reused(state, count) == taken.push(entity));
        assert(after.recycled_entities().add(reused(state, count).to_multiset())
            =~= before.recycled_entities().add(taken.to_multiset()));
    }
}

/// With one thread, whatever has been recycled can be reused.
proof fn some_is_reused(state: AllocatorState)
    requires
        state.sized(),
        state.local.len() <= 1,
    ensures
        state.recycled(0) is Some <==> state.recycled_entities().len() > 0,
{
    reusing_claims_an_entity(state, 0);
    if state.recycled(0) is None {
        let queues = state.recycled_queues();
        if queues.len() > 0 {
            assert(queues.drop_last() =~= Seq::empty());
            assert(crate::entity::allocator::gathered(queues.drop_last()) == Multiset::<
                Entity,
            >::empty());
            queues[0].to_multiset_ensures();
            assert(queues.last().len() == 0);
        }
        assert(crate::entity::allocator::gathered(queues).len() == 0);
        assert(crate::entity::allocator::gathered(state.shared).len() == 0);
    }
}

/// What one thread has recycled comes back when it reuses entities: as many times as entities
/// were recycled it gets one, those that it gets are the recycled ones in some order, with
/// their generations, none of them lost and none of them twice, and after that it gets none.
pub proof fn recycled_entities_come_back(entities: Seq<Entity>, more: nat)
    ensures
        ({
            let state = after_recyclings(AllocatorState::new_spec(), entities);
            &&& forall|k: nat|
                k < entities.len() ==> (#[trigger] after_reuses(state, k)).recycled(0) is Some
            &&& reused(state, entities.len()).len() == entities.len()
            &&& reused(state, entities.len()).to_multiset() == entities.to_multiset()
            &&& after_reuses(state, entities.len() + more).recycled(0) is None
        }),
{
    let state = after_recyclings(AllocatorState::new_spec(), entities);
    recyclings_are_gathered(entities);
    entities.to_multiset_ensures();
    reuses_are_gathered(state, entities.len());
    let empty = after_reuses(state, entities.len());
    let all = reused(state, entities.len());
    all.to_multiset_ensures();
    assert(empty.recycled_entities().len() == 0);
    assert(all.to_multiset() =~= entities.to_multiset());
    nothing_is_reused(state, entities.len(), more);
}

proof fn nothing_is_reused(state: AllocatorState, count: nat, more: nat)
    requires
        after_reuses(state, count).sized(),
        after_reuses(state, count).local.len() <= 1,
        after_reuses(state, count).recycled_entities().len() == 0,
    ensures
        after_reuses(state, count + more).sized(),
        after_reuses(state, count + more).local.len() <= 1,
        after_reuses(state, count + more).recycled_entities().len() == 0,
        after_reuses(state, count + more).recycled(0) is None,
    decreases more,
{
    if more > 0 {
        nothing_is_reused(state, count, (more - 1) as nat);
        reusing_claims_an_entity(after_reuses(state, (count + more - 1) as nat), 0);
    }
    some_is_reused(after_reuses(state, count + more));
}

} // verus!
