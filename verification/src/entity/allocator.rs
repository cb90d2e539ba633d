//! Allocation of entities.

use concurrent_queue::ConcurrentQueue;
use smallvec::SmallVec;
use thread_local::ThreadLocal;
use vstd::multiset::Multiset;
use vstd::prelude::*;

use crate::entity::Entity;

verus! {

broadcast use crate::entity::generation::group_generation;

/// The size of a block of entities in the shared queue.
pub const ENTITY_BLOCK: usize = 15;

/// The number of entities in a local queue.
///
/// This is twice the size of a block, so that alternating reservations and
/// recyclings never need the shared queue.
pub const ENTITY_LOCAL_SIZE: usize = 30;

/// The queue type of crate `concurrent_queue`. Nothing is claimed of its inside.
#[verifier::external_type_specification]
#[verifier::external_body]
#[verifier::reject_recursive_types(T)]
pub struct ExConcurrentQueue<T>(ConcurrentQueue<T>);

/// The per-thread storage type of crate `thread_local`. Nothing is claimed of its
/// inside.
#[verifier::external_type_specification]
#[verifier::external_body]
#[verifier::reject_recursive_types(T)]
pub struct ExThreadLocal<T: Send>(ThreadLocal<T>);

/// The blocks that a queue holds, the next one to be popped first.
pub uninterp spec fn queued_blocks(queue: ConcurrentQueue<[Entity; ENTITY_BLOCK]>) -> Seq<
    Seq<Entity>,
>;

/// Whether a queue has been closed.
pub uninterp spec fn queue_closed(queue: ConcurrentQueue<[Entity; ENTITY_BLOCK]>) -> bool;

/// Whether a queue was made with a limit on the number of blocks.
pub uninterp spec fn queue_bounded(queue: ConcurrentQueue<[Entity; ENTITY_BLOCK]>) -> bool;

/// `ConcurrentQueue::unbounded`: the new queue is open, has no limit and holds nothing.
#[verifier::external_body]
fn block_queue() -> (queue: ConcurrentQueue<[Entity; ENTITY_BLOCK]>)
    ensures
        queued_blocks(queue) == Seq::<Seq<Entity>>::empty(),
        !queue_closed(queue),
        !queue_bounded(queue),
{
    ConcurrentQueue::unbounded()
}

/// `ConcurrentQueue::push` on a queue without a limit: appends the block unless the
/// queue is closed, in which case the block is handed back. Such a queue is never full.
#[verifier::external_body]
fn push_block(
    queue: &mut ConcurrentQueue<[Entity; ENTITY_BLOCK]>,
    block: [Entity; ENTITY_BLOCK],
) -> (pushed: Result<(), [Entity; ENTITY_BLOCK]>)
    requires
        !queue_bounded(*old(queue)),
    ensures
        queue_closed(*final(queue)) == queue_closed(*old(queue)),
        !queue_bounded(*final(queue)),
        !queue_closed(*old(queue)) ==> pushed is Ok && queued_blocks(*final(queue))
            == queued_blocks(*old(queue)).push(block@),
        queue_closed(*old(queue)) ==> pushed is Err && pushed->Err_0 == block
            && queued_blocks(*final(queue)) == queued_blocks(*old(queue)),
{
    queue.push(block).map_err(|error| error.into_inner())
}

/// `ConcurrentQueue::pop`: takes the oldest block, if there is one.
#[verifier::external_body]
fn pop_block(queue: &mut ConcurrentQueue<[Entity; ENTITY_BLOCK]>) -> (block: Option<
    [Entity; ENTITY_BLOCK],
>)
    ensures
        queue_closed(*final(queue)) == queue_closed(*old(queue)),
        queue_bounded(*final(queue)) == queue_bounded(*old(queue)),
        queued_blocks(*old(queue)).len() == 0 ==> block is None && queued_blocks(*final(queue))
            == queued_blocks(*old(queue)),
        queued_blocks(*old(queue)).len() > 0 ==> {
            &&& block is Some
            &&& block->0@ == queued_blocks(*old(queue))[0]
            &&& queued_blocks(*final(queue)) == queued_blocks(*old(queue)).skip(1)
        },
{
    queue.pop().ok()
}

/// `ConcurrentQueue::len`: the number of blocks in the queue.
#[verifier::external_body]
fn block_count(queue: &ConcurrentQueue<[Entity; ENTITY_BLOCK]>) -> (count: usize)
    ensures
        count == queued_blocks(*queue).len(),
{
    queue.len()
}

/// The slot numbers that have been given to threads.
pub uninterp spec fn thread_slots(slots: ThreadLocal<usize>) -> Set<usize>;

/// `ThreadLocal::new`: no thread has a slot yet.
#[verifier::external_body]
pub(crate) fn no_thread_slots() -> (slots: ThreadLocal<usize>)
    ensures
        thread_slots(slots) == Set::<usize>::empty(),
{
    ThreadLocal::new()
}

/// `ThreadLocal::get_or`: returns the slot number of the calling thread. A thread
/// that has none is given `fresh`. Which of the two happens depends on the calling
/// thread and is left open.
#[verifier::external_body]
pub(crate) fn current_thread_slot(slots: &mut ThreadLocal<usize>, fresh: usize) -> (slot: usize)
    ensures
        thread_slots(*old(slots)).contains(slot) && thread_slots(*final(slots)) == thread_slots(
            *old(slots),
        ) || slot == fresh && thread_slots(*final(slots)) == thread_slots(*old(slots)).insert(
            fresh,
        ),
{
    *slots.get_or(|| fresh)
}

/// The queue of entities that belongs to one thread.
#[verifier::external_body]
pub struct LocalEntities {
    entities: SmallVec<[Entity; ENTITY_LOCAL_SIZE]>,
}

/// The entities in a local queue, the next one to be reserved last.
pub uninterp spec fn local_entities(local: LocalEntities) -> Seq<Entity>;

impl LocalEntities {
    /// `SmallVec::new`: an empty queue.
    #[verifier::external_body]
    fn new() -> (local: Self)
        ensures
            local_entities(local) == Seq::<Entity>::empty(),
    {
        LocalEntities { entities: SmallVec::new() }
    }

    /// `SmallVec::len`: the number of entities in the queue.
    #[verifier::external_body]
    fn len(&self) -> (len: usize)
        ensures
            len == local_entities(*self).len(),
    {
        self.entities.len()
    }

    /// `SmallVec::push`: appends an entity. There is room in the vector itself, so
    /// nothing is allocated.
    #[verifier::external_body]
    fn push(&mut self, entity: Entity)
        requires
            local_entities(*old(self)).len() < ENTITY_LOCAL_SIZE,
        ensures
            local_entities(*final(self)) == local_entities(*old(self)).push(entity),
    {
        self.entities.push(entity)
    }

    /// `SmallVec::pop`: removes the last entity, if there is one.
    #[verifier::external_body]
    fn pop(&mut self) -> (entity: Option<Entity>)
        ensures
            local_entities(*old(self)).len() == 0 ==> entity is None && local_entities(*final(self))
                == local_entities(*old(self)),
            local_entities(*old(self)).len() > 0 ==> entity == Some(
                local_entities(*old(self)).last(),
            ) && local_entities(*final(self)) == local_entities(*old(self)).drop_last(),
    {
        self.entities.pop()
    }

    /// `SmallVec::remove`: removes the entity at a position, and closes the gap.
    #[verifier::external_body]
    fn remove(&mut self, position: usize) -> (entity: Entity)
        requires
            position < local_entities(*old(self)).len(),
        ensures
            entity == local_entities(*old(self))[position as int],
            local_entities(*final(self)) == local_entities(*old(self)).remove(position as int),
    {
        self.entities.remove(position)
    }

    /// `SmallVec::extend_from_slice`: appends a block. There is room in the vector
    /// itself, so nothing is allocated.
    #[verifier::external_body]
    fn extend_from_block(&mut self, block: &[Entity; ENTITY_BLOCK])
        requires
            local_entities(*old(self)).len() + ENTITY_BLOCK <= ENTITY_LOCAL_SIZE,
        ensures
            local_entities(*final(self)) == local_entities(*old(self)) + block@,
    {
        self.entities.extend_from_slice(block)
    }

    /// `last_chunk` of the slice that a `SmallVec` dereferences to: copies the last
    /// block of the queue.
    #[verifier::external_body]
    fn last_block(&self) -> (block: [Entity; ENTITY_BLOCK])
        requires
            local_entities(*self).len() >= ENTITY_BLOCK,
        ensures
            block@ == local_entities(*self).skip(local_entities(*self).len() - ENTITY_BLOCK),
    {
        *self.entities.last_chunk().unwrap()
    }

    /// `SmallVec::truncate`: keeps the first `len` entities.
    #[verifier::external_body]
    fn truncate(&mut self, len: usize)
        requires
            len <= local_entities(*old(self)).len(),
        ensures
            local_entities(*final(self)) == local_entities(*old(self)).take(len as int),
    {
        self.entities.truncate(len)
    }
}

/// What an [`EntityAllocator`] holds.
#[verifier::ext_equal]
pub struct AllocatorState {
    /// The blocks that all threads share, the next one to be taken first.
    pub shared: Seq<Seq<Entity>>,
    /// The queue of each thread slot, the next entity to be reserved last.
    pub local: Seq<Seq<Entity>>,
    /// For each entity in the queues of thread slots, whether its index has never been
    /// handed out. The others have been recycled, as all in the shared blocks have.
    pub fresh: Seq<Seq<bool>>,
    /// The first index that has never been allocated.
    pub next: int,
}

/// The first entities of the indices from `first` up to, not including, `end`, the
/// largest index first.
pub open spec fn fresh_descending(first: int, end: int) -> Seq<Entity> {
    Seq::new((end - first) as nat, |i: int| Entity::fresh((end - 1 - i) as u32))
}

/// As many equal flags as a number says.
pub open spec fn flags(count: int, value: bool) -> Seq<bool> {
    Seq::new(count as nat, |i: int| value)
}

/// The number of flags that are set.
pub open spec fn set_flags(all: Seq<bool>) -> int
    decreases all.len(),
{
    if all.len() == 0 {
        0
    } else {
        set_flags(all.drop_last()) + (if all.last() {
            1int
        } else {
            0
        })
    }
}

/// The number of flags that are set in several sequences.
pub open spec fn all_set_flags(all: Seq<Seq<bool>>) -> int
    decreases all.len(),
{
    if all.len() == 0 {
        0
    } else {
        all_set_flags(all.drop_last()) + set_flags(all.last())
    }
}

/// Those of some entities whose flag is not set.
pub open spec fn unflagged(queue: Seq<Entity>, all: Seq<bool>) -> Seq<Entity>
    decreases queue.len(),
{
    if queue.len() == 0 {
        Seq::empty()
    } else if all.last() {
        unflagged(queue.drop_last(), all.drop_last())
    } else {
        unflagged(queue.drop_last(), all.drop_last()).push(queue.last())
    }
}

/// The position of the last flag that is not set, or -1 if there is none.
pub open spec fn last_unset(all: Seq<bool>) -> int
    decreases all.len(),
{
    if all.len() == 0 {
        -1
    } else if all.last() {
        last_unset(all.drop_last())
    } else {
        all.len() - 1
    }
}

/// The entities of several queues.
pub open spec fn gathered(queues: Seq<Seq<Entity>>) -> Multiset<Entity>
    decreases queues.len(),
{
    if queues.len() == 0 {
        Multiset::empty()
    } else {
        gathered(queues.drop_last()).add(queues.last().to_multiset())
    }
}

impl AllocatorState {
    /// The state of an allocator that has allocated nothing.
    pub open spec fn new_spec() -> Self {
        AllocatorState {
            shared: Seq::empty(),
            local: Seq::empty(),
            fresh: Seq::empty(),
            next: 0,
        }
    }

    /// Whether a calling thread can have the given slot: one that is in use, or the
    /// next one.
    pub open spec fn has_slot(self, slot: int) -> bool {
        0 <= slot <= self.local.len()
    }

    /// The state in which the given slot is in use.
    pub open spec fn with_slot(self, slot: int) -> Self {
        if slot == self.local.len() {
            AllocatorState {
                local: self.local.push(Seq::empty()),
                fresh: self.fresh.push(Seq::empty()),
                ..self
            }
        } else {
            self
        }
    }

    /// The state in which an empty local queue has been refilled from the shared
    /// blocks.
    pub open spec fn refilled(self, slot: int) -> Self {
        let state = self.with_slot(slot);
        if state.local[slot].len() == 0 && state.shared.len() > 0 {
            AllocatorState {
                shared: state.shared.skip(1),
                local: state.local.update(slot, state.shared[0]),
                fresh: state.fresh.update(slot, flags(ENTITY_BLOCK as int, false)),
                ..state
            }
        } else {
            state
        }
    }

    /// The entity that a thread gets without allocating an index.
    pub open spec fn at_hand(self, slot: int) -> Option<Entity> {
        let local = self.refilled(slot).local[slot];
        if local.len() == 0 {
            None
        } else {
            Some(local.last())
        }
    }

    /// The state after a thread has tried to get an entity without allocating an
    /// index.
    pub open spec fn after_take(self, slot: int) -> Self {
        let state = self.refilled(slot);
        if state.local[slot].len() == 0 {
            state
        } else {
            AllocatorState {
                local: state.local.update(slot, state.local[slot].drop_last()),
                fresh: state.fresh.update(slot, state.fresh[slot].drop_last()),
                ..state
            }
        }
    }

    /// The state in which a local queue that holds nothing but fresh indices has got a shared
    /// block.
    pub open spec fn restocked(self, slot: int) -> Self {
        let state = self.with_slot(slot);
        if last_unset(state.fresh[slot]) < 0 && state.shared.len() > 0 {
            AllocatorState {
                shared: state.shared.skip(1),
                local: state.local.update(slot, state.local[slot] + state.shared[0]),
                fresh: state.fresh.update(
                    slot,
                    state.fresh[slot] + flags(ENTITY_BLOCK as int, false),
                ),
                ..state
            }
        } else {
            state
        }
    }

    /// The entity that a thread reuses: the last one in its queue that has been recycled.
    pub open spec fn recycled(self, slot: int) -> Option<Entity> {
        let state = self.restocked(slot);
        let position = last_unset(state.fresh[slot]);
        if position < 0 {
            None
        } else {
            Some(state.local[slot][position])
        }
    }

    /// The state after a thread has tried to reuse an entity.
    pub open spec fn after_reserve_recycled(self, slot: int) -> Self {
        let state = self.restocked(slot);
        let position = last_unset(state.fresh[slot]);
        if position < 0 {
            state
        } else {
            AllocatorState {
                local: state.local.update(slot, state.local[slot].remove(position)),
                fresh: state.fresh.update(slot, state.fresh[slot].remove(position)),
                ..state
            }
        }
    }

    /// The number of indices that wait in queues and have never been handed out.
    pub open spec fn fresh_count(self) -> int {
        all_set_flags(self.fresh)
    }

    /// The number of indices that have ever been handed out.
    pub open spec fn handed_out_count(self) -> int {
        self.next - self.fresh_count()
    }

    /// The entities in the queue of each thread slot that have been recycled.
    pub open spec fn recycled_queues(self) -> Seq<Seq<Entity>> {
        Seq::new(self.local.len(), |i: int| unflagged(self.local[i], self.fresh[i]))
    }

    /// The entities that have been recycled and not been reserved since.
    pub open spec fn recycled_entities(self) -> Multiset<Entity> {
        gathered(self.recycled_queues()).add(gathered(self.shared))
    }

    /// The number of extra indices that a thread allocates to refill its queue.
    pub open spec fn refill(self, slot: int) -> int {
        let len = self.with_slot(slot).local[slot].len();
        if len < ENTITY_BLOCK {
            ENTITY_BLOCK - len
        } else {
            0
        }
    }

    /// The state after a thread has allocated `count` indices.
    pub open spec fn after_reserve_batch(self, slot: int, count: int) -> Self {
        let state = self.with_slot(slot);
        let end = self.next + count + self.refill(slot);
        AllocatorState {
            local: state.local.update(
                slot,
                state.local[slot] + fresh_descending(self.next + count, end),
            ),
            fresh: state.fresh.update(slot, state.fresh[slot] + flags(self.refill(slot), true)),
            next: end,
            ..state
        }
    }

    /// The entity that a thread reserves.
    pub open spec fn reserved(self, slot: int) -> Entity {
        match self.at_hand(slot) {
            Some(entity) => entity,
            None => Entity::fresh(self.next as u32),
        }
    }

    /// The state after a thread has reserved one entity.
    pub open spec fn after_reserve(self, slot: int) -> Self {
        match self.at_hand(slot) {
            Some(_) => self.after_take(slot),
            None => self.after_take(slot).after_reserve_batch(slot, 1),
        }
    }

    /// Whether there are indices left to reserve `count` entities that are not
    /// recycled, on any thread.
    pub open spec fn has_room(self, count: int) -> bool {
        self.next + count + ENTITY_BLOCK <= u32::MAX
    }

    /// The state after a thread has queued an entity for reuse.
    pub open spec fn after_recycle(self, slot: int, entity: Entity) -> Self {
        let state = self.with_slot(slot);
        let local = state.local[slot];
        if local.len() == ENTITY_LOCAL_SIZE {
            AllocatorState {
                shared: state.shared.push(local.skip(ENTITY_BLOCK as int)),
                local: state.local.update(slot, local.take(ENTITY_BLOCK as int).push(entity)),
                fresh: state.fresh.update(
                    slot,
                    state.fresh[slot].take(ENTITY_BLOCK as int).push(false),
                ),
                ..state
            }
        } else {
            AllocatorState {
                local: state.local.update(slot, local.push(entity)),
                fresh: state.fresh.update(slot, state.fresh[slot].push(false)),
                ..state
            }
        }
    }

    /// The state after several entities have been queued for reuse, one after
    /// another, by threads with the given slots.
    pub open spec fn after_recycle_all(self, slots: Seq<int>, entities: Seq<Entity>) -> Self
        decreases entities.len(),
    {
        if entities.len() == 0 {
            self
        } else {
            self.after_recycle_all(slots.drop_last(), entities.drop_last()).after_recycle(
                slots.last(),
                entities.last(),
            )
        }
    }

    /// Whether threads can have the given slots when they queue the given entities
    /// for reuse one after another.
    pub open spec fn slots_fit(self, slots: Seq<int>, entities: Seq<Entity>) -> bool
        decreases entities.len(),
    {
        &&& slots.len() == entities.len()
        &&& entities.len() > 0 ==> {
            &&& self.slots_fit(slots.drop_last(), entities.drop_last())
            &&& self.after_recycle_all(slots.drop_last(), entities.drop_last()).has_slot(
                slots.last(),
            )
        }
    }

    /// Queueing one more entity for reuse.
    pub(crate) proof fn slots_fit_push(
        self,
        slots: Seq<int>,
        entities: Seq<Entity>,
        slot: int,
        entity: Entity,
    )
        requires
            self.slots_fit(slots, entities),
            self.after_recycle_all(slots, entities).has_slot(slot),
        ensures
            self.slots_fit(slots.push(slot), entities.push(entity)),
            self.after_recycle_all(slots.push(slot), entities.push(entity))
                == self.after_recycle_all(slots, entities).after_recycle(slot, entity),
    {
        assert(slots.push(slot).drop_last() =~= slots);
        assert(entities.push(entity).drop_last() =~= entities);
    }

    /// Whether the queues have the sizes that they are kept at, and fresh indices stand in
    /// the first block of a queue.
    pub open spec fn sized(self) -> bool {
        &&& self.fresh.len() == self.local.len()
        &&& forall|i: int|
            0 <= i < self.local.len() ==> (#[trigger] self.fresh[i]).len() == self.local[i].len()
        &&& forall|i: int, j: int|
            0 <= i < self.local.len() && ENTITY_BLOCK <= j < self.local[i].len()
                ==> !#[trigger] self.fresh[i][j]
        &&& self.fresh_count() <= self.next
        &&& forall|i: int|
            0 <= i < self.local.len() ==> (#[trigger] self.local[i]).len() <= ENTITY_LOCAL_SIZE
        &&& forall|i: int|
            0 <= i < self.shared.len() ==> (#[trigger] self.shared[i]).len() == ENTITY_BLOCK
    }
}

/// Allocates generational [`Entity`] values and facilitates their reuse.
///
/// Each thread keeps a small queue of its own. Full queues hand blocks of entities
/// to a shared queue, and empty ones take them from there.
pub struct EntityAllocator {
    pub(crate) recycled: ConcurrentQueue<[Entity; ENTITY_BLOCK]>,
    pub(crate) slots: ThreadLocal<usize>,
    pub(crate) local: Vec<LocalEntities>,
    pub(crate) fresh: Vec<Vec<bool>>,
    pub(crate) next_entity_id: u32,
}

impl View for EntityAllocator {
    type V = AllocatorState;

    open(crate) spec fn view(&self) -> AllocatorState {
        AllocatorState {
            shared: queued_blocks(self.recycled),
            local: Seq::new(self.local@.len(), |i: int| local_entities(self.local@[i])),
            fresh: Seq::new(self.fresh@.len(), |i: int| self.fresh@[i]@),
            next: self.next_entity_id as int,
        }
    }
}

impl EntityAllocator {
    /// Whether the slot of every thread is in use, the shared queue accepts blocks
    /// and every queue has a proper size.
    pub open(crate) spec fn wf(self) -> bool {
        &&& forall|slot: usize| #[trigger]
            thread_slots(self.slots).contains(slot) ==> slot < self.local@.len()
        &&& !queue_closed(self.recycled)
        &&& !queue_bounded(self.recycled)
        &&& self@.sized()
    }

    /// Creates an allocator that has allocated nothing.
    pub fn new() -> (allocator: Self)
        ensures
            allocator.wf(),
            allocator@ == AllocatorState::new_spec(),
    {
        let allocator = EntityAllocator {
            recycled: block_queue(),
            slots: no_thread_slots(),
            local: Vec::new(),
            fresh: Vec::new(),
            next_entity_id: 0,
        };
        assert(allocator@ =~= AllocatorState::new_spec());
        allocator
    }

    /// Returns the number of indices that have ever been handed out.
    pub fn total_count(&self) -> (count: u32)
        requires
            self.wf(),
        ensures
            count == self@.handed_out_count(),
    {
        let mut count: u32 = self.next_entity_id;
        let mut i: usize = 0;
        assert(self@.fresh.take(0) =~= Seq::empty());
        while i < self.fresh.len()
            invariant
                self.wf(),
                i <= self.fresh@.len(),
                count == self@.next - all_set_flags(self@.fresh.take(i as int)),
            decreases self.fresh@.len() - i,
        {
            let fresh: usize = count_set_flags(&self.fresh[i]);
            proof {
                assert(self@.fresh.take(i + 1).drop_last() =~= self@.fresh.take(i as int));
                assert(self@.fresh.take(i + 1).last() == self.fresh@[i as int]@);
                fewer_set_flags(self@.fresh, i + 1);
            }
            count = count - fresh as u32;
            i = i + 1;
        }
        assert(self@.fresh.take(i as int) =~= self@.fresh);
        count
    }

    /// Returns the first index that has never been allocated, not even to wait in a queue.
    pub(crate) fn next_index(&self) -> (next: u32)
        ensures
            next == self@.next,
    {
        self.next_entity_id
    }

    /// Returns whether there are indices left to allocate `count` of them, whichever thread
    /// asks.
    pub fn can_reserve(&self, count: u32) -> (can: bool)
        ensures
            can == self@.has_room(count as int),
    {
        self.next_entity_id as u64 + count as u64 + ENTITY_BLOCK as u64 <= u32::MAX as u64
    }

    /// Returns the slot of the calling thread, and makes a queue for it if it has
    /// none.
    pub(crate) fn local(&mut self) -> (slot: usize)
        requires
            old(self).wf(),
        ensures
            final(self).wf(),
            old(self)@.has_slot(slot as int),
            final(self)@ == old(self)@.with_slot(slot as int),
            slot < final(self).local@.len(),
    {
        let fresh: usize = self.local.len();
        let slot: usize = current_thread_slot(&mut self.slots, fresh);
        if slot == fresh {
            self.local.push(LocalEntities::new());
            self.fresh.push(Vec::new());
            proof {
                all_set_flags_push(old(self)@.fresh, Seq::empty());
            }
        }
        assert(self@ =~= old(self)@.with_slot(slot as int));
        slot
    }

    /// Reserves an entity, either by reusing one or by allocating an index.
    pub fn reserve(&mut self) -> (entity: Entity)
        requires
            old(self).wf(),
            forall|slot: int|
                old(self)@.has_slot(slot) && #[trigger] old(self)@.at_hand(slot) is None
                    ==> old(self)@.has_room(1),
        ensures
            final(self).wf(),
            exists|slot: int|
                {
                    &&& #[trigger] old(self)@.has_slot(slot)
                    &&& entity == old(self)@.reserved(slot)
                    &&& final(self)@ == old(self)@.after_reserve(slot)
                },
    {
        let slot: usize = self.local();
        let ghost state = self@;
        let recycled = self.take_at(slot);
        proof {
            same_slot(old(self)@, slot as int);
            assert(old(self)@.at_hand(slot as int) == recycled);
        }
        match recycled {
            Some(entity) => entity,
            None => Entity::from_raw(self.reserve_batch_at(slot, 1)),
        }
    }

    /// Reserves an entity by reusing one that has been recycled. Returns `None` if the
    /// calling thread finds none.
    pub fn reserve_recycled(&mut self) -> (entity: Option<Entity>)
        requires
            old(self).wf(),
        ensures
            final(self).wf(),
            exists|slot: int|
                {
                    &&& #[trigger] old(self)@.has_slot(slot)
                    &&& entity == old(self)@.recycled(slot)
                    &&& final(self)@ == old(self)@.after_reserve_recycled(slot)
                },
    {
        let slot: usize = self.local();
        proof {
            same_slot(old(self)@, slot as int);
        }
        let ghost used = self@;
        let mut position: Option<usize> = find_last_unset(&self.fresh[slot]);
        if position.is_none() {
            proof {
                no_more_than_a_block(used, slot as int);
            }
            if let Some(block) = pop_block(&mut self.recycled) {
                self.local[slot].extend_from_block(&block);
                push_flags(&mut self.fresh[slot], ENTITY_BLOCK, false);
                position = find_last_unset(&self.fresh[slot]);
            }
        }
        assert(self@ =~= used.restocked(slot as int));
        proof {
            restocked_is_sized(used, slot as int);
            last_unset_is_unset(self@.fresh[slot as int]);
        }
        let ghost stocked = self@;
        match position {
            Some(position) => {
                let entity = self.local[slot].remove(position);
                self.fresh[slot].remove(position);
                assert(self@ =~= used.after_reserve_recycled(slot as int));
                proof {
                    removed_is_sized(stocked, slot as int, position as int);
                }
                Some(entity)
            },
            None => None,
        }
    }

    /// Takes the next entity that waits for the thread that has the given slot, be it a
    /// recycled one or a fresh index. Returns `None` if there is none.
    pub(crate) fn take_at(&mut self, slot: usize) -> (entity: Option<Entity>)
        requires
            old(self).wf(),
            slot < old(self).local@.len(),
        ensures
            final(self).wf(),
            final(self).local@.len() == old(self).local@.len(),
            entity == old(self)@.at_hand(slot as int),
            final(self)@ == old(self)@.after_take(slot as int),
    {
        assert(self@.local[slot as int] == local_entities(self.local@[slot as int]));
        assert(self@.fresh[slot as int].len() == self@.local[slot as int].len());
        assert(self@.fresh[slot as int] == self.fresh@[slot as int]@);
        // If the local queue is empty, try to refill it from the shared one.
        if self.local[slot].len() == 0 {
            if let Some(block) = pop_block(&mut self.recycled) {
                self.local[slot].extend_from_block(&block);
                push_flags(&mut self.fresh[slot], ENTITY_BLOCK, false);
                assert(local_entities(self.local@[slot as int]) =~= block@);
                assert(self.fresh@[slot as int]@ =~= flags(ENTITY_BLOCK as int, false));
            }
        }
        assert(self@ =~= old(self)@.refilled(slot as int));
        let ghost refilled = self@;
        proof {
            refilled_is_sized(old(self)@, slot as int);
            taken_is_sized(refilled, slot as int);
        }
        let entity = self.local[slot].pop();
        self.fresh[slot].pop();
        assert(refilled.fresh.update(slot as int, refilled.fresh[slot as int]) =~= refilled.fresh);
        assert(refilled.local.update(slot as int, refilled.local[slot as int]) =~= refilled.local);
        assert(self@ =~= old(self)@.after_take(slot as int));
        entity
    }

    /// Allocates `count` consecutive indices and returns the first one.
    ///
    /// This also refills the queue of the calling thread to a full block.
    pub fn reserve_batch(&mut self, count: u32) -> (first: u32)
        requires
            old(self).wf(),
            old(self)@.has_room(count as int),
        ensures
            final(self).wf(),
            first == old(self)@.next,
            exists|slot: int|
                {
                    &&& #[trigger] old(self)@.has_slot(slot)
                    &&& final(self)@ == old(self)@.after_reserve_batch(slot, count as int)
                },
    {
        let slot: usize = self.local();
        proof {
            same_slot(old(self)@, slot as int);
        }
        self.reserve_batch_at(slot, count)
    }

    /// [`Self::reserve_batch`] for the thread that has the given slot.
    pub(crate) fn reserve_batch_at(&mut self, slot: usize, count: u32) -> (first: u32)
        requires
            old(self).wf(),
            slot < old(self).local@.len(),
            old(self)@.has_room(count as int),
        ensures
            final(self).wf(),
            first == old(self)@.next,
            final(self)@ == old(self)@.after_reserve_batch(slot as int, count as int),
    {
        assert(self@.local[slot as int] == local_entities(self.local@[slot as int]));
        let len: usize = self.local[slot].len();
        let extra: u32 = ENTITY_BLOCK.saturating_sub(len) as u32;
        let next: u32 = self.next_entity_id;
        self.next_entity_id = next + (count + extra);
        // Largest index first, so that they are handed out in increasing order.
        let start: u32 = next + count;
        let mut end: u32 = start + extra;
        let ghost kept = local_entities(self.local@[slot as int]);
        assert(kept + fresh_descending(start + extra, start + extra) =~= kept);
        while end > start
            invariant
                start <= end <= start + extra,
                start + extra <= u32::MAX,
                slot < self.local@.len(),
                kept.len() + extra <= ENTITY_LOCAL_SIZE || extra == 0,
                self.local@.len() == old(self).local@.len(),
                forall|i: int|
                    0 <= i < self.local@.len() && i != slot ==> self.local@[i]
                        == old(self).local@[i],
                self.recycled == old(self).recycled,
                self.fresh == old(self).fresh,
                self.slots == old(self).slots,
                self.next_entity_id == start + extra,
                local_entities(self.local@[slot as int]) == kept + fresh_descending(
                    end as int,
                    start + extra,
                ),
            decreases end - start,
        {
            end = end - 1;
            self.local[slot].push(Entity::from_raw(end));
            assert(local_entities(self.local@[slot as int]) =~= kept + fresh_descending(
                end as int,
                start + extra,
            ));
        }
        push_flags(&mut self.fresh[slot], extra as usize, true);
        assert(self@ =~= old(self)@.after_reserve_batch(slot as int, count as int));
        proof {
            reserved_batch_is_sized(old(self)@, slot as int, count as int);
        }
        next
    }

    /// Queues an entity for reuse.
    pub fn recycle(&mut self, entity: Entity)
        requires
            old(self).wf(),
        ensures
            final(self).wf(),
            exists|slot: int|
                {
                    &&& #[trigger] old(self)@.has_slot(slot)
                    &&& final(self)@ == old(self)@.after_recycle(slot, entity)
                },
    {
        let slot: usize = self.local();
        proof {
            same_slot(old(self)@, slot as int);
        }
        let ghost state = self@;
        assert(self@.local[slot as int] == local_entities(self.local@[slot as int]));
        if self.local[slot].len() == ENTITY_LOCAL_SIZE {
            let block = self.local[slot].last_block();
            let pushed = push_block(&mut self.recycled, block);
            assert(pushed is Ok);
            self.local[slot].truncate(ENTITY_LOCAL_SIZE - ENTITY_BLOCK);
            self.fresh[slot].truncate(ENTITY_LOCAL_SIZE - ENTITY_BLOCK);
        }
        self.local[slot].push(entity);
        self.fresh[slot].push(false);
        assert(self@ =~= state.after_recycle(slot as int, entity));
        proof {
            recycled_is_sized(state, slot as int, entity);
        }
    }

    /// Returns the number of entities that have been recycled and not been reserved since, at
    /// most `usize::MAX`.
    pub fn recycled_count(&self) -> (count: usize)
        requires
            self.wf(),
        ensures
            count == (if self@.recycled_entities().len() <= usize::MAX {
                self@.recycled_entities().len() as int
            } else {
                usize::MAX as int
            }),
    {
        let blocks: usize = block_count(&self.recycled);
        let mut count: usize = if blocks <= usize::MAX / ENTITY_BLOCK {
            blocks * ENTITY_BLOCK
        } else {
            usize::MAX
        };
        let ghost queues = self@.recycled_queues();
        let ghost shared = gathered(self@.shared).len() as int;
        proof {
            gathered_blocks(self@.shared);
        }
        assert(queues.take(0) =~= Seq::empty());
        let mut i: usize = 0;
        while i < self.local.len()
            invariant
                self.wf(),
                queues == self@.recycled_queues(),
                shared == gathered(self@.shared).len(),
                i <= self.local@.len(),
                count == (if shared + gathered(queues.take(i as int)).len() <= usize::MAX {
                    shared + gathered(queues.take(i as int)).len()
                } else {
                    usize::MAX as int
                }),
            decreases self.local@.len() - i,
        {
            let len: usize = self.local[i].len();
            let fresh: usize = count_set_flags(&self.fresh[i]);
            proof {
                assert(queues.take(i + 1).drop_last() =~= queues.take(i as int));
                assert(self@.fresh[i as int].len() == self@.local[i as int].len());
                unflagged_len(self@.local[i as int], self@.fresh[i as int]);
                queues[i as int].to_multiset_ensures();
            }
            count = count.saturating_add(len - fresh);
            i = i + 1;
        }
        assert(queues.take(i as int) =~= queues);
        count
    }
}

/// Appends as many equal flags as a number says.
fn push_flags(all: &mut Vec<bool>, count: usize, value: bool)
    ensures
        final(all)@ == old(all)@ + flags(count as int, value),
{
    let mut i: usize = 0;
    assert(all@ =~= old(all)@ + flags(0, value));
    while i < count
        invariant
            i <= count,
            all@ == old(all)@ + flags(i as int, value),
        decreases count - i,
    {
        all.push(value);
        i = i + 1;
        assert(all@ =~= old(all)@ + flags(i as int, value));
    }
}

/// Returns the number of flags that are set.
fn count_set_flags(all: &Vec<bool>) -> (count: usize)
    ensures
        count == set_flags(all@),
        count <= all@.len(),
{
    let mut count: usize = 0;
    let mut i: usize = 0;
    while i < all.len()
        invariant
            i <= all@.len(),
            count <= i,
            count == set_flags(all@.take(i as int)),
        decreases all@.len() - i,
    {
        assert(all@.take(i + 1).drop_last() =~= all@.take(i as int));
        if all[i] {
            count = count + 1;
        }
        i = i + 1;
    }
    assert(all@.take(i as int) =~= all@);
    count
}

/// Returns the position of the last flag that is not set.
fn find_last_unset(all: &Vec<bool>) -> (position: Option<usize>)
    ensures
        position is None ==> last_unset(all@) < 0,
        position matches Some(i) ==> last_unset(all@) == i,
        position matches Some(i) ==> i < all@.len(),
{
    let mut i: usize = all.len();
    assert(all@.take(i as int) =~= all@);
    while i > 0
        invariant
            i <= all@.len(),
            last_unset(all@.take(i as int)) == last_unset(all@),
        decreases i,
    {
        assert(all@.take(i as int).drop_last() =~= all@.take(i - 1));
        if !all[i - 1] {
            return Some(i - 1);
        }
        i = i - 1;
    }
    None
}

/// The last flag that is not set is not set, and those after it are.
pub(crate) proof fn last_unset_is_unset(all: Seq<bool>)
    ensures
        -1 <= last_unset(all) < all.len(),
        last_unset(all) >= 0 ==> !all[last_unset(all)],
        forall|j: int| last_unset(all) < j < all.len() ==> #[trigger] all[j],
    decreases all.len(),
{
    if all.len() > 0 {
        last_unset_is_unset(all.drop_last());
        assert forall|j: int| last_unset(all) < j < all.len() implies #[trigger] all[j] by {
            if j < all.len() - 1 {
                assert(all.drop_last()[j]);
            }
        }
    }
}

proof fn set_flags_concat(a: Seq<bool>, b: Seq<bool>)
    ensures
        set_flags(a + b) == set_flags(a) + set_flags(b),
        0 <= set_flags(b) <= b.len(),
    decreases b.len(),
{
    if b.len() == 0 {
        assert(a + b =~= a);
    } else {
        assert((a + b).drop_last() =~= a + b.drop_last());
        set_flags_concat(a, b.drop_last());
    }
}

pub(crate) proof fn set_flags_equal(count: int, value: bool)
    requires
        0 <= count,
    ensures
        set_flags(flags(count, value)) == (if value {
            count
        } else {
            0
        }),
    decreases count,
{
    if count > 0 {
        assert(flags(count, value).drop_last() =~= flags(count - 1, value));
        set_flags_equal(count - 1, value);
    }
}

proof fn unset_flags(all: Seq<bool>)
    requires
        forall|i: int| 0 <= i < all.len() ==> !#[trigger] all[i],
    ensures
        set_flags(all) == 0,
    decreases all.len(),
{
    if all.len() > 0 {
        unset_flags(all.drop_last());
    }
}

proof fn set_flags_remove(all: Seq<bool>, position: int)
    requires
        0 <= position < all.len(),
        !all[position],
    ensures
        set_flags(all.remove(position)) == set_flags(all),
    decreases all.len(),
{
    if position == all.len() - 1 {
        assert(all.remove(position) =~= all.drop_last());
    } else {
        assert(all.remove(position).drop_last() =~= all.drop_last().remove(position));
        set_flags_remove(all.drop_last(), position);
    }
}

pub(crate) proof fn all_set_flags_push(all: Seq<Seq<bool>>, last: Seq<bool>)
    ensures
        all_set_flags(all.push(last)) == all_set_flags(all) + set_flags(last),
{
    assert(all.push(last).drop_last() =~= all);
}

proof fn all_set_flags_update(all: Seq<Seq<bool>>, k: int, new: Seq<bool>)
    requires
        0 <= k < all.len(),
    ensures
        all_set_flags(all.update(k, new)) == all_set_flags(all) - set_flags(all[k]) + set_flags(
            new,
        ),
    decreases all.len(),
{
    if k == all.len() - 1 {
        assert(all.update(k, new).drop_last() =~= all.drop_last());
    } else {
        assert(all.update(k, new).drop_last() =~= all.drop_last().update(k, new));
        all_set_flags_update(all.drop_last(), k, new);
    }
}

proof fn fewer_set_flags(all: Seq<Seq<bool>>, n: int)
    requires
        0 <= n <= all.len(),
    ensures
        0 <= all_set_flags(all.take(n)) <= all_set_flags(all),
    decreases all.len(),
{
    if all.len() == 0 {
        assert(all.take(n) =~= all);
    } else {
        set_flags_concat(Seq::empty(), all.last());
        if n == all.len() {
            assert(all.take(n) =~= all);
            fewer_set_flags(all.drop_last(), n - 1);
        } else {
            assert(all.drop_last().take(n) =~= all.take(n));
            fewer_set_flags(all.drop_last(), n);
        }
    }
}

/// A queue that holds nothing but fresh indices is not larger than a block.
proof fn no_more_than_a_block(state: AllocatorState, slot: int)
    requires
        state.sized(),
        0 <= slot < state.local.len(),
        last_unset(state.fresh[slot]) < 0,
    ensures
        state.local[slot].len() <= ENTITY_BLOCK,
{
    last_unset_is_unset(state.fresh[slot]);
    if state.local[slot].len() > ENTITY_BLOCK {
        assert(state.fresh[slot][ENTITY_BLOCK as int]);
    }
}

pub(crate) proof fn restocked_is_sized(state: AllocatorState, slot: int)
    requires
        state.sized(),
        0 <= slot < state.local.len(),
    ensures
        state.restocked(slot).sized(),
        state.restocked(slot).fresh_count() == state.fresh_count(),
        state.restocked(slot).local.len() == state.local.len(),
{
    let after = state.restocked(slot);
    if last_unset(state.fresh[slot]) < 0 && state.shared.len() > 0 {
        no_more_than_a_block(state, slot);
        set_flags_equal(ENTITY_BLOCK as int, false);
        set_flags_concat(state.fresh[slot], flags(ENTITY_BLOCK as int, false));
        all_set_flags_update(state.fresh, slot, after.fresh[slot]);
        last_unset_is_unset(state.fresh[slot]);
        assert forall|i: int| 0 <= i < after.local.len() implies (#[trigger] after.local[i]).len()
            <= ENTITY_LOCAL_SIZE && after.fresh[i].len() == after.local[i].len() by {
            assert(state.fresh[i].len() == state.local[i].len());
            assert(state.shared[0].len() == ENTITY_BLOCK);
        }
        assert forall|i: int, j: int|
            0 <= i < after.local.len() && ENTITY_BLOCK <= j < after.local[i].len() implies
            !#[trigger] after.fresh[i][j] by {
            assert(state.fresh[i].len() == state.local[i].len());
            if i == slot && j < state.fresh[i].len() {
                assert(!state.fresh[i][j]);
            } else if i != slot {
                assert(!state.fresh[i][j]);
            }
        }
        assert forall|i: int| 0 <= i < after.shared.len() implies (
        #[trigger] after.shared[i]).len() == ENTITY_BLOCK by {
            assert(state.shared[i + 1].len() == ENTITY_BLOCK);
        }
    }
}

pub(crate) proof fn removed_is_sized(state: AllocatorState, slot: int, position: int)
    requires
        state.sized(),
        0 <= slot < state.local.len(),
        0 <= position < state.local[slot].len(),
        !state.fresh[slot][position],
    ensures
        (AllocatorState {
            local: state.local.update(slot, state.local[slot].remove(position)),
            fresh: state.fresh.update(slot, state.fresh[slot].remove(position)),
            ..state
        }).sized(),
        all_set_flags(state.fresh.update(slot, state.fresh[slot].remove(position)))
            == state.fresh_count(),
{
    let after = AllocatorState {
        local: state.local.update(slot, state.local[slot].remove(position)),
        fresh: state.fresh.update(slot, state.fresh[slot].remove(position)),
        ..state
    };
    assert(state.fresh[slot].len() == state.local[slot].len());
    set_flags_remove(state.fresh[slot], position);
    all_set_flags_update(state.fresh, slot, state.fresh[slot].remove(position));
    assert forall|i: int| 0 <= i < after.local.len() implies (#[trigger] after.local[i]).len()
        <= ENTITY_LOCAL_SIZE && after.fresh[i].len() == after.local[i].len() by {
        assert(state.fresh[i].len() == state.local[i].len());
        assert(state.local[i].len() <= ENTITY_LOCAL_SIZE);
    }
    assert forall|i: int, j: int|
        0 <= i < after.local.len() && ENTITY_BLOCK <= j < after.local[i].len() implies
        !#[trigger] after.fresh[i][j] by {
        assert(state.fresh[i].len() == state.local[i].len());
        if i == slot && j >= position {
            assert(!state.fresh[i][j + 1]);
        } else {
            assert(!state.fresh[i][j]);
        }
    }
}

pub(crate) proof fn refilled_is_sized(state: AllocatorState, slot: int)
    requires
        state.sized(),
        0 <= slot < state.local.len(),
    ensures
        state.refilled(slot).sized(),
        state.refilled(slot).fresh_count() == state.fresh_count(),
        state.refilled(slot).local.len() == state.local.len(),
{
    let after = state.refilled(slot);
    if state.local[slot].len() == 0 && state.shared.len() > 0 {
        assert(state.fresh[slot].len() == 0);
        set_flags_equal(ENTITY_BLOCK as int, false);
        all_set_flags_update(state.fresh, slot, flags(ENTITY_BLOCK as int, false));
        assert forall|i: int| 0 <= i < after.local.len() implies (#[trigger] after.local[i]).len()
            <= ENTITY_LOCAL_SIZE && after.fresh[i].len() == after.local[i].len() by {
            assert(state.fresh[i].len() == state.local[i].len());
            assert(state.shared[0].len() == ENTITY_BLOCK);
        }
        assert forall|i: int, j: int|
            0 <= i < after.local.len() && ENTITY_BLOCK <= j < after.local[i].len() implies
            !#[trigger] after.fresh[i][j] by {
            assert(state.shared[0].len() == ENTITY_BLOCK);
            if i != slot {
                assert(!state.fresh[i][j]);
            }
        }
        assert forall|i: int| 0 <= i < after.shared.len() implies (
        #[trigger] after.shared[i]).len() == ENTITY_BLOCK by {
            assert(state.shared[i + 1].len() == ENTITY_BLOCK);
        }
    }
}

pub(crate) proof fn taken_is_sized(state: AllocatorState, slot: int)
    requires
        state.sized(),
        0 <= slot < state.local.len(),
    ensures
        state.local[slot].len() > 0 ==> (AllocatorState {
            local: state.local.update(slot, state.local[slot].drop_last()),
            fresh: state.fresh.update(slot, state.fresh[slot].drop_last()),
            ..state
        }).sized(),
        state.local[slot].len() > 0 ==> all_set_flags(
            state.fresh.update(slot, state.fresh[slot].drop_last()),
        ) == state.fresh_count() - (if state.fresh[slot].last() {
            1int
        } else {
            0
        }),
{
    if state.local[slot].len() > 0 {
        let after = AllocatorState {
            local: state.local.update(slot, state.local[slot].drop_last()),
            fresh: state.fresh.update(slot, state.fresh[slot].drop_last()),
            ..state
        };
        assert(state.fresh[slot].len() == state.local[slot].len());
        all_set_flags_update(state.fresh, slot, state.fresh[slot].drop_last());
        assert forall|i: int| 0 <= i < after.local.len() implies (#[trigger] after.local[i]).len()
            <= ENTITY_LOCAL_SIZE && after.fresh[i].len() == after.local[i].len() by {
            assert(state.fresh[i].len() == state.local[i].len());
            assert(state.local[i].len() <= ENTITY_LOCAL_SIZE);
        }
        assert forall|i: int, j: int|
            0 <= i < after.local.len() && ENTITY_BLOCK <= j < after.local[i].len() implies
            !#[trigger] after.fresh[i][j] by {
            assert(!state.fresh[i][j]);
        }
    }
}

pub(crate) proof fn reserved_batch_is_sized(state: AllocatorState, slot: int, count: int)
    requires
        state.sized(),
        0 <= slot < state.local.len(),
        0 <= count,
    ensures
        state.after_reserve_batch(slot, count).sized(),
        state.after_reserve_batch(slot, count).fresh_count() == state.fresh_count() + state.refill(
            slot,
        ),
{
    let after = state.after_reserve_batch(slot, count);
    let refill = state.refill(slot);
    assert(state.fresh[slot].len() == state.local[slot].len());
    set_flags_equal(refill, true);
    set_flags_concat(state.fresh[slot], flags(refill, true));
    all_set_flags_update(state.fresh, slot, after.fresh[slot]);
    assert forall|i: int| 0 <= i < after.local.len() implies (#[trigger] after.local[i]).len()
        <= ENTITY_LOCAL_SIZE && after.fresh[i].len() == after.local[i].len() by {
        assert(state.fresh[i].len() == state.local[i].len());
        assert(state.local[i].len() <= ENTITY_LOCAL_SIZE);
    }
    assert forall|i: int, j: int|
        0 <= i < after.local.len() && ENTITY_BLOCK <= j < after.local[i].len() implies
        !#[trigger] after.fresh[i][j] by {
        assert(!state.fresh[i][j]);
    }
}

pub(crate) proof fn recycled_is_sized(state: AllocatorState, slot: int, entity: Entity)
    requires
        state.sized(),
        0 <= slot < state.local.len(),
    ensures
        state.after_recycle(slot, entity).sized(),
        state.after_recycle(slot, entity).fresh_count() == state.fresh_count(),
{
    let after = state.after_recycle(slot, entity);
    let all = state.fresh[slot];
    assert(all.len() == state.local[slot].len());
    if state.local[slot].len() == ENTITY_LOCAL_SIZE {
        let kept = all.take(ENTITY_BLOCK as int);
        assert(kept + all.skip(ENTITY_BLOCK as int) =~= all);
        set_flags_concat(kept, all.skip(ENTITY_BLOCK as int));
        assert forall|i: int| 0 <= i < all.skip(ENTITY_BLOCK as int).len() implies
            !#[trigger] all.skip(ENTITY_BLOCK as int)[i] by {
            assert(!state.fresh[slot][i + ENTITY_BLOCK]);
        }
        unset_flags(all.skip(ENTITY_BLOCK as int));
        assert(kept.push(false).drop_last() =~= kept);
    } else {
        assert(all.push(false).drop_last() =~= all);
    }
    all_set_flags_update(state.fresh, slot, after.fresh[slot]);
    assert forall|i: int| 0 <= i < after.local.len() implies (#[trigger] after.local[i]).len()
        <= ENTITY_LOCAL_SIZE && after.fresh[i].len() == after.local[i].len() by {
        assert(state.fresh[i].len() == state.local[i].len());
        assert(state.local[i].len() <= ENTITY_LOCAL_SIZE);
    }
    assert forall|i: int, j: int|
        0 <= i < after.local.len() && ENTITY_BLOCK <= j < after.local[i].len() implies
        !#[trigger] after.fresh[i][j] by {
        if i != slot || j < all.len() {
            assert(!state.fresh[i][j]);
        }
    }
}

pub(crate) proof fn unflagged_len(queue: Seq<Entity>, all: Seq<bool>)
    requires
        all.len() == queue.len(),
    ensures
        unflagged(queue, all).len() == queue.len() - set_flags(all),
    decreases queue.len(),
{
    if queue.len() > 0 {
        unflagged_len(queue.drop_last(), all.drop_last());
    }
}

proof fn gathered_blocks(blocks: Seq<Seq<Entity>>)
    requires
        forall|i: int| 0 <= i < blocks.len() ==> (#[trigger] blocks[i]).len() == ENTITY_BLOCK,
    ensures
        gathered(blocks).len() == blocks.len() * ENTITY_BLOCK,
    decreases blocks.len(),
{
    if blocks.len() > 0 {
        gathered_blocks(blocks.drop_last());
        assert(blocks[blocks.len() - 1].len() == ENTITY_BLOCK);
        blocks.last().to_multiset_ensures();
    }
}

/// Once a slot is in use, all steps are the same whether or not it was in use
/// before.
pub(crate) proof fn same_slot(state: AllocatorState, slot: int)
    requires
        state.has_slot(slot),
    ensures
        state.with_slot(slot).with_slot(slot) == state.with_slot(slot),
        state.with_slot(slot).at_hand(slot) == state.at_hand(slot),
        state.with_slot(slot).recycled(slot) == state.recycled(slot),
        state.with_slot(slot).after_reserve_recycled(slot) == state.after_reserve_recycled(slot),
        state.with_slot(slot).after_take(slot) == state.after_take(slot),
        forall|count: int|
            state.with_slot(slot).after_reserve_batch(slot, count) == #[trigger]
                state.after_reserve_batch(slot, count),
        forall|entity: Entity|
            state.with_slot(slot).after_recycle(slot, entity) == #[trigger] state.after_recycle(
                slot,
                entity,
            ),
{
}

/// How often an index occurs in a queue.
pub open spec fn occurrences(queue: Seq<Entity>, index: u32) -> int
    decreases queue.len(),
{
    if queue.len() == 0 {
        0
    } else {
        occurrences(queue.drop_last(), index) + (if queue.last().index_spec() == index {
            1int
        } else {
            0
        })
    }
}

/// How often an index occurs in a list of queues.
pub open spec fn total_occurrences(queues: Seq<Seq<Entity>>, index: u32) -> int
    decreases queues.len(),
{
    if queues.len() == 0 {
        0
    } else {
        total_occurrences(queues.drop_last(), index) + occurrences(queues.last(), index)
    }
}

impl AllocatorState {
    /// How often an index is waiting to be reserved.
    pub open spec fn waiting(self, index: u32) -> int {
        total_occurrences(self.local, index) + total_occurrences(self.shared, index)
    }

    /// Whether an index has been handed out: it is allocated and not waiting to be
    /// reserved.
    pub open spec fn in_use(self, index: u32) -> bool {
        index < self.next && self.waiting(index) == 0
    }

    /// Whether every index that is waiting has been allocated and waits only once.
    pub open spec fn distinct(self) -> bool {
        forall|index: u32|
            {
                &&& 0 <= #[trigger] self.waiting(index) <= 1
                &&& self.waiting(index) > 0 ==> index < self.next
            }
    }
}

proof fn occurrences_push(queue: Seq<Entity>, entity: Entity, index: u32)
    ensures
        occurrences(queue.push(entity), index) == occurrences(queue, index) + (if entity.index_spec()
            == index {
            1int
        } else {
            0
        }),
{
    assert(queue.push(entity).drop_last() =~= queue);
}

pub(crate) proof fn occurrences_concat(a: Seq<Entity>, b: Seq<Entity>, index: u32)
    ensures
        occurrences(a + b, index) == occurrences(a, index) + occurrences(b, index),
        occurrences(b, index) >= 0,
    decreases b.len(),
{
    if b.len() == 0 {
        assert(a + b =~= a);
    } else {
        assert((a + b).drop_last() =~= a + b.drop_last());
        occurrences_concat(a, b.drop_last(), index);
    }
}

proof fn occurrences_fresh(first: int, end: int, index: u32)
    requires
        0 <= first <= end <= u32::MAX,
    ensures
        occurrences(fresh_descending(first, end), index) == (if first <= index < end {
            1int
        } else {
            0
        }),
    decreases end - first,
{
    let fresh = fresh_descending(first, end);
    if first < end {
        assert(fresh.drop_last() =~= fresh_descending(first + 1, end));
        occurrences_fresh(first + 1, end, index);
    }
}

proof fn total_update(queues: Seq<Seq<Entity>>, k: int, queue: Seq<Entity>, index: u32)
    requires
        0 <= k < queues.len(),
    ensures
        total_occurrences(queues.update(k, queue), index) == total_occurrences(queues, index)
            - occurrences(queues[k], index) + occurrences(queue, index),
    decreases queues.len(),
{
    let last = queues.len() - 1;
    if k == last {
        assert(queues.update(k, queue).drop_last() =~= queues.drop_last());
    } else {
        assert(queues.update(k, queue).drop_last() =~= queues.drop_last().update(k, queue));
        total_update(queues.drop_last(), k, queue, index);
    }
}

proof fn total_push(queues: Seq<Seq<Entity>>, queue: Seq<Entity>, index: u32)
    ensures
        total_occurrences(queues.push(queue), index) == total_occurrences(queues, index)
            + occurrences(queue, index),
{
    assert(queues.push(queue).drop_last() =~= queues);
}

proof fn total_skip_first(queues: Seq<Seq<Entity>>, index: u32)
    requires
        queues.len() > 0,
    ensures
        total_occurrences(queues, index) == occurrences(queues[0], index) + total_occurrences(
            queues.skip(1),
            index,
        ),
    decreases queues.len(),
{
    if queues.len() == 1 {
        assert(queues.skip(1) =~= Seq::empty());
        assert(queues.drop_last() =~= Seq::empty());
    } else {
        assert(queues.skip(1).drop_last() =~= queues.drop_last().skip(1));
        total_skip_first(queues.drop_last(), index);
    }
}

/// Reusing an entity takes its index, and no other, out of those that wait.
pub(crate) proof fn waiting_after_take(state: AllocatorState, slot: int, index: u32)
    requires
        state.has_slot(slot),
    ensures
        state.after_take(slot).waiting(index) == state.waiting(index) - (
        match state.at_hand(slot) {
            Some(entity) if entity.index_spec() == index => 1int,
            _ => 0,
        }),
{
    let used = state.with_slot(slot);
    let refilled = state.refilled(slot);
    if slot == state.local.len() {
        total_push(state.local, Seq::empty(), index);
    }
    if used.local[slot].len() == 0 && used.shared.len() > 0 {
        total_update(used.local, slot, used.shared[0], index);
        total_skip_first(used.shared, index);
    }
    assert(refilled.waiting(index) == state.waiting(index));
    let queue = refilled.local[slot];
    if queue.len() > 0 {
        total_update(refilled.local, slot, queue.drop_last(), index);
    }
}

/// Allocating indices makes those that refill the local queue wait.
proof fn waiting_after_reserve_batch(state: AllocatorState, slot: int, count: int, index: u32)
    requires
        state.has_slot(slot),
        0 <= state.next,
        0 <= count,
        state.has_room(count),
    ensures
        state.after_reserve_batch(slot, count).waiting(index) == state.waiting(index) + (if state.next
            + count <= index < state.after_reserve_batch(slot, count).next {
            1int
        } else {
            0
        }),
{
    let used = state.with_slot(slot);
    let end = state.next + count + state.refill(slot);
    let fresh = fresh_descending(state.next + count, end);
    if slot == state.local.len() {
        total_push(state.local, Seq::empty(), index);
    }
    total_update(used.local, slot, used.local[slot] + fresh, index);
    occurrences_concat(used.local[slot], fresh, index);
    occurrences_fresh(state.next + count, end, index);
}

/// Recycling an entity makes its index wait.
proof fn waiting_after_recycle(state: AllocatorState, slot: int, entity: Entity, index: u32)
    requires
        state.has_slot(slot),
    ensures
        state.after_recycle(slot, entity).waiting(index) == state.waiting(index)
            + (if entity.index_spec() == index {
            1int
        } else {
            0
        }),
{
    let used = state.with_slot(slot);
    let queue = used.local[slot];
    if slot == state.local.len() {
        total_push(state.local, Seq::empty(), index);
    }
    if queue.len() == ENTITY_LOCAL_SIZE {
        let kept = queue.take(ENTITY_BLOCK as int);
        let block = queue.skip(ENTITY_BLOCK as int);
        assert(kept + block =~= queue);
        occurrences_concat(kept, block, index);
        occurrences_push(kept, entity, index);
        total_push(used.shared, block, index);
        total_update(used.local, slot, kept.push(entity), index);
    } else {
        occurrences_push(queue, entity, index);
        total_update(used.local, slot, queue.push(entity), index);
    }
}

/// A reserved entity is unique: its index was not in use before, it is in use
/// afterwards, and every other index stays as it was or becomes one that waits.
pub proof fn reserved_entity_is_unique(state: AllocatorState, slot: int)
    requires
        state.has_slot(slot),
        state.distinct(),
        0 <= state.next,
        state.at_hand(slot) is None ==> state.has_room(1),
    ensures
        state.after_reserve(slot).distinct(),
        !state.in_use(state.reserved(slot).index_spec()),
        state.after_reserve(slot).in_use(state.reserved(slot).index_spec()),
        forall|index: u32|
            index != state.reserved(slot).index_spec() ==> (#[trigger] state.after_reserve(
                slot,
            ).in_use(index) <==> state.in_use(index)),
{
    let after = state.after_reserve(slot);
    let entity = state.reserved(slot);
    let middle = state.after_take(slot);
    assert forall|index: u32|
        {
            &&& 0 <= #[trigger] after.waiting(index) <= 1
            &&& after.waiting(index) > 0 ==> index < after.next
            &&& index != entity.index_spec() ==> (after.in_use(index) <==> state.in_use(index))
            &&& index == entity.index_spec() ==> after.in_use(index)
        } by {
        assert(0 <= state.waiting(index) <= 1);
        waiting_after_take(state, slot, index);
        if state.at_hand(slot) is None {
            assert(middle.has_slot(slot));
            waiting_after_reserve_batch(middle, slot, 1, index);
        } else {
            recycled_index_waits(state, slot);
            assert(state.waiting(entity.index_spec()) <= 1);
        }
    }
    if state.at_hand(slot) is Some {
        recycled_index_waits(state, slot);
    }
    assert(after.waiting(entity.index_spec()) >= 0);
    assert forall|index: u32| index != entity.index_spec() implies (#[trigger] after.in_use(index)
        <==> state.in_use(index)) by {
        assert(after.waiting(index) >= 0);
    }
}

/// The index of an entity that will be reused waits.
proof fn recycled_index_waits(state: AllocatorState, slot: int)
    requires
        state.has_slot(slot),
        state.distinct(),
        state.at_hand(slot) is Some,
    ensures
        state.waiting(state.at_hand(slot)->0.index_spec()) == 1,
{
    let index = state.at_hand(slot)->0.index_spec();
    waiting_after_take(state, slot, index);
    let after = state.after_take(slot);
    total_occurrences_nonnegative(after.local, index);
    total_occurrences_nonnegative(after.shared, index);
    assert(state.waiting(index) <= 1);
}

pub(crate) proof fn total_occurrences_nonnegative(queues: Seq<Seq<Entity>>, index: u32)
    ensures
        total_occurrences(queues, index) >= 0,
    decreases queues.len(),
{
    if queues.len() > 0 {
        total_occurrences_nonnegative(queues.drop_last(), index);
        occurrences_concat(Seq::empty(), queues.last(), index);
    }
}

/// The indices of a batch are unique: none of them was in use before, all of them
/// are in use afterwards, and every other index stays as it was or becomes one that
/// waits.
pub proof fn reserved_batch_is_unique(state: AllocatorState, slot: int, count: int)
    requires
        state.has_slot(slot),
        state.distinct(),
        0 <= state.next,
        0 <= count,
        state.has_room(count),
    ensures
        state.after_reserve_batch(slot, count).distinct(),
        forall|index: u32|
            state.next <= index < state.next + count ==> !state.in_use(index)
                && #[trigger] state.after_reserve_batch(slot, count).in_use(index),
        forall|index: u32|
            !(state.next <= index < state.next + count) ==> (#[trigger] state.after_reserve_batch(
                slot,
                count,
            ).in_use(index) <==> state.in_use(index)),
{
    let after = state.after_reserve_batch(slot, count);
    assert forall|index: u32|
        {
            &&& 0 <= #[trigger] after.waiting(index) <= 1
            &&& after.waiting(index) > 0 ==> index < after.next
            &&& state.next <= index < state.next + count ==> !state.in_use(index) && after.in_use(
                index,
            )
            &&& !(state.next <= index < state.next + count) ==> (after.in_use(index)
                <==> state.in_use(index))
        } by {
        assert(0 <= state.waiting(index) <= 1);
        waiting_after_reserve_batch(state, slot, count, index);
    }
    assert forall|index: u32|
        state.next <= index < state.next + count implies !state.in_use(index)
        && #[trigger] after.in_use(index) by {
        assert(after.waiting(index) >= 0);
    }
    assert forall|index: u32|
        !(state.next <= index < state.next + count) implies (#[trigger] after.in_use(index)
        <==> state.in_use(index)) by {
        assert(after.waiting(index) >= 0);
    }
}

/// Recycling an entity that is in use takes its index, and no other, out of use.
pub proof fn recycled_entity_is_free(state: AllocatorState, slot: int, entity: Entity)
    requires
        state.has_slot(slot),
        state.distinct(),
        state.in_use(entity.index_spec()),
    ensures
        state.after_recycle(slot, entity).distinct(),
        forall|index: u32| #[trigger]
            state.after_recycle(slot, entity).in_use(index) <==> state.in_use(index) && index
                != entity.index_spec(),
{
    let after = state.after_recycle(slot, entity);
    assert forall|index: u32|
        {
            &&& 0 <= #[trigger] after.waiting(index) <= 1
            &&& after.waiting(index) > 0 ==> index < after.next
            &&& after.in_use(index) <==> state.in_use(index) && index != entity.index_spec()
        } by {
        assert(0 <= state.waiting(index) <= 1);
        waiting_after_recycle(state, slot, entity, index);
    }
    assert forall|index: u32| #[trigger]
        after.in_use(index) <==> state.in_use(index) && index != entity.index_spec() by {
        assert(after.waiting(index) >= 0);
    }
}

/// The entity that a thread has just recycled is the next one that it reserves.
pub proof fn recycled_entity_is_reserved_next(state: AllocatorState, slot: int, entity: Entity)
    requires
        state.has_slot(slot),
    ensures
        state.after_recycle(slot, entity).at_hand(slot) == Some(entity),
        state.after_recycle(slot, entity).reserved(slot) == entity,
{
    let after = state.after_recycle(slot, entity);
    assert(after.local[slot].last() == entity);
}

} // verus!
