//! A queue that gathers items from many threads.

use thread_local::ThreadLocal;
use vstd::prelude::*;

use crate::entity::allocator::{current_thread_slot, no_thread_slots};

verus! {

/// A bounded queue in an array whose indices wrap around.
pub struct AtomicQueue<T> {
    /// The number of slots, one more than the capacity.
    pub(crate) len: usize,
    /// The slots. Those from the head up to the tail hold an item.
    pub(crate) slots: Vec<Option<T>>,
    /// The index of the next item to pop. If this equals `tail`, the queue is empty.
    pub(crate) head: usize,
    /// The index of the next item to push. If this is one less than `head`, the queue
    /// is full.
    pub(crate) tail: usize,
}

/// The index that is `i` steps after `index`, where indices wrap around at `len`.
pub open spec fn wrapped(index: int, i: int, len: int) -> int {
    if index + i >= len {
        index + i - len
    } else {
        index + i
    }
}

impl<T> AtomicQueue<T> {
    /// The number of items.
    pub open(crate) spec fn count(self) -> int {
        distance(self.head as int, self.tail as int, self.len as int)
    }

    /// The number of items that the queue can hold.
    pub open(crate) spec fn capacity(self) -> int {
        self.len - 1
    }

    /// Whether the indices are in range and the slots from the head up to the tail, and
    /// no others, hold items.
    pub open(crate) spec fn wf(self) -> bool {
        &&& self.len == self.slots@.len()
        &&& self.head < self.len
        &&& self.tail < self.len
        &&& forall|i: int|
            0 <= i < self.count() ==> (#[trigger] self.slots@[wrapped(
                self.head as int,
                i,
                self.len as int,
            )]) is Some
        &&& forall|i: int|
            self.count() <= i < self.len ==> (#[trigger] self.slots@[wrapped(
                self.head as int,
                i,
                self.len as int,
            )]) is None
    }

    /// The items in the queue, the next one to be popped first.
    pub open(crate) spec fn items(self) -> Seq<T> {
        Seq::new(
            self.count() as nat,
            |i: int| self.slots@[wrapped(self.head as int, i, self.len as int)]->0,
        )
    }

    /// Creates an empty queue with the given capacity.
    pub fn new(len: usize) -> (queue: Self)
        requires
            len < usize::MAX,
        ensures
            queue.wf(),
            queue.items() == Seq::<T>::empty(),
            queue.capacity() == len,
    {
        // One slot stays empty, to tell an empty queue from a full one.
        let len: usize = len + 1;
        let mut slots: Vec<Option<T>> = Vec::new();
        while slots.len() < len
            invariant
                slots@.len() <= len,
                forall|i: int| 0 <= i < slots@.len() ==> (#[trigger] slots@[i]) is None,
            decreases len - slots@.len(),
        {
            slots.push(None);
        }
        AtomicQueue { len, slots, head: 0, tail: 0 }
    }

    /// Returns the index that follows an index.
    fn increment_index(&self, index: usize) -> (next: usize)
        requires
            index < self.len,
        ensures
            next == wrapped(index as int, 1, self.len as int),
            next < self.len,
    {
        if index == self.len - 1 {
            0
        } else {
            index + 1
        }
    }

    /// Appends an item. Hands it back if the queue is full.
    pub fn push(&mut self, value: T) -> (pushed: Result<(), T>)
        requires
            old(self).wf(),
        ensures
            final(self).wf(),
            final(self).capacity() == old(self).capacity(),
            pushed is Ok <==> old(self).items().len() < old(self).capacity(),
            pushed is Ok ==> final(self).items() == old(self).items().push(value),
            pushed is Err ==> pushed->Err_0 == value && *final(self) == *old(self),
    {
        let tail: usize = self.tail;
        let head: usize = self.head;
        let new_tail: usize = self.increment_index(tail);
        if new_tail == head {
            return Err(value);
        }
        self.slots.set(tail, Some(value));
        self.tail = new_tail;
        proof {
            let n = old(self).count();
            let len = self.len as int;
            assert(self.count() == n + 1);
            assert(wrapped(head as int, n, len) == tail);
            assert forall|i: int| 0 <= i < len && i != n implies #[trigger] wrapped(
                head as int,
                i,
                len,
            ) != tail by {}
            assert(self.items() =~= old(self).items().push(value));
        }
        Ok(())
    }

    /// Takes the first item, if there is one.
    pub fn pop(&mut self) -> (value: Option<T>)
        requires
            old(self).wf(),
        ensures
            final(self).wf(),
            final(self).capacity() == old(self).capacity(),
            old(self).items().len() == 0 ==> value is None && *final(self) == *old(self),
            old(self).items().len() > 0 ==> value == Some(old(self).items()[0])
                && final(self).items() == old(self).items().skip(1),
    {
        let tail: usize = self.tail;
        let head: usize = self.head;
        if tail == head {
            return None;
        }
        assert(wrapped(head as int, 0, self.len as int) == head);
        assert(self.slots@[wrapped(head as int, 0, self.len as int)] is Some);
        let mut value: Option<T> = None;
        std::mem::swap(&mut value, &mut self.slots[head]);
        self.head = self.increment_index(head);
        proof {
            let n = old(self).count();
            let len = self.len as int;
            assert(self.count() == n - 1);
            assert forall|i: int| 0 <= i < len - 1 implies #[trigger] wrapped(
                self.head as int,
                i,
                len,
            ) == wrapped(head as int, i + 1, len) && wrapped(self.head as int, i, len)
                != head by {}
            assert(wrapped(self.head as int, len - 1, len) == head);
            assert forall|i: int| 0 <= i < n - 1 implies (#[trigger] self.slots@[wrapped(
                self.head as int,
                i,
                len,
            )]) is Some by {
                assert(old(self).slots@[wrapped(head as int, i + 1, len)] is Some);
            }
            assert forall|i: int| n - 1 <= i < len implies (#[trigger] self.slots@[wrapped(
                self.head as int,
                i,
                len,
            )]) is None by {
                if i < len - 1 {
                    assert(old(self).slots@[wrapped(head as int, i + 1, len)] is None);
                }
            }
            assert(self.items() =~= old(self).items().skip(1));
        }
        value
    }

    /// Takes all items.
    pub fn drain(&mut self) -> (values: Vec<T>)
        requires
            old(self).wf(),
        ensures
            final(self).wf(),
            final(self).capacity() == old(self).capacity(),
            values@ == old(self).items(),
            final(self).items() == Seq::<T>::empty(),
    {
        let mut values: Vec<T> = Vec::new();
        while self.head != self.tail
            invariant
                self.wf(),
                self.capacity() == old(self).capacity(),
                values@ + self.items() == old(self).items(),
            decreases self.items().len(),
        {
            let ghost before = self.items();
            let ghost taken = values@;
            match self.pop() {
                Some(value) => {
                    values.push(value);
                    assert(values@ + self.items() =~= taken + before);
                },
                None => {},
            }
        }
        assert(values@ =~= old(self).items());
        values
    }
}

/// The number of items from a head up to a tail.
pub open spec fn distance(head: int, tail: int, len: int) -> int {
    if tail >= head {
        tail - head
    } else {
        tail + len - head
    }
}

/// A producer that has read the head before items were popped may believe that the queue
/// is full, but if it believes that there is room, there is.
pub proof fn stale_head_is_safe(head: int, popped: int, tail: int, len: int)
    requires
        0 <= head < len,
        0 <= tail < len,
        0 <= popped <= distance(head, tail, len),
        wrapped(tail, 1, len) != head,
    ensures
        wrapped(tail, 1, len) != wrapped(head, popped, len),
{
}

/// The consumer that has read the tail before items were pushed may believe that the queue
/// is empty, but if it believes that there is an item, there is.
pub proof fn stale_tail_is_safe(head: int, tail: int, pushed: int, len: int)
    requires
        0 <= head < len,
        0 <= tail < len,
        0 <= pushed,
        distance(head, tail, len) + pushed < len,
        tail != head,
    ensures
        wrapped(tail, pushed, len) != head,
{
}

/// A queue with many producers and one consumer: each producer writes to a bounded
/// queue of its own, and the consumer scans all of them.
pub struct GatherQueue<T: Send> {
    /// The numbers of the threads that have a queue.
    pub(crate) threads: ThreadLocal<usize>,
    /// The queue of each thread.
    pub(crate) local_queues: Vec<AtomicQueue<T>>,
    /// The capacity of each queue.
    pub(crate) len: usize,
}

/// All items of some queues, those of the first queue first.
pub open spec fn gathered<T>(queues: Seq<Seq<T>>) -> Seq<T>
    decreases queues.len(),
{
    if queues.len() == 0 {
        Seq::empty()
    } else {
        gathered(queues.drop_last()) + queues.last()
    }
}

/// Queues of which the one with the given number is there.
pub open spec fn with_queue<T>(queues: Seq<Seq<T>>, thread: int) -> Seq<Seq<T>> {
    if thread == queues.len() {
        queues.push(Seq::empty())
    } else {
        queues
    }
}

impl<T: Send> GatherQueue<T> {
    /// Whether the queues are well-formed and have the same capacity, and the threads are
    /// numbered in turn.
    pub open(crate) spec fn wf(self) -> bool {
        &&& self.len < usize::MAX
        &&& crate::entity::allocator::thread_slots(self.threads) =~= Set::new(
            |i: usize| i < self.local_queues@.len(),
        )
        &&& forall|i: int|
            0 <= i < self.local_queues@.len() ==> (#[trigger] self.local_queues@[i]).wf()
                && self.local_queues@[i].capacity() == self.len
    }

    /// The capacity of each queue.
    pub open(crate) spec fn capacity(self) -> nat {
        self.len as nat
    }

    /// The items in the queue of each thread.
    pub open(crate) spec fn queues(self) -> Seq<Seq<T>> {
        self.local_queues@.map_values(|queue: AtomicQueue<T>| queue.items())
    }

    /// Creates a queue whose local queues each have the given capacity.
    pub fn new(len: usize) -> (queue: Self)
        requires
            len < usize::MAX,
        ensures
            queue.wf(),
            queue.queues() == Seq::<Seq<T>>::empty(),
            queue.capacity() == len,
    {
        GatherQueue { threads: no_thread_slots(), local_queues: Vec::new(), len }
    }

    /// Appends an item to the queue of the calling thread. Hands it back if that queue is
    /// full.
    pub fn push(&mut self, value: T) -> (pushed: Result<(), T>)
        requires
            old(self).wf(),
        ensures
            final(self).wf(),
            final(self).capacity() == old(self).capacity(),
            exists|thread: int|
                0 <= thread <= old(self).queues().len() && #[trigger] pushed_to(
                    old(self).queues(),
                    final(self).queues(),
                    thread,
                    value,
                    old(self).capacity(),
                    pushed,
                ),
    {
        let fresh: usize = self.local_queues.len();
        let thread: usize = current_thread_slot(&mut self.threads, fresh);
        if thread == fresh {
            self.local_queues.push(AtomicQueue::new(self.len));
        }
        assert(self.queues() =~= with_queue(old(self).queues(), thread as int));
        let ghost before = self.queues();
        let pushed = self.local_queues[thread].push(value);
        proof {
            if pushed is Ok {
                assert(self.queues() =~= before.update(
                    thread as int,
                    before[thread as int].push(value),
                ));
            } else {
                assert(self.queues() =~= before);
            }
            assert(pushed_to(
                old(self).queues(),
                self.queues(),
                thread as int,
                value,
                old(self).capacity(),
                pushed,
            ));
        }
        pushed
    }

    /// Takes all items from all queues.
    pub fn drain(&mut self) -> (values: Vec<T>)
        requires
            old(self).wf(),
        ensures
            final(self).wf(),
            final(self).capacity() == old(self).capacity(),
            values@ == gathered(old(self).queues()),
            final(self).queues() == Seq::new(
                old(self).queues().len(),
                |i: int| Seq::<T>::empty(),
            ),
    {
        let mut values: Vec<T> = Vec::new();
        let mut i: usize = 0;
        let ghost queues = self.queues();
        assert(queues.take(0) =~= Seq::<Seq<T>>::empty());
        while i < self.local_queues.len()
            invariant
                self.wf(),
                self.len == old(self).len,
                queues == old(self).queues(),
                queues.len() == self.local_queues@.len(),
                i <= queues.len(),
                values@ == gathered(queues.take(i as int)),
                forall|k: int|
                    0 <= k < i ==> (#[trigger] self.local_queues@[k]).items() == Seq::<T>::empty(),
                forall|k: int|
                    i <= k < queues.len() ==> (#[trigger] self.local_queues@[k]).items()
                        == queues[k],
            decreases queues.len() - i,
        {
            let ghost taken = values@;
            let mut drained = self.local_queues[i].drain();
            assert(drained@ == queues[i as int]);
            values.append(&mut drained);
            proof {
                assert(queues.take(i + 1).drop_last() =~= queues.take(i as int));
                assert(values@ =~= gathered(queues.take(i + 1)));
            }
            i = i + 1;
        }
        assert(queues.take(queues.len() as int) =~= queues);
        assert(self.queues() =~= Seq::new(queues.len(), |i: int| Seq::<T>::empty()));
        values
    }
}

/// Whether pushing an item to the queue of a thread takes some queues to others, with
/// a result.
pub open spec fn pushed_to<T>(
    before: Seq<Seq<T>>,
    after: Seq<Seq<T>>,
    thread: int,
    value: T,
    capacity: nat,
    pushed: Result<(), T>,
) -> bool {
    let queues = with_queue(before, thread);
    if queues[thread].len() < capacity {
        pushed is Ok && after == queues.update(thread, queues[thread].push(value))
    } else {
        pushed is Err && pushed->Err_0 == value && after == queues
    }
}

/// An item that was pushed is the last one of its thread that a drain returns, and
/// items of one thread come out in the order in which they went in.
pub proof fn pushed_items_are_drained<T>(
    before: Seq<Seq<T>>,
    after: Seq<Seq<T>>,
    thread: int,
    value: T,
    capacity: nat,
    pushed: Result<(), T>,
)
    requires
        0 <= thread <= before.len(),
        pushed_to(before, after, thread, value, capacity, pushed),
        pushed is Ok,
    ensures
        gathered(after) == gathered(with_queue(before, thread).take(thread)) + with_queue(
            before,
            thread,
        )[thread].push(value) + gathered_after(with_queue(before, thread), thread),
        gathered(before) == gathered(with_queue(before, thread).take(thread)) + with_queue(
            before,
            thread,
        )[thread] + gathered_after(with_queue(before, thread), thread),
{
    let queues = with_queue(before, thread);
    gathered_split(after, thread);
    gathered_split(queues, thread);
    assert(after.take(thread) =~= queues.take(thread));
    assert(after.skip(thread + 1) =~= queues.skip(thread + 1));
    if thread == before.len() {
        assert(queues.drop_last() =~= before);
        assert(gathered(queues) =~= gathered(before));
    }
}

/// All items of the queues after one.
pub open spec fn gathered_after<T>(queues: Seq<Seq<T>>, thread: int) -> Seq<T> {
    gathered(queues.skip(thread + 1))
}

proof fn gathered_split<T>(queues: Seq<Seq<T>>, thread: int)
    requires
        0 <= thread < queues.len(),
    ensures
        gathered(queues) == gathered(queues.take(thread)) + queues[thread] + gathered_after(
            queues,
            thread,
        ),
    decreases queues.len(),
{
    let rest = queues.drop_last();
    if thread == queues.len() - 1 {
        assert(queues.take(thread) =~= rest);
        assert(queues.skip(thread + 1) =~= Seq::<Seq<T>>::empty());
        assert(gathered(queues) =~= gathered(queues.take(thread)) + queues[thread]
            + gathered_after(queues, thread));
    } else {
        gathered_split(rest, thread);
        assert(rest.take(thread) =~= queues.take(thread));
        assert(queues.skip(thread + 1).drop_last() =~= rest.skip(thread + 1));
        assert(gathered(queues) =~= gathered(queues.take(thread)) + queues[thread]
            + gathered_after(queues, thread));
    }
}

/// A push fails only if the queue of the calling thread is full, and then it hands the item back.
/// A thread that pushes for the first time has an empty queue. A push that succeeds appends the
/// item to the queue of the thread. The queues of other threads stay as they are.
pub proof fn push_depends_on_the_queue_of_the_thread<T>(
    before: Seq<Seq<T>>,
    after: Seq<Seq<T>>,
    thread: int,
    value: T,
    capacity: nat,
    pushed: Result<(), T>,
    other: int,
)
    requires
        0 <= thread <= before.len(),
        pushed_to(before, after, thread, value, capacity, pushed),
    ensures
        ({
            let own = if thread < before.len() {
                before[thread]
            } else {
                Seq::<T>::empty()
            };
            &&& pushed is Ok <==> own.len() < capacity
            &&& pushed is Ok ==> after[thread] == own.push(value)
            &&& pushed is Err ==> pushed->Err_0 == value && after[thread] == own
            &&& after.len() == (if thread < before.len() {
                before.len() as int
            } else {
                before.len() as int + 1
            })
            &&& 0 <= other < before.len() && other != thread ==> after[other] == before[other]
        }),
{
}

/// A drain returns the items of all queues, one queue after another, each in its order.
pub proof fn drain_returns_all_items<T>(queues: Seq<Seq<T>>)
    ensures
        gathered(queues) == queues.flatten(),
    decreases queues.len(),
{
    queues.lemma_flatten_and_flatten_alt_are_equivalent();
    gathered_is_flat(queues);
}

proof fn gathered_is_flat<T>(queues: Seq<Seq<T>>)
    ensures
        gathered(queues) == queues.flatten_alt(),
    decreases queues.len(),
{
    if queues.len() > 0 {
        gathered_is_flat(queues.drop_last());
    }
}

/// Every item that is in a queue is returned by a drain.
pub proof fn drain_returns_each_item<T>(queues: Seq<Seq<T>>, thread: int, i: int)
    requires
        0 <= thread < queues.len(),
        0 <= i < queues[thread].len(),
    ensures
        gathered(queues).contains(queues[thread][i]),
{
    gathered_split(queues, thread);
    let first = gathered(queues.take(thread));
    assert(gathered(queues)[first.len() + i] == queues[thread][i]);
}

} // verus!
