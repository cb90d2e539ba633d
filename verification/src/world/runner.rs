//! Running the commands of a queue.

use std::collections::VecDeque;
use vstd::prelude::*;

use crate::layout::Layout;
use crate::world::command::{Command, CommandError, Outcome, PanicPayload, Severity};
use crate::world::command_queue::{CommandQueue, Record};
use crate::world::{World, WorldId};

verus! {

/// Marks a world and an outcome as a step on the way from one world to another.
pub open spec fn step<C, R>(world: World<C, R>, outcome: Outcome) -> bool {
    true
}

/// Marks a world as the one that is reached after `n` records.
pub open spec fn step_at<C, R>(n: int, world: World<C, R>) -> bool {
    true
}

/// Whether running records one after another may take one world to another when none
/// of them panics. At most `depth` frames are nested in this one.
pub open spec fn completed<C: Command>(
    records: Seq<Record<C>>,
    before: World<C, C::Resources>,
    after: World<C, C::Resources>,
    depth: nat,
) -> bool
    decreases depth, 4nat, records.len(),
{
    if records.len() == 0 {
        after == before
    } else {
        exists|mid: World<C, C::Resources>|
            {
                &&& #[trigger] step(mid, Outcome::Completed)
                &&& completed(records.drop_last(), before, mid, depth)
                &&& consumed(records.last(), mid, after, Outcome::Completed, depth)
            }
    }
}

/// Whether running records may take one world to another with a result: the records
/// are consumed in order up to the first one that panics.
pub open spec fn ran<C: Command>(
    records: Seq<Record<C>>,
    before: World<C, C::Resources>,
    after: World<C, C::Resources>,
    result: Outcome,
    depth: nat,
) -> bool
    decreases depth, 6nat, records.len(),
{
    let start = before.with_panic_origin(false);
    match result {
        Outcome::Completed => completed(records, start, after, depth),
        Outcome::Panicked(_) => interrupted(records, start, after, result, depth),
    }
}

/// Whether running records one after another may take one world to another when one of them
/// panics, with a result: those before it are completed, and those after it are not run.
pub open spec fn interrupted<C: Command>(
    records: Seq<Record<C>>,
    before: World<C, C::Resources>,
    after: World<C, C::Resources>,
    result: Outcome,
    depth: nat,
) -> bool
    decreases depth, 5nat, records.len(),
{
    exists|n: int, mid: World<C, C::Resources>|
        {
            &&& 0 <= n < records.len()
            &&& #[trigger] step_at(n, mid)
            &&& completed(records.take(n), before, mid, depth)
            &&& consumed(records[n], mid, after, result, depth)
        }
}

/// Whether consuming a record may take one world to another with a result.
pub open spec fn consumed<C: Command>(
    record: Record<C>,
    before: World<C, C::Resources>,
    after: World<C, C::Resources>,
    result: Outcome,
    depth: nat,
) -> bool
    decreases depth, 3nat, 0nat,
{
    match record.command {
        None => after == before && result is Completed,
        Some(command) => exists|mid: World<C, C::Resources>, attempt: Outcome|
            {
                &&& #[trigger] step(mid, attempt)
                &&& attempted(command, before, mid, attempt, depth)
                &&& match attempt {
                    Outcome::Completed => after == mid && result is Completed,
                    Outcome::Panicked(payload) => handled(
                        command.name_spec(),
                        payload,
                        mid,
                        after,
                        result,
                    ),
                }
            },
    }
}

/// Whether applying a command and then flushing the world may take one world to
/// another with a result.
pub open spec fn attempted<C: Command>(
    command: C,
    before: World<C, C::Resources>,
    after: World<C, C::Resources>,
    result: Outcome,
    depth: nat,
) -> bool
    decreases depth, 2nat, 0nat,
{
    exists|mid: World<C, C::Resources>, applied: Outcome|
        #![trigger command.applied(before, mid, applied)]
        command.applied(before, mid, applied) && mid.wf() && match applied {
            Outcome::Completed => flushed(mid, after, result, depth),
            Outcome::Panicked(_) => after == mid && result == applied,
        }
}

/// Whether handling the panic of a command with the given name may take one world to
/// another with a result. A panic that comes from an error handler, or from a limit of the
/// machine, goes on. Any other one is handed to the error handler.
pub open spec fn handled<C: Command>(
    name: Seq<char>,
    payload: PanicPayload,
    before: World<C, C::Resources>,
    after: World<C, C::Resources>,
    result: Outcome,
) -> bool {
    if before.panic_originates_from_error_handler || payload.is_limit() {
        after == before.with_panic_origin(false) && result == Outcome::Panicked(payload)
    } else {
        &&& exists|error: CommandError|
            error.is_panic_of(name) && #[trigger] C::error_handled(
                error,
                before.resources,
                after.resources,
                after.panic_originates_from_error_handler,
                result,
            )
        &&& after == (World {
            resources: after.resources,
            panic_originates_from_error_handler: after.panic_originates_from_error_handler,
            ..before
        })
    }
}

/// Whether flushing the commands of a world may take it to another with a result. The
/// commands run in a frame of their own, and those that they queue run in frames that
/// are nested in it.
pub open spec fn flushed<C: Command>(
    before: World<C, C::Resources>,
    after: World<C, C::Resources>,
    result: Outcome,
    depth: nat,
) -> bool
    decreases depth, 1nat, 0nat,
{
    if before.command_queue.end == before.command_queue.start {
        after == before && result is Completed
    } else if depth == 0 {
        after == before && result == Outcome::Panicked(PanicPayload::NestingTooDeep)
    } else {
        exists|
            lent: World<C, C::Resources>,
            run: World<C, C::Resources>,
            outcome: Outcome,
        |
            #![trigger lent_tail(before, lent), step(run, outcome)]
            {
                &&& step(run, outcome)
                &&& lent_tail(before, lent)
                &&& ran(before.command_queue.records@, lent, run, outcome, (depth - 1) as nat)
                &&& run.wf()
                &&& frame_ended(
                    before.id,
                    before.command_queue,
                    after_discard(run, outcome),
                    after,
                    outcome,
                    result,
                )
            }
    }
}

/// The world once the commands that were not run have been dropped.
pub open spec fn after_discard<C, R>(
    world: World<C, R>,
    outcome: Outcome,
) -> World<C, R> {
    match outcome {
        Outcome::Completed => world,
        Outcome::Panicked(_) => world.with_panic_origin(false),
    }
}

/// Whether the queue of a world has been emptied for a frame, with the tail of the
/// buffer lent to it for nested frames.
pub open spec fn lent_tail<C, R>(before: World<C, R>, after: World<C, R>) -> bool {
    &&& after.command_queue.records@ == Seq::<Record<C>>::empty()
    &&& after == (World {
        command_queue: CommandQueue {
            records: after.command_queue.records,
            owned: false,
            start: before.command_queue.end,
            ..before.command_queue
        },
        ..before
    })
}

/// Whether the queue of a world is not the one to which a frame lent its buffer: the
/// world is another one, or the queue has a smaller buffer.
pub open spec fn queue_swapped<C, R>(
    id: WorldId,
    frame: CommandQueue<C>,
    world: World<C, R>,
) -> bool {
    id != world.id || world.command_queue.layout.size < frame.layout.size
}

/// The size of the buffer that the queue of a swapped world needs.
pub open spec fn swapped_size(start: usize) -> usize {
    if start == 0 {
        1
    } else {
        start
    }
}

/// Whether the queue of a swapped world needs a buffer of its own.
pub open spec fn needs_buffer<C>(queue: CommandQueue<C>, start: usize) -> bool {
    !queue.owned || queue.layout.size < start
}

/// The world at the end of a frame that began in the world with the given identifier: it counts
/// the frame if that is another one.
pub open spec fn with_replacement<C, R>(id: WorldId, world: World<C, R>) -> World<C, R> {
    if id == world.id {
        world
    } else {
        World {
            replacements: ((world.replacements + 1) % 0x1_0000_0000_0000_0000) as u64,
            ..world
        }
    }
}

/// Whether ending a frame may take one world to another. The queue is empty and starts
/// where the frame started. It owns its buffer if the frame did.
pub open spec fn frame_returned<C, R>(
    id: WorldId,
    frame: CommandQueue<C>,
    before: World<C, R>,
    after: World<C, R>,
) -> bool {
    let queue = before.command_queue;
    &&& after.command_queue.records@ == Seq::<Record<C>>::empty()
    &&& after == (World {
        command_queue: CommandQueue {
            records: after.command_queue.records,
            start: frame.start,
            end: frame.start,
            layout: if queue_swapped(id, frame, before) && needs_buffer(queue, frame.start) {
                Layout {
                    size: crate::layout::round_up(
                        swapped_size(frame.start) as int,
                        queue.layout.align as int,
                    ) as usize,
                    align: queue.layout.align,
                }
            } else {
                queue.layout
            },
            owned: if queue_swapped(id, frame, before) {
                true
            } else {
                queue.owned || frame.owned
            },
            ..queue
        },
        ..with_replacement(id, before)
    })
}

/// Whether ending a frame fails: the buffer that a swapped world needs cannot be had.
pub open spec fn frame_stuck<C, R>(
    id: WorldId,
    frame: CommandQueue<C>,
    world: World<C, R>,
) -> bool {
    &&& queue_swapped(id, frame, world)
    &&& needs_buffer(world.command_queue, frame.start)
    &&& crate::layout::round_up(
        swapped_size(frame.start) as int,
        world.command_queue.layout.align as int,
    ) > isize::MAX
}

/// Whether ending a frame that had an outcome may take one world to another with a
/// result.
pub open spec fn frame_ended<C, R>(
    id: WorldId,
    frame: CommandQueue<C>,
    before: World<C, R>,
    after: World<C, R>,
    outcome: Outcome,
    result: Outcome,
) -> bool {
    if frame_stuck(id, frame, before) {
        &&& after == with_replacement(id, before)
        &&& result == Outcome::Panicked(PanicPayload::CapacityOverflow)
    } else {
        frame_returned(id, frame, before, after) && result == outcome
    }
}

/// Runs the records that were taken from a queue.
pub struct CommandQueueRunner<C> {
    /// The records that have not been run.
    pub records: VecDeque<Record<C>>,
    /// The start of the next record, or the end if there are no more records.
    pub cursor: usize,
    /// The end of the frame.
    pub end: usize,
}

impl<C> CommandQueueRunner<C> {
    /// Whether the records reach from the cursor to the end.
    pub open spec fn wf(self) -> bool {
        &&& crate::world::command_queue::contiguous(
            self.records@,
            self.cursor as int,
            self.end as int,
        )
        &&& forall|i: int|
            0 <= i < self.records@.len() ==> (#[trigger] self.records@[i]).start
                < self.records@[i].end
    }

    /// Takes the records out of a queue.
    pub fn new(queue: &mut CommandQueue<C>) -> (runner: Self)
        requires
            old(queue).wf(),
        ensures
            runner.wf(),
            runner.records@ == old(queue).records@,
            runner.cursor == old(queue).start,
            runner.end == old(queue).end,
            final(queue).wf(),
            final(queue).records@ == Seq::<Record<C>>::empty(),
            *final(queue) == (CommandQueue {
                records: final(queue).records,
                end: old(queue).start,
                ..*old(queue)
            }),
    {
        let mut records: VecDeque<Record<C>> = VecDeque::new();
        let cursor: usize = queue.start;
        let end: usize = queue.end;
        proof {
            assert forall|i: int| 0 <= i < queue.records@.len() implies (
            #[trigger] queue.records@[i]).start < queue.records@[i].end by {
                assert(queue.records@[i].wf(queue.layout.align as int));
            }
        }
        std::mem::swap(&mut records, &mut queue.records);
        queue.end = queue.start;
        CommandQueueRunner { records, cursor, end }
    }

    /// Drops the records that have not been run.
    pub fn discard(&mut self, from_error_handler: &mut bool)
        requires
            old(self).wf(),
        ensures
            final(self).wf(),
            final(self).records@ == Seq::<Record<C>>::empty(),
            final(self).end == old(self).end,
            !*final(from_error_handler),
    {
        *from_error_handler = false;
        self.records = VecDeque::new();
        self.cursor = self.end;
    }
}

impl<C: Command> CommandQueueRunner<C> {
    /// Consumes the records in order. Stops at a panic that the error handler does not
    /// handle.
    pub fn run(&mut self, world: &mut World<C, C::Resources>, depth: u64) -> (result: Outcome)
        requires
            old(self).wf(),
            old(world).wf(),
        ensures
            final(self).wf(),
            final(world).wf(),
            ran(old(self).records@, *old(world), *final(world), result, depth as nat),
            result is Completed ==> final(self).records@.len() == 0,
            final(self).end == old(self).end,
        decreases depth, 4int,
    {
        world.panic_originates_from_error_handler = false;
        let ghost records = self.records@;
        let ghost start = *world;
        assert(records.take(0) =~= Seq::<Record<C>>::empty());
        while self.cursor < self.end
            invariant
                self.wf(),
                self.end == old(self).end,
                world.wf(),
                records == old(self).records@,
                start == old(world).with_panic_origin(false),
                self.records@.len() <= records.len(),
                self.records@ == records.skip(records.len() - self.records@.len()),
                completed(
                    records.take(records.len() - self.records@.len()),
                    start,
                    *world,
                    depth as nat,
                ),
            decreases self.records@.len(),
        {
            let ghost n = records.len() - self.records@.len();
            let ghost mid = *world;
            match self.records.pop_front() {
                Some(record) => {
                    self.cursor = record.end;
                    proof {
                        assert(record == records[n]);
                        assert(self.records@ =~= records.skip(n + 1));
                        assert(records.take(n + 1).drop_last() =~= records.take(n));
                        assert(records.take(n + 1).last() == records[n]);
                    }
                    let consumption = Self::consume(record, world, depth);
                    if consumption.is_panic() {
                        assert(step_at(n, mid));
                        assert(interrupted(records, start, *world, consumption, depth as nat));
                        return consumption;
                    }
                    assert(step(mid, Outcome::Completed));
                },
                None => {
                    assert(false);
                },
            }
        }
        proof {
            assert(self.records@.len() == 0) by {
                if self.records@.len() > 0 {
                    runner_progress(*self);
                }
            }
            assert(records.take(records.len() as int) =~= records);
        }
        Outcome::Completed
    }

    /// Applies the command of a record, flushes the world, and handles a panic.
    fn consume(record: Record<C>, world: &mut World<C, C::Resources>, depth: u64) -> (result:
        Outcome)
        requires
            old(world).wf(),
        ensures
            final(world).wf(),
            consumed(record, *old(world), *final(world), result, depth as nat),
        decreases depth, 3int,
    {
        match record.command {
            None => Outcome::Completed,
            Some(command) => {
                let name = command.name();
                let attempt = Self::attempt(command, world, depth);
                assert(step(*world, attempt));
                match attempt {
                    Outcome::Completed => Outcome::Completed,
                    Outcome::Panicked(payload) => handle_panic_payload(world, payload, name),
                }
            },
        }
    }

    /// Applies a command and flushes the commands that it queued.
    fn attempt(command: C, world: &mut World<C, C::Resources>, depth: u64) -> (result: Outcome)
        requires
            old(world).wf(),
        ensures
            final(world).wf(),
            attempted(command, *old(world), *final(world), result, depth as nat),
        decreases depth, 2int,
    {
        match command.apply(world) {
            Outcome::Completed => world.flush_nested(depth),
            Outcome::Panicked(payload) => Outcome::Panicked(payload),
        }
    }
}

/// The records of a runner, if there are any, are not empty.
proof fn runner_progress<C>(runner: CommandQueueRunner<C>)
    requires
        runner.wf(),
        runner.records@.len() > 0,
    ensures
        runner.cursor < runner.end,
{
    progress(runner.records@, runner.cursor as int, runner.end as int);
}

proof fn progress<C>(records: Seq<Record<C>>, start: int, end: int)
    requires
        crate::world::command_queue::contiguous(records, start, end),
        forall|i: int|
            0 <= i < records.len() ==> (#[trigger] records[i]).start < records[i].end,
        records.len() > 0,
    ensures
        start < end,
    decreases records.len(),
{
    let last = records.len() - 1;
    assert(records[last].start < records[last].end);
    if last > 0 {
        assert(records[last - 1].end == records[last].start);
        progress(records.drop_last(), start, records[last - 1].end as int);
    }
}

/// Handles a panic in the command with the given name.
pub fn handle_panic_payload<C: Command>(
    world: &mut World<C, C::Resources>,
    payload: PanicPayload,
    name: String,
) -> (result: Outcome)
    requires
        old(world).wf(),
    ensures
        final(world).wf(),
        handled(name@, payload, *old(world), *final(world), result),
{
    let from_error_handler = world.panic_originates_from_error_handler;
    world.panic_originates_from_error_handler = false;
    if from_error_handler || payload.exceeds_machine() {
        return Outcome::Panicked(payload);
    }
    let error = CommandError {
        severity: Severity::Panic,
        message: "Command panicked".to_string(),
        name,
    };
    let ghost told = error;
    let mut from_error_handler = false;
    let result = C::handle_error(error, &mut world.resources, &mut from_error_handler);
    world.panic_originates_from_error_handler = from_error_handler;
    assert(told.is_panic_of(name@));
    result
}

/// Holds the queue of a world while a frame runs.
pub struct WorldCommandQueueRunner<C> {
    /// The identifier of the world.
    pub world_id: WorldId,
    /// The queue, with the records of the frame.
    pub command_queue: CommandQueue<C>,
}

impl<C> WorldCommandQueueRunner<C> {
    /// Takes the queue of a world, but lends the tail of the buffer to the world for
    /// nested frames.
    pub fn new<R>(world: &mut World<C, R>) -> (runner: Self)
        requires
            old(world).wf(),
        ensures
            final(world).wf(),
            runner.world_id == old(world).id,
            runner.command_queue == old(world).command_queue,
            lent_tail(*old(world), *final(world)),
    {
        let mut records: VecDeque<Record<C>> = VecDeque::new();
        let ghost queue = world.command_queue;
        proof {
            crate::world::command_queue::frame_end_is_aligned(queue);
        }
        std::mem::swap(&mut records, &mut world.command_queue.records);
        let command_queue = CommandQueue {
            records,
            layout: world.command_queue.layout,
            start: world.command_queue.start,
            end: world.command_queue.end,
            owned: world.command_queue.owned,
            caller: world.command_queue.caller,
            warn_on_unapplied: world.command_queue.warn_on_unapplied,
        };
        // The queue may not have owned the buffer before.
        world.command_queue.owned = false;
        world.command_queue.start = world.command_queue.end;
        WorldCommandQueueRunner { world_id: world.id, command_queue }
    }

    /// Ends the lease on the tail of the buffer and gives the frame back to the world.
    pub fn finish<R>(self, world: &mut World<C, R>) -> (result: Outcome)
        requires
            self.command_queue.wf(),
            self.command_queue.end == self.command_queue.start,
            old(world).wf(),
        ensures
            final(world).wf(),
            frame_stuck(self.world_id, self.command_queue, *old(world)) ==> *final(world)
                == with_replacement(self.world_id, *old(world)) && result == Outcome::Panicked(
                PanicPayload::CapacityOverflow,
            ),
            !frame_stuck(self.world_id, self.command_queue, *old(world)) ==> result is Completed
                && frame_returned(self.world_id, self.command_queue, *old(world), *final(world)),
    {
        let start: usize = self.command_queue.start;
        if self.world_id != world.id {
            world.replacements = world.replacements.wrapping_add(1);
        }
        if self.world_id != world.id || world.command_queue.layout.size
            < self.command_queue.layout.size {
            // A command may replace the world itself. The lease cannot be ended then.
            // A queue that owns its buffer shares it with no other command.
            if !world.command_queue.owned || world.command_queue.layout.size < start {
                let size: usize = if start == 0 {
                    1
                } else {
                    start
                };
                let align: usize = world.command_queue.layout.align;
                match Layout::from_size_align(size, align) {
                    Some(layout) => {
                        proof {
                            crate::layout::round_up_is_least(size as int, align as int);
                        }
                        world.command_queue.layout = layout.pad_to_align();
                        world.command_queue.owned = true;
                    },
                    None => {
                        return Outcome::Panicked(PanicPayload::CapacityOverflow);
                    },
                }
            }
        } else if self.command_queue.owned {
            // If the queue owns a larger buffer, the older one is dropped.
            world.command_queue.owned = true;
        }
        world.command_queue.records = VecDeque::new();
        world.command_queue.start = start;
        world.command_queue.end = start;
        Outcome::Completed
    }
}

impl<C: Command> WorldCommandQueueRunner<C> {
    /// Runs the commands of the frame. Drops those that are left after a panic.
    pub fn apply_queued(&mut self, world: &mut World<C, C::Resources>, depth: u64) -> (result:
        Outcome)
        requires
            old(self).command_queue.wf(),
            old(world).wf(),
        ensures
            final(world).wf(),
            final(self).world_id == old(self).world_id,
            final(self).command_queue.wf(),
            final(self).command_queue == (CommandQueue {
                records: final(self).command_queue.records,
                end: old(self).command_queue.start,
                ..old(self).command_queue
            }),
            exists|run: World<C, C::Resources>|
                {
                    &&& #[trigger] step(run, result)
                    &&& ran(
                        old(self).command_queue.records@,
                        *old(world),
                        run,
                        result,
                        depth as nat,
                    )
                    &&& run.wf()
                    &&& *final(world) == after_discard(run, result)
                },
        decreases depth, 5int,
    {
        let mut runner = CommandQueueRunner::new(&mut self.command_queue);
        let result = runner.run(world, depth);
        assert(step(*world, result));
        if result.is_panic() {
            runner.discard(&mut world.panic_originates_from_error_handler);
        }
        result
    }
}

impl<C: Command> World<C, C::Resources> {
    /// Flushes the commands of the world, with at most `depth` nested frames.
    pub fn flush_nested(&mut self, depth: u64) -> (result: Outcome)
        requires
            old(self).wf(),
        ensures
            final(self).wf(),
            flushed(*old(self), *final(self), result, depth as nat),
        decreases depth, 1int,
    {
        if self.command_queue.is_empty() {
            return Outcome::Completed;
        }
        CommandQueue::flush_world_commands(self, depth)
    }

    /// Runs the commands in the queue of the world, and those that they queue.
    pub fn flush_commands(&mut self) -> (result: Outcome)
        requires
            old(self).wf(),
        ensures
            final(self).wf(),
            flushed(*old(self), *final(self), result, u64::MAX as nat),
    {
        self.flush_nested(u64::MAX)
    }
}

impl<C: Command> CommandQueue<C> {
    /// Runs the commands in the queue of a world, which is not empty, in a frame.
    fn flush_world_commands(world: &mut World<C, C::Resources>, depth: u64) -> (result: Outcome)
        requires
            old(world).wf(),
            old(world).command_queue.end != old(world).command_queue.start,
        ensures
            final(world).wf(),
            flushed(*old(world), *final(world), result, depth as nat),
        decreases depth, 0int,
    {
        if depth == 0 {
            return Outcome::Panicked(PanicPayload::NestingTooDeep);
        }
        let mut runner = WorldCommandQueueRunner::new(world);
        let outcome = runner.apply_queued(world, depth - 1);
        match runner.finish(world) {
            Outcome::Completed => outcome,
            Outcome::Panicked(payload) => Outcome::Panicked(payload),
        }
    }

    /// Appends a command.
    pub fn push(&mut self, command: C)
        requires
            old(self).wf(),
            crate::world::command_queue::can_reserve(
                old(self).layout,
                old(self).end as int,
                crate::world::command_queue::record_layout_spec(command.layout_spec()),
            ),
        ensures
            final(self).wf(),
            final(self).commands() == old(self).commands().push(command),
            final(self).end == crate::world::command_queue::record_end(
                old(self).end as int,
                command.layout_spec(),
            ),
            final(self).layout == crate::world::command_queue::layout_after(
                old(self).layout,
                old(self).end as int,
                crate::world::command_queue::record_layout_spec(command.layout_spec()),
            ),
            final(self).owned == (old(self).owned || crate::world::command_queue::allocates(
                old(self).layout,
                old(self).end as int,
                crate::world::command_queue::record_layout_spec(command.layout_spec()),
            )),
            final(self).same_settings(*old(self)),
            final(self).records@ == old(self).records@.push(
                Record {
                    start: old(self).end,
                    end: final(self).end,
                    layout: command.layout_spec(),
                    command: Some(command),
                },
            ),
    {
        let layout = command.layout();
        self.push_with_layout(command, layout);
    }

    /// Moves the commands in the queue to the queue of a world.
    pub fn queue(&mut self, world: &mut World<C, C::Resources>)
        requires
            old(self).wf(),
            old(world).wf(),
            crate::world::command_queue::can_append(old(world).command_queue, *old(self)),
        ensures
            final(self).wf(),
            final(world).wf(),
            final(world).command_queue.commands() == old(world).command_queue.commands() + old(
                self,
            ).commands(),
            final(self).commands() == Seq::<C>::empty(),
            *final(world) == (World { command_queue: final(world).command_queue, ..*old(world) }),
            crate::world::command_queue::appended(
                old(world).command_queue,
                *old(self),
                final(world).command_queue,
                *final(self),
            ),
    {
        world.command_queue.append(self);
    }

    /// Flushes the world and then runs the commands in the queue, which is empty
    /// afterwards. If flushing the world panics, the queue is left as it is. If a command
    /// panics, those after it are dropped.
    pub fn apply(&mut self, world: &mut World<C, C::Resources>) -> (result: Outcome)
        requires
            old(self).wf(),
            old(world).wf(),
        ensures
            final(self).wf(),
            final(world).wf(),
            queue_applied(*old(self), *old(world), *final(self), *final(world), result),
    {
        let flush = world.flush_commands();
        if flush.is_panic() {
            return flush;
        }
        let ghost mid = *world;
        let mut runner = CommandQueueRunner::new(self);
        let result = runner.run(world, u64::MAX);
        assert(step(mid, Outcome::Completed) && step(*world, result));
        if result.is_panic() {
            runner.discard(&mut world.panic_originates_from_error_handler);
        }
        result
    }
}

/// Whether a queue has been emptied.
pub open spec fn emptied<C>(before: CommandQueue<C>, after: CommandQueue<C>) -> bool {
    &&& after.records@ == Seq::<Record<C>>::empty()
    &&& after == (CommandQueue { records: after.records, end: before.start, ..before })
}

/// Whether applying a queue to a world may take both to others with a result.
pub open spec fn queue_applied<C: Command>(
    queue_before: CommandQueue<C>,
    before: World<C, C::Resources>,
    queue_after: CommandQueue<C>,
    after: World<C, C::Resources>,
    result: Outcome,
) -> bool {
    ||| flushed(before, after, result, u64::MAX as nat) && result is Panicked && queue_after
        == queue_before
    ||| emptied(queue_before, queue_after) && exists|
        mid: World<C, C::Resources>,
        run: World<C, C::Resources>,
    |
        {
            &&& #[trigger] step(mid, Outcome::Completed)
            &&& #[trigger] step(run, result)
            &&& flushed(before, mid, Outcome::Completed, u64::MAX as nat)
            &&& ran(queue_before.records@, mid, run, result, u64::MAX as nat)
            &&& after == after_discard(run, result)
        }
}

} // verus!
