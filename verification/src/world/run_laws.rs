//! What holds of running single commands.

use vstd::prelude::*;

use crate::world::command::{Command, CommandError, Outcome, PanicPayload};
use crate::world::command_queue::{CommandQueue, Record};
use crate::world::{World, WorldId};

verus! {

/// A panic that comes from an error handler, or from a limit of the machine, goes on, and the
/// world forgets where it came from. Any other panic of a command is handed to the error handler,
/// which is told that the command with the given name panicked. The handler decides what comes of
/// it, and changes nothing in the world but its resources.
pub proof fn panics_are_handed_to_the_handler<C: Command>(
    name: Seq<char>,
    payload: PanicPayload,
    before: World<C, C::Resources>,
    after: World<C, C::Resources>,
    result: Outcome,
)
    requires
        crate::world::runner::handled(name, payload, before, after, result),
    ensures
        before.panic_originates_from_error_handler || payload is NestingTooDeep
            || payload is CapacityOverflow ==> {
            &&& result is Panicked
            &&& result->Panicked_0 == payload
            &&& after == (World { panic_originates_from_error_handler: false, ..before })
        },
        !before.panic_originates_from_error_handler && (payload is Message || payload is Kept)
            ==> {
            &&& exists|error: CommandError|
                {
                    &&& error.severity is Panic
                    &&& error.message@ == "Command panicked"@
                    &&& error.name@ == name
                    &&& #[trigger] C::error_handled(
                        error,
                        before.resources,
                        after.resources,
                        after.panic_originates_from_error_handler,
                        result,
                    )
                }
            &&& after.id == before.id
            &&& after.storages == before.storages
            &&& after.observers == before.observers
            &&& after.last_trigger_id == before.last_trigger_id
            &&& after.command_queue == before.command_queue
            &&& after.replacements == before.replacements
        },
{
}

/// Consuming a record without a command does nothing. Consuming a record with a command applies it.
/// If it panics, nothing is flushed, and the panic is handled. If it does not, the commands that it
/// has queued are run. If all of them are completed, so is the record.
pub proof fn record_applies_its_command<C: Command>(
    record: Record<C>,
    before: World<C, C::Resources>,
    after: World<C, C::Resources>,
    result: Outcome,
    depth: nat,
)
    requires
        crate::world::runner::consumed(record, before, after, result, depth),
    ensures
        record.command is None ==> after == before && result is Completed,
        record.command is Some ==> exists|applied: World<C, C::Resources>, outcome: Outcome|
            {
                &&& #[trigger] record.command->0.applied(before, applied, outcome)
                &&& outcome is Panicked ==> crate::world::runner::handled(
                    record.command->0.name_spec(),
                    outcome->Panicked_0,
                    applied,
                    after,
                    result,
                )
                &&& outcome is Completed && applied.command_queue.end
                    == applied.command_queue.start ==> after == applied && result is Completed
                &&& outcome is Completed ==> exists|
                    flushed: World<C, C::Resources>,
                    flush: Outcome,
                |
                    {
                        &&& #[trigger] crate::world::runner::flushed(
                            applied,
                            flushed,
                            flush,
                            depth,
                        )
                        &&& flush is Completed ==> after == flushed && result is Completed
                        &&& flush is Panicked ==> crate::world::runner::handled(
                            record.command->0.name_spec(),
                            flush->Panicked_0,
                            flushed,
                            after,
                            result,
                        )
                    }
            },
{
    if record.command is Some {
        let command = record.command->0;
        let (mid, attempt) = choose|mid: World<C, C::Resources>, attempt: Outcome|
            {
                &&& #[trigger] crate::world::runner::step(mid, attempt)
                &&& crate::world::runner::attempted(command, before, mid, attempt, depth)
                &&& match attempt {
                    Outcome::Completed => after == mid && result is Completed,
                    Outcome::Panicked(payload) => crate::world::runner::handled(
                        command.name_spec(),
                        payload,
                        mid,
                        after,
                        result,
                    ),
                }
            };
        assert(crate::world::runner::attempted(command, before, mid, attempt, depth));
        let (applied, outcome) = choose|applied: World<C, C::Resources>, outcome: Outcome|
            #[trigger] command.applied(before, applied, outcome) && applied.wf() && match outcome {
                Outcome::Completed => crate::world::runner::flushed(applied, mid, attempt, depth),
                Outcome::Panicked(_) => mid == applied && attempt == outcome,
            };
        assert(command.applied(before, applied, outcome));
        if outcome is Completed {
            assert(crate::world::runner::flushed(applied, mid, attempt, depth));
        }
    }
}

/// Records are consumed one after another. Completing none of them changes nothing, and completing
/// one more is completing those before it and consuming it then.
pub proof fn records_are_consumed_in_order<C: Command>(
    records: Seq<Record<C>>,
    last: Record<C>,
    before: World<C, C::Resources>,
    after: World<C, C::Resources>,
    depth: nat,
)
    ensures
        crate::world::runner::completed(Seq::<Record<C>>::empty(), before, after, depth)
            <==> after == before,
        crate::world::runner::completed(records.push(last), before, after, depth) <==> exists|
            mid: World<C, C::Resources>,
        |
            crate::world::runner::completed(records, before, mid, depth)
                && #[trigger] crate::world::runner::consumed(
                last,
                mid,
                after,
                Outcome::Completed,
                depth,
            ),
{
    let all = records.push(last);
    assert(all.drop_last() =~= records);
    assert(all.last() == last);
    if crate::world::runner::completed(all, before, after, depth) {
        let mid = choose|mid: World<C, C::Resources>|
            {
                &&& #[trigger] crate::world::runner::step(mid, Outcome::Completed)
                &&& crate::world::runner::completed(all.drop_last(), before, mid, depth)
                &&& crate::world::runner::consumed(
                    all.last(),
                    mid,
                    after,
                    Outcome::Completed,
                    depth,
                )
            };
        assert(crate::world::runner::consumed(last, mid, after, Outcome::Completed, depth));
    }
    if exists|mid: World<C, C::Resources>|
        crate::world::runner::completed(records, before, mid, depth)
            && #[trigger] crate::world::runner::consumed(
            last,
            mid,
            after,
            Outcome::Completed,
            depth,
        ) {
        let mid = choose|mid: World<C, C::Resources>|
            crate::world::runner::completed(records, before, mid, depth)
                && #[trigger] crate::world::runner::consumed(
                last,
                mid,
                after,
                Outcome::Completed,
                depth,
            );
        assert(crate::world::runner::step(mid, Outcome::Completed));
    }
}

/// A run forgets first where an earlier panic came from. If it panics, then the records before some
/// record were completed, consuming that one panicked, and those after it were not consumed.
pub proof fn run_stops_at_a_panic<C: Command>(
    records: Seq<Record<C>>,
    before: World<C, C::Resources>,
    after: World<C, C::Resources>,
    result: Outcome,
    depth: nat,
)
    requires
        crate::world::runner::ran(records, before, after, result, depth),
    ensures
        ({
            let start = World { panic_originates_from_error_handler: false, ..before };
            &&& result is Completed ==> crate::world::runner::completed(
                records,
                start,
                after,
                depth,
            )
            &&& result is Panicked ==> exists|n: int, mid: World<C, C::Resources>|
                {
                    &&& 0 <= n < records.len()
                    &&& crate::world::runner::completed(records.take(n), start, mid, depth)
                    &&& #[trigger] crate::world::runner::consumed(
                        records[n],
                        mid,
                        after,
                        result,
                        depth,
                    )
                }
        }),
{
    let start = before.with_panic_origin(false);
    if result is Panicked {
        assert(crate::world::runner::interrupted(records, start, after, result, depth));
        let (n, mid) = choose|n: int, mid: World<C, C::Resources>|
            {
                &&& 0 <= n < records.len()
                &&& #[trigger] crate::world::runner::step_at(n, mid)
                &&& crate::world::runner::completed(records.take(n), start, mid, depth)
                &&& crate::world::runner::consumed(records[n], mid, after, result, depth)
            };
        assert(crate::world::runner::consumed(records[n], mid, after, result, depth));
    }
}

/// Flushing a world whose queue is empty does nothing. Otherwise its commands run in a frame: the
/// world has an empty queue meanwhile, which begins where the commands end and does not own the
/// buffer. If frames are nested too deeply, nothing is run. After a panic the world forgets where
/// it came from.
pub proof fn flush_runs_the_commands_of_the_world<C: Command>(
    before: World<C, C::Resources>,
    after: World<C, C::Resources>,
    result: Outcome,
    depth: nat,
)
    requires
        crate::world::runner::flushed(before, after, result, depth),
    ensures
        before.command_queue.end == before.command_queue.start ==> after == before
            && result is Completed,
        before.command_queue.end != before.command_queue.start && depth == 0 ==> {
            &&& after == before
            &&& result is Panicked
            &&& result->Panicked_0 is NestingTooDeep
        },
        before.command_queue.end != before.command_queue.start && depth > 0 ==> exists|
            lent: World<C, C::Resources>,
            run: World<C, C::Resources>,
            outcome: Outcome,
        |
            {
                &&& lent.command_queue.records@.len() == 0
                &&& lent == (World {
                    command_queue: CommandQueue {
                        records: lent.command_queue.records,
                        start: before.command_queue.end,
                        owned: false,
                        ..before.command_queue
                    },
                    ..before
                })
                &&& #[trigger] crate::world::runner::ran(
                    before.command_queue.records@,
                    lent,
                    run,
                    outcome,
                    (depth - 1) as nat,
                )
                &&& crate::world::runner::frame_ended(
                    before.id,
                    before.command_queue,
                    if outcome is Panicked {
                        World { panic_originates_from_error_handler: false, ..run }
                    } else {
                        run
                    },
                    after,
                    outcome,
                    result,
                )
            },
{
    if before.command_queue.end != before.command_queue.start && depth > 0 {
        let (lent, run, outcome) = choose|
            lent: World<C, C::Resources>,
            run: World<C, C::Resources>,
            outcome: Outcome,
        |
            {
                &&& #[trigger] crate::world::runner::step(run, outcome)
                &&& #[trigger] crate::world::runner::lent_tail(before, lent)
                &&& crate::world::runner::ran(
                    before.command_queue.records@,
                    lent,
                    run,
                    outcome,
                    (depth - 1) as nat,
                )
                &&& run.wf()
                &&& crate::world::runner::frame_ended(
                    before.id,
                    before.command_queue,
                    crate::world::runner::after_discard(run, outcome),
                    after,
                    outcome,
                    result,
                )
            };
        assert(crate::world::runner::ran(
            before.command_queue.records@,
            lent,
            run,
            outcome,
            (depth - 1) as nat,
        ));
    }
}

/// A frame that ends in the world in which it began, with a buffer that is not smaller, gives the
/// queue back: it is empty, begins where the frame began, and owns the buffer if the frame or a
/// nested one did. Nothing else in the world changes.
pub proof fn frame_gives_back_the_queue<C, R>(
    id: WorldId,
    frame: CommandQueue<C>,
    before: World<C, R>,
    after: World<C, R>,
    outcome: Outcome,
    result: Outcome,
)
    requires
        crate::world::runner::frame_ended(id, frame, before, after, outcome, result),
        id == before.id,
        before.command_queue.layout.size >= frame.layout.size,
    ensures
        result == outcome,
        after.command_queue.records@.len() == 0,
        after.command_queue.start == frame.start,
        after.command_queue.end == frame.start,
        after.command_queue.layout == before.command_queue.layout,
        after.command_queue.owned <==> before.command_queue.owned || frame.owned,
        after.command_queue.caller == before.command_queue.caller,
        after.command_queue.warn_on_unapplied == before.command_queue.warn_on_unapplied,
        after == (World { command_queue: after.command_queue, ..before }),
{
}

/// A frame that ends in another world, or whose queue has a smaller buffer, leaves that queue
/// empty where the frame began. The queue owns its buffer. It keeps it if it owned it before and
/// the frame begins within it. Otherwise the queue gets one of the least size that reaches to
/// where the frame began and is not empty. If there cannot be such a buffer, the queue stays as it
/// is, and that is a panic.
pub proof fn frame_in_another_queue_gets_a_buffer<C, R>(
    id: WorldId,
    frame: CommandQueue<C>,
    before: World<C, R>,
    after: World<C, R>,
    outcome: Outcome,
    result: Outcome,
    size: int,
)
    requires
        crate::world::runner::frame_ended(id, frame, before, after, outcome, result),
        id != before.id || before.command_queue.layout.size < frame.layout.size,
        before.command_queue.layout.wf(),
        size > 0,
        size >= frame.start,
        size % before.command_queue.layout.align as int == 0,
    ensures
        ({
            let queue = before.command_queue;
            let keeps = queue.owned && frame.start <= queue.layout.size;
            let stuck = result == Outcome::Panicked(PanicPayload::CapacityOverflow)
                && after.command_queue == queue;
            &&& keeps || size <= isize::MAX ==> result == outcome
            &&& result == outcome && after.command_queue.owned && after.command_queue.records@.len()
                == 0 && after.command_queue.start == frame.start && after.command_queue.end
                == frame.start || stuck
            &&& keeps ==> after.command_queue.layout == queue.layout && after.command_queue.owned
            &&& !keeps && size <= isize::MAX ==> {
                &&& after.command_queue.owned
                &&& after.command_queue.layout.align == queue.layout.align
                &&& 0 < after.command_queue.layout.size <= size
                &&& frame.start <= after.command_queue.layout.size
                &&& after.command_queue.layout.size as int % queue.layout.align as int == 0
            }
            &&& after.command_queue.caller == queue.caller
            &&& after.command_queue.warn_on_unapplied == queue.warn_on_unapplied
        }),
{
    let needed = if frame.start == 0 {
        1int
    } else {
        frame.start as int
    };
    crate::layout::round_up_is_least(needed, before.command_queue.layout.align as int);
}

/// A world counts the frames that end in it and began in another one. The rest of the world, but
/// for its queue, stays as it is when a frame ends.
pub proof fn frames_of_other_worlds_are_counted<C, R>(
    id: WorldId,
    frame: CommandQueue<C>,
    before: World<C, R>,
    after: World<C, R>,
    outcome: Outcome,
    result: Outcome,
)
    requires
        crate::world::runner::frame_ended(id, frame, before, after, outcome, result),
    ensures
        id == before.id ==> after.replacements == before.replacements,
        id != before.id && before.replacements < u64::MAX ==> after.replacements
            == before.replacements + 1,
        id != before.id && before.replacements == u64::MAX ==> after.replacements == 0,
        after.id == before.id,
        after.storages == before.storages,
        after.observers == before.observers,
        after.last_trigger_id == before.last_trigger_id,
        after.resources == before.resources,
        after.panic_originates_from_error_handler == before.panic_originates_from_error_handler,
{
}

/// Applying a queue flushes the world first. If that panics, the queue stays as it is. If it does
/// not, the commands of the queue run on the flushed world, and the queue is empty afterwards.
pub proof fn queue_is_applied_to_the_flushed_world<C: Command>(
    queue: CommandQueue<C>,
    before: World<C, C::Resources>,
    queue_after: CommandQueue<C>,
    after: World<C, C::Resources>,
    result: Outcome,
)
    requires
        crate::world::runner::queue_applied(queue, before, queue_after, after, result),
    ensures
        ({
            &&& crate::world::runner::flushed(before, after, result, u64::MAX as nat)
            &&& result is Panicked
            &&& queue_after == queue
        }) || ({
            &&& queue_after.records@.len() == 0
            &&& queue_after.end == queue.start
            &&& queue_after.start == queue.start
            &&& queue_after.layout == queue.layout
            &&& queue_after.owned == queue.owned
            &&& exists|mid: World<C, C::Resources>, run: World<C, C::Resources>|
                {
                    &&& #[trigger] crate::world::runner::flushed(
                        before,
                        mid,
                        Outcome::Completed,
                        u64::MAX as nat,
                    )
                    &&& #[trigger] crate::world::runner::ran(
                        queue.records@,
                        mid,
                        run,
                        result,
                        u64::MAX as nat,
                    )
                    &&& result is Completed ==> after == run
                    &&& result is Panicked ==> after == (World {
                        panic_originates_from_error_handler: false,
                        ..run
                    })
                }
        }),
{
    if !(crate::world::runner::flushed(before, after, result, u64::MAX as nat) && result is Panicked
        && queue_after == queue) {
        let (mid, run) = choose|mid: World<C, C::Resources>, run: World<C, C::Resources>|
            {
                &&& #[trigger] crate::world::runner::step(mid, Outcome::Completed)
                &&& #[trigger] crate::world::runner::step(run, result)
                &&& crate::world::runner::flushed(before, mid, Outcome::Completed, u64::MAX as nat)
                &&& crate::world::runner::ran(queue.records@, mid, run, result, u64::MAX as nat)
                &&& after == crate::world::runner::after_discard(run, result)
            };
        assert(crate::world::runner::flushed(before, mid, Outcome::Completed, u64::MAX as nat));
        assert(crate::world::runner::ran(queue.records@, mid, run, result, u64::MAX as nat));
    }
}

/// Applying a queue to a world without waiting commands runs its commands on that world. If a
/// command panics, the world forgets where that came from. The queue is empty afterwards, and keeps
/// its buffer.
pub proof fn queue_is_applied_to_the_world<C: Command>(
    queue: CommandQueue<C>,
    before: World<C, C::Resources>,
    queue_after: CommandQueue<C>,
    after: World<C, C::Resources>,
    result: Outcome,
)
    requires
        crate::world::runner::queue_applied(queue, before, queue_after, after, result),
        before.command_queue.end == before.command_queue.start,
    ensures
        exists|run: World<C, C::Resources>|
            {
                &&& #[trigger] crate::world::runner::ran(
                    queue.records@,
                    before,
                    run,
                    result,
                    u64::MAX as nat,
                )
                &&& result is Completed ==> after == run
                &&& result is Panicked ==> after == (World {
                    panic_originates_from_error_handler: false,
                    ..run
                })
            },
        queue_after.records@.len() == 0,
        queue_after.end == queue.start,
        queue_after.start == queue.start,
        queue_after.layout == queue.layout,
        queue_after.owned == queue.owned,
        queue_after.caller == queue.caller,
        queue_after.warn_on_unapplied == queue.warn_on_unapplied,
{
    let (mid, run) = choose|mid: World<C, C::Resources>, run: World<C, C::Resources>|
        {
            &&& #[trigger] crate::world::runner::step(mid, Outcome::Completed)
            &&& #[trigger] crate::world::runner::step(run, result)
            &&& crate::world::runner::flushed(before, mid, Outcome::Completed, u64::MAX as nat)
            &&& crate::world::runner::ran(queue.records@, mid, run, result, u64::MAX as nat)
            &&& after == crate::world::runner::after_discard(run, result)
        };
    assert(crate::world::runner::ran(queue.records@, mid, run, result, u64::MAX as nat));
}

/// A command that is applied alone, to a world without waiting commands, and that queues no
/// commands, takes the world to what the command makes of it. If it panics for the first time, the
/// error handler is told so, with the name of the command.
pub proof fn single_command_is_applied<C: Command>(
    queue: CommandQueue<C>,
    command: C,
    before: World<C, C::Resources>,
    queue_after: CommandQueue<C>,
    after: World<C, C::Resources>,
    result: Outcome,
)
    requires
        crate::world::runner::queue_applied(queue, before, queue_after, after, result),
        before.command_queue.end == before.command_queue.start,
        queue.records@.len() == 1,
        queue.records@[0].command == Some(command),
    ensures
        exists|applied: World<C, C::Resources>, outcome: Outcome|
            {
                &&& #[trigger] command.applied(
                    World { panic_originates_from_error_handler: false, ..before },
                    applied,
                    outcome,
                )
                &&& outcome is Completed && applied.command_queue.end
                    == applied.command_queue.start ==> after == applied && result is Completed
                &&& outcome is Panicked && !applied.panic_originates_from_error_handler
                    && outcome->Panicked_0 is Message ==> exists|error: CommandError, from: bool|
                    {
                        &&& error.severity is Panic
                        &&& error.message@ == "Command panicked"@
                        &&& error.name@ == command.name_spec()
                        &&& #[trigger] C::error_handled(
                            error,
                            applied.resources,
                            after.resources,
                            from,
                            result,
                        )
                    }
            },
{
    let depth = u64::MAX as nat;
    let start = before.with_panic_origin(false);
    queue_is_applied_to_the_world(queue, before, queue_after, after, result);
    let run = choose|run: World<C, C::Resources>|
        {
            &&& #[trigger] crate::world::runner::ran(queue.records@, before, run, result, depth)
            &&& result is Completed ==> after == run
            &&& result is Panicked ==> after == (World {
                panic_originates_from_error_handler: false,
                ..run
            })
        };
    let record = queue.records@[0];
    run_stops_at_a_panic(queue.records@, before, run, result, depth);
    assert(crate::world::runner::consumed(record, start, run, result, depth)) by {
        if result is Completed {
            let none = Seq::<Record<C>>::empty();
            assert(none.push(record) =~= queue.records@);
            records_are_consumed_in_order(none, record, start, run, depth);
            let mid = choose|mid: World<C, C::Resources>|
                crate::world::runner::completed(none, start, mid, depth)
                    && #[trigger] crate::world::runner::consumed(
                    record,
                    mid,
                    run,
                    Outcome::Completed,
                    depth,
                );
            assert(mid == start);
        } else {
            let (n, mid) = choose|n: int, mid: World<C, C::Resources>|
                {
                    &&& 0 <= n < queue.records@.len()
                    &&& crate::world::runner::completed(queue.records@.take(n), start, mid, depth)
                    &&& #[trigger] crate::world::runner::consumed(
                        queue.records@[n],
                        mid,
                        run,
                        result,
                        depth,
                    )
                };
            assert(queue.records@.take(0) =~= Seq::<Record<C>>::empty());
            assert(mid == start);
        }
    }
    record_applies_its_command(record, start, run, result, depth);
    let (applied, outcome) = choose|applied: World<C, C::Resources>, outcome: Outcome|
        {
            &&& #[trigger] record.command->0.applied(start, applied, outcome)
            &&& outcome is Panicked ==> crate::world::runner::handled(
                record.command->0.name_spec(),
                outcome->Panicked_0,
                applied,
                run,
                result,
            )
            &&& outcome is Completed && applied.command_queue.end == applied.command_queue.start
                ==> run == applied && result is Completed
        };
    assert(command.applied(start, applied, outcome));
    if outcome is Panicked && !applied.panic_originates_from_error_handler
        && outcome->Panicked_0 is Message {
        panics_are_handed_to_the_handler(
            command.name_spec(),
            outcome->Panicked_0,
            applied,
            run,
            result,
        );
        let error = choose|error: CommandError|
            {
                &&& error.severity is Panic
                &&& error.message@ == "Command panicked"@
                &&& error.name@ == command.name_spec()
                &&& #[trigger] C::error_handled(
                    error,
                    applied.resources,
                    run.resources,
                    run.panic_originates_from_error_handler,
                    result,
                )
            };
        assert(C::error_handled(
            error,
            applied.resources,
            after.resources,
            run.panic_originates_from_error_handler,
            result,
        ));
    }
}

} // verus!
