//! What holds of queues of commands as a whole.

use vstd::prelude::*;

use crate::world::command::{Command, Outcome};
use crate::world::command_queue::{CommandQueue, Record};
use crate::world::World;

verus! {

/// Whether a world has kept to its command frame: the frame starts where it did, the
/// buffer is not smaller, it is the same one if it is not owned, and it is not lost if
/// it was owned.
pub open spec fn keeps_frame<C, R>(before: World<C, R>, after: World<C, R>) -> bool {
    &&& after.id == before.id
    &&& after.command_queue.start == before.command_queue.start
    &&& after.command_queue.layout.size >= before.command_queue.layout.size
    &&& before.command_queue.owned ==> after.command_queue.owned
    &&& !after.command_queue.owned ==> after.command_queue.layout.size
        == before.command_queue.layout.size
}

/// Whether every command keeps to the command frame in which it is applied.
pub open spec fn commands_keep_frame<C: Command>() -> bool {
    forall|
        command: C,
        before: World<C, C::Resources>,
        after: World<C, C::Resources>,
        outcome: Outcome,
    | #[trigger]
        command.applied(before, after, outcome) ==> keeps_frame(before, after)
}

/// If every command keeps to its frame, then flushing a world does, too: whatever
/// frames are nested in it, the world gets back its frame, with a buffer that is not
/// smaller. If the flush is completed, the frame is empty.
pub proof fn flush_keeps_frame<C: Command>(
    before: World<C, C::Resources>,
    after: World<C, C::Resources>,
    outcome: Outcome,
    depth: nat,
)
    requires
        commands_keep_frame::<C>(),
        crate::world::runner::flushed(before, after, outcome, depth),
    ensures
        keeps_frame(before, after),
        outcome is Completed ==> after.command_queue.end == after.command_queue.start,
    decreases depth, 1nat, 0nat,
{
    if before.command_queue.end != before.command_queue.start && depth > 0 {
        let (lent, run, result) = choose|
            lent: World<C, C::Resources>,
            run: World<C, C::Resources>,
            result: Outcome,
        |
            {
                &&& #[trigger] crate::world::runner::step(run, result)
                &&& #[trigger] crate::world::runner::lent_tail(before, lent)
                &&& crate::world::runner::ran(
                    before.command_queue.records@,
                    lent,
                    run,
                    result,
                    (depth - 1) as nat,
                )
                &&& run.wf()
                &&& crate::world::runner::frame_ended(
                    before.id,
                    before.command_queue,
                    crate::world::runner::after_discard(run, result),
                    after,
                    result,
                    outcome,
                )
            };
        run_keeps_frame(before.command_queue.records@, lent, run, result, (depth - 1) as nat);
    }
}

/// If every command keeps to its frame, then running records does, too.
pub proof fn run_keeps_frame<C: Command>(
    records: Seq<Record<C>>,
    before: World<C, C::Resources>,
    after: World<C, C::Resources>,
    outcome: Outcome,
    depth: nat,
)
    requires
        commands_keep_frame::<C>(),
        crate::world::runner::ran(records, before, after, outcome, depth),
    ensures
        keeps_frame(before, after),
    decreases depth, 6nat, records.len(),
{
    let start = before.with_panic_origin(false);
    match outcome {
        Outcome::Completed => {
            completion_keeps_frame(records, start, after, depth);
        },
        Outcome::Panicked(_) => {
            assert(crate::world::runner::interrupted(records, start, after, outcome, depth));
            let (n, mid) = choose|n: int, mid: World<C, C::Resources>|
                0 <= n < records.len() && #[trigger] crate::world::runner::step_at(n, mid)
                    && crate::world::runner::completed(records.take(n), start, mid, depth)
                    && crate::world::runner::consumed(records[n], mid, after, outcome, depth);
            completion_keeps_frame(records.take(n), start, mid, depth);
            record_keeps_frame(records[n], mid, after, outcome, depth);
        },
    }
}

proof fn completion_keeps_frame<C: Command>(
    records: Seq<Record<C>>,
    before: World<C, C::Resources>,
    after: World<C, C::Resources>,
    depth: nat,
)
    requires
        commands_keep_frame::<C>(),
        crate::world::runner::completed(records, before, after, depth),
    ensures
        keeps_frame(before, after),
    decreases depth, 4nat, records.len(),
{
    if records.len() > 0 {
        let mid = choose|mid: World<C, C::Resources>| #[trigger]
            crate::world::runner::step(mid, Outcome::Completed) && crate::world::runner::completed(
                records.drop_last(),
                before,
                mid,
                depth,
            ) && crate::world::runner::consumed(
                records.last(),
                mid,
                after,
                Outcome::Completed,
                depth,
            );
        completion_keeps_frame(records.drop_last(), before, mid, depth);
        record_keeps_frame(records.last(), mid, after, Outcome::Completed, depth);
    }
}

proof fn record_keeps_frame<C: Command>(
    record: Record<C>,
    before: World<C, C::Resources>,
    after: World<C, C::Resources>,
    outcome: Outcome,
    depth: nat,
)
    requires
        commands_keep_frame::<C>(),
        crate::world::runner::consumed(record, before, after, outcome, depth),
    ensures
        keeps_frame(before, after),
    decreases depth, 3nat, 0nat,
{
    match record.command {
        None => {},
        Some(command) => {
            let (mid, attempt) = choose|mid: World<C, C::Resources>, attempt: Outcome| #[trigger]
                crate::world::runner::step(mid, attempt) && crate::world::runner::attempted(
                    command,
                    before,
                    mid,
                    attempt,
                    depth,
                ) && match attempt {
                    Outcome::Completed => after == mid && outcome is Completed,
                    Outcome::Panicked(payload) => crate::world::runner::handled(
                        command.name_spec(),
                        payload,
                        mid,
                        after,
                        outcome,
                    ),
                };
            let (applied, result) = choose|applied: World<C, C::Resources>, result: Outcome|
                #[trigger] command.applied(before, applied, result) && applied.wf()
                    && match result {
                    Outcome::Completed => crate::world::runner::flushed(
                        applied,
                        mid,
                        attempt,
                        depth,
                    ),
                    Outcome::Panicked(_) => mid == applied && attempt == result,
                };
            if result is Completed {
                flush_keeps_frame(applied, mid, attempt, depth);
            }
        },
    }
}

/// Applying an empty queue to a world with an empty queue does nothing.
pub proof fn applying_nothing_does_nothing<C: Command>(
    queue: CommandQueue<C>,
    before: World<C, C::Resources>,
    queue_after: CommandQueue<C>,
    after: World<C, C::Resources>,
    outcome: Outcome,
)
    requires
        queue.records@.len() == 0,
        before.command_queue.end == before.command_queue.start,
        crate::world::runner::queue_applied(queue, before, queue_after, after, outcome),
    ensures
        outcome is Completed,
        after == before.with_panic_origin(false),
        queue_after.commands() == Seq::<C>::empty(),
{
}

/// Running records that follow each other is running the first ones and then the
/// others.
pub proof fn runs_compose<C: Command>(
    first: Seq<Record<C>>,
    second: Seq<Record<C>>,
    before: World<C, C::Resources>,
    after: World<C, C::Resources>,
    depth: nat,
)
    ensures
        crate::world::runner::completed(first + second, before, after, depth) <==> exists|
            mid: World<C, C::Resources>,
        | #[trigger]
            crate::world::runner::step(mid, Outcome::Completed) && crate::world::runner::completed(
                first,
                before,
                mid,
                depth,
            ) && crate::world::runner::completed(second, mid, after, depth),
    decreases second.len(),
{
    if second.len() == 0 {
        assert(first + second =~= first);
        assert(crate::world::runner::step(after, Outcome::Completed));
    } else {
        let all = first + second;
        assert(all.drop_last() =~= first + second.drop_last());
        assert(all.last() == second.last());
        if crate::world::runner::completed(all, before, after, depth) {
            let mid = choose|mid: World<C, C::Resources>| #[trigger]
                crate::world::runner::step(mid, Outcome::Completed)
                    && crate::world::runner::completed(all.drop_last(), before, mid, depth)
                    && crate::world::runner::consumed(
                    all.last(),
                    mid,
                    after,
                    Outcome::Completed,
                    depth,
                );
            runs_compose(first, second.drop_last(), before, mid, depth);
        }
        assert forall|mid: World<C, C::Resources>| #[trigger]
            crate::world::runner::step(mid, Outcome::Completed) && crate::world::runner::completed(
                first,
                before,
                mid,
                depth,
            ) && crate::world::runner::completed(
                second,
                mid,
                after,
                depth,
            ) implies crate::world::runner::completed(all, before, after, depth) by {
            let late = choose|late: World<C, C::Resources>| #[trigger]
                crate::world::runner::step(late, Outcome::Completed)
                    && crate::world::runner::completed(second.drop_last(), mid, late, depth)
                    && crate::world::runner::consumed(
                    second.last(),
                    late,
                    after,
                    Outcome::Completed,
                    depth,
                );
            runs_compose(first, second.drop_last(), before, late, depth);
        }
    }
}

proof fn only_command_matters<C: Command>(
    one: Record<C>,
    other: Record<C>,
    before: World<C, C::Resources>,
    after: World<C, C::Resources>,
    outcome: Outcome,
    depth: nat,
)
    requires
        one.command == other.command,
        crate::world::runner::consumed(one, before, after, outcome, depth),
    ensures
        crate::world::runner::consumed(other, before, after, outcome, depth),
{
}

/// Records with the same commands do the same when they are run, wherever they stand
/// and whatever padding is between them.
pub proof fn only_commands_matter<C: Command>(
    one: Seq<Record<C>>,
    other: Seq<Record<C>>,
    before: World<C, C::Resources>,
    after: World<C, C::Resources>,
    depth: nat,
)
    requires
        crate::world::command_queue::commands_of(one)
            == crate::world::command_queue::commands_of(other),
        crate::world::runner::completed(one, before, after, depth),
    ensures
        crate::world::runner::completed(other, before, after, depth),
    decreases one.len() + other.len(),
{
    if one.len() > 0 && one.last().command is None {
        let mid = choose|mid: World<C, C::Resources>| #[trigger]
            crate::world::runner::step(mid, Outcome::Completed) && crate::world::runner::completed(
                one.drop_last(),
                before,
                mid,
                depth,
            ) && crate::world::runner::consumed(
                one.last(),
                mid,
                after,
                Outcome::Completed,
                depth,
            );
        only_commands_matter(one.drop_last(), other, before, after, depth);
    } else if other.len() > 0 && other.last().command is None {
        only_commands_matter(one, other.drop_last(), before, after, depth);
        assert(crate::world::runner::step(after, Outcome::Completed));
        assert(crate::world::runner::consumed(
            other.last(),
            after,
            after,
            Outcome::Completed,
            depth,
        ));
    } else if one.len() > 0 {
        assert(crate::world::command_queue::commands_of(one).len() > 0);
        assert(other.len() > 0);
        let commands = crate::world::command_queue::commands_of(one);
        assert(commands.drop_last() =~= crate::world::command_queue::commands_of(one.drop_last()));
        assert(commands.drop_last() =~= crate::world::command_queue::commands_of(
            other.drop_last(),
        ));
        assert(commands.last() == one.last().command->0);
        assert(commands.last() == other.last().command->0);
        let mid = choose|mid: World<C, C::Resources>| #[trigger]
            crate::world::runner::step(mid, Outcome::Completed) && crate::world::runner::completed(
                one.drop_last(),
                before,
                mid,
                depth,
            ) && crate::world::runner::consumed(
                one.last(),
                mid,
                after,
                Outcome::Completed,
                depth,
            );
        only_commands_matter(one.drop_last(), other.drop_last(), before, mid, depth);
        only_command_matters(
            one.last(),
            other.last(),
            mid,
            after,
            Outcome::Completed,
            depth,
        );
    } else {
        assert(crate::world::command_queue::commands_of(other).len() == 0);
    }
}

/// Running a queue to which another one was appended is running the first one and then
/// the other one.
pub proof fn appended_commands_run_last<C: Command>(
    first: Seq<Record<C>>,
    second: Seq<Record<C>>,
    appended: Seq<Record<C>>,
    before: World<C, C::Resources>,
    after: World<C, C::Resources>,
    depth: nat,
)
    requires
        crate::world::command_queue::commands_of(appended)
            == crate::world::command_queue::commands_of(first)
            + crate::world::command_queue::commands_of(second),
    ensures
        crate::world::runner::completed(appended, before, after, depth) <==> exists|
            mid: World<C, C::Resources>,
        | #[trigger]
            crate::world::runner::step(mid, Outcome::Completed) && crate::world::runner::completed(
                first,
                before,
                mid,
                depth,
            ) && crate::world::runner::completed(second, mid, after, depth),
{
    crate::world::command_queue::commands_concat(first, second);
    runs_compose(first, second, before, after, depth);
    if crate::world::runner::completed(appended, before, after, depth) {
        only_commands_matter(appended, first + second, before, after, depth);
    }
    if crate::world::runner::completed(first + second, before, after, depth) {
        only_commands_matter(first + second, appended, before, after, depth);
    }
}

} // verus!
