//! What applying a queue of commands does, and what becomes of a queue over time.

use vstd::prelude::*;

use crate::world::command::{Command, Outcome};
use crate::world::command_queue::{CommandQueue, Record};
use crate::world::World;

verus! {

/// Marks the results of the commands that took their turn.
pub open spec fn attempts_made(attempts: Seq<Outcome>) -> bool {
    true
}

/// Whether a command may take its turn in a world, with an attempt that has the given result, and
/// take the world to another one. If the attempt panics, the panic is handled, and `outcome` tells
/// whether it goes on.
pub open spec fn took_turn<C: Command>(
    command: C,
    before: World<C, C::Resources>,
    after: World<C, C::Resources>,
    attempt: Outcome,
    outcome: Outcome,
    depth: nat,
) -> bool {
    exists|mid: World<C, C::Resources>|
        {
            &&& #[trigger] crate::world::runner::step(mid, attempt)
            &&& crate::world::runner::attempted(command, before, mid, attempt, depth)
            &&& match attempt {
                Outcome::Completed => after == mid && outcome is Completed,
                Outcome::Panicked(payload) => crate::world::runner::handled(
                    command.name_spec(),
                    payload,
                    mid,
                    after,
                    outcome,
                ),
            }
        }
}

/// Whether commands may take one world to another, each of them taking its turn once, in order.
/// There is one attempt for each command.
pub open spec fn in_turn<C: Command>(
    commands: Seq<C>,
    attempts: Seq<Outcome>,
    before: World<C, C::Resources>,
    after: World<C, C::Resources>,
    depth: nat,
) -> bool
    decreases commands.len(),
{
    &&& attempts.len() == commands.len()
    &&& if commands.len() == 0 {
        after == before
    } else {
        exists|mid: World<C, C::Resources>|
            {
                &&& #[trigger] crate::world::runner::step(mid, Outcome::Completed)
                &&& in_turn(commands.drop_last(), attempts.drop_last(), before, mid, depth)
                &&& took_turn(
                    commands.last(),
                    mid,
                    after,
                    attempts.last(),
                    Outcome::Completed,
                    depth,
                )
            }
    }
}

/// Whether commands may take one world to another with an outcome: each of them takes its turn
/// once, in order, up to the first one with a panic that goes on.
pub open spec fn ran_in_turn<C: Command>(
    commands: Seq<C>,
    attempts: Seq<Outcome>,
    before: World<C, C::Resources>,
    after: World<C, C::Resources>,
    outcome: Outcome,
    depth: nat,
) -> bool {
    match outcome {
        Outcome::Completed => in_turn(commands, attempts, before, after, depth),
        Outcome::Panicked(_) => {
            let n = attempts.len() - 1;
            &&& 0 <= n < commands.len()
            &&& exists|mid: World<C, C::Resources>|
                {
                    &&& #[trigger] crate::world::runner::step(mid, Outcome::Completed)
                    &&& in_turn(commands.take(n), attempts.drop_last(), before, mid, depth)
                    &&& took_turn(commands[n], mid, after, attempts.last(), outcome, depth)
                }
        },
    }
}

/// Whether the commands that wait in a world may have taken it to another one, in which none
/// wait: they ran in turn, in a frame of their own.
pub open spec fn own_commands_ran<C: Command>(
    attempts: Seq<Outcome>,
    before: World<C, C::Resources>,
    after: World<C, C::Resources>,
) -> bool {
    if before.command_queue.end == before.command_queue.start {
        after == before && attempts.len() == 0
    } else {
        exists|lent: World<C, C::Resources>, run: World<C, C::Resources>|
            #![trigger crate::world::runner::lent_tail(before, lent), crate::world::runner::step(
                run,
                Outcome::Completed,
            )]
            {
                &&& crate::world::runner::step(run, Outcome::Completed)
                &&& crate::world::runner::lent_tail(before, lent)
                &&& in_turn(
                    before.command_queue.commands(),
                    attempts,
                    lent.with_panic_origin(false),
                    run,
                    (u64::MAX - 1) as nat,
                )
                &&& crate::world::runner::frame_returned(
                    before.id,
                    before.command_queue,
                    run,
                    after,
                )
            }
    }
}

/// Records that are completed are commands that take their turns.
pub proof fn completed_in_turn<C: Command>(
    records: Seq<Record<C>>,
    before: World<C, C::Resources>,
    after: World<C, C::Resources>,
    depth: nat,
) -> (attempts: Seq<Outcome>)
    requires
        crate::world::runner::completed(records, before, after, depth),
    ensures
        in_turn(
            crate::world::command_queue::commands_of(records),
            attempts,
            before,
            after,
            depth,
        ),
    decreases records.len(),
{
    if records.len() == 0 {
        Seq::empty()
    } else {
        let commands = crate::world::command_queue::commands_of(records);
        let rest = records.drop_last();
        let mid = choose|mid: World<C, C::Resources>| #[trigger]
            crate::world::runner::step(mid, Outcome::Completed) && crate::world::runner::completed(
                rest,
                before,
                mid,
                depth,
            ) && crate::world::runner::consumed(
                records.last(),
                mid,
                after,
                Outcome::Completed,
                depth,
            );
        let earlier = completed_in_turn(rest, before, mid, depth);
        match records.last().command {
            None => earlier,
            Some(command) => {
                let attempt = consumed_in_turn(
                    records.last(),
                    mid,
                    after,
                    Outcome::Completed,
                    depth,
                );
                let attempts = earlier.push(attempt);
                assert(commands.drop_last() =~= crate::world::command_queue::commands_of(rest));
                assert(attempts.drop_last() =~= earlier);
                assert(commands.last() == command);
                assert(crate::world::runner::step(mid, Outcome::Completed));
                attempts
            },
        }
    }
}

proof fn consumed_in_turn<C: Command>(
    record: Record<C>,
    before: World<C, C::Resources>,
    after: World<C, C::Resources>,
    outcome: Outcome,
    depth: nat,
) -> (attempt: Outcome)
    requires
        record.command is Some,
        crate::world::runner::consumed(record, before, after, outcome, depth),
    ensures
        took_turn(record.command->0, before, after, attempt, outcome, depth),
{
    let command = record.command->0;
    let (mid, attempt) = choose|mid: World<C, C::Resources>, attempt: Outcome|
        {
            &&& #[trigger] crate::world::runner::step(mid, attempt)
            &&& crate::world::runner::attempted(command, before, mid, attempt, depth)
            &&& match attempt {
                Outcome::Completed => after == mid && outcome is Completed,
                Outcome::Panicked(payload) => crate::world::runner::handled(
                    command.name_spec(),
                    payload,
                    mid,
                    after,
                    outcome,
                ),
            }
        };
    assert(crate::world::runner::step(mid, attempt));
    attempt
}

/// Records that are run are commands that take their turns, up to the first one with a panic that
/// goes on.
pub proof fn run_in_turn<C: Command>(
    records: Seq<Record<C>>,
    before: World<C, C::Resources>,
    after: World<C, C::Resources>,
    outcome: Outcome,
    depth: nat,
) -> (attempts: Seq<Outcome>)
    requires
        crate::world::runner::ran(records, before, after, outcome, depth),
    ensures
        ran_in_turn(
            crate::world::command_queue::commands_of(records),
            attempts,
            before.with_panic_origin(false),
            after,
            outcome,
            depth,
        ),
{
    let start = before.with_panic_origin(false);
    match outcome {
        Outcome::Completed => completed_in_turn(records, start, after, depth),
        Outcome::Panicked(_) => {
            assert(crate::world::runner::interrupted(records, start, after, outcome, depth));
            let (n, mid) = choose|n: int, mid: World<C, C::Resources>|
                {
                    &&& 0 <= n < records.len()
                    &&& #[trigger] crate::world::runner::step_at(n, mid)
                    &&& crate::world::runner::completed(records.take(n), start, mid, depth)
                    &&& crate::world::runner::consumed(records[n], mid, after, outcome, depth)
                };
            assert(crate::world::runner::consumed(records[n], mid, after, outcome, depth));
            assert(records[n].command is Some);
            let commands = crate::world::command_queue::commands_of(records);
            let earlier_commands = crate::world::command_queue::commands_of(records.take(n));
            let next = records.take(n + 1);
            assert(next.drop_last() =~= records.take(n));
            assert(next + records.skip(n + 1) =~= records);
            crate::world::command_queue::commands_concat(next, records.skip(n + 1));
            assert(crate::world::command_queue::commands_of(next) == earlier_commands.push(
                records[n].command->0,
            ));
            let earlier = completed_in_turn(records.take(n), start, mid, depth);
            let attempt = consumed_in_turn(records[n], mid, after, outcome, depth);
            let attempts = earlier.push(attempt);
            assert(attempts.drop_last() =~= earlier);
            assert(commands.take(attempts.len() - 1) =~= earlier_commands);
            assert(commands[attempts.len() - 1] == records[n].command->0);
            assert(crate::world::runner::step(mid, Outcome::Completed));
            attempts
        },
    }
}

/// A flush that is completed leaves no commands in the world.
pub proof fn flush_leaves_nothing<C: Command>(
    before: World<C, C::Resources>,
    after: World<C, C::Resources>,
    depth: nat,
)
    requires
        crate::world::runner::flushed(before, after, Outcome::Completed, depth),
    ensures
        after.command_queue.end == after.command_queue.start,
{
}

/// A flush that is completed runs the commands that wait in the world, in turn.
proof fn flush_in_turn<C: Command>(
    before: World<C, C::Resources>,
    after: World<C, C::Resources>,
) -> (attempts: Seq<Outcome>)
    requires
        crate::world::runner::flushed(before, after, Outcome::Completed, u64::MAX as nat),
    ensures
        own_commands_ran(attempts, before, after),
{
    if before.command_queue.end == before.command_queue.start {
        Seq::empty()
    } else {
        let depth = (u64::MAX - 1) as nat;
        let (lent, run, result) = choose|
            lent: World<C, C::Resources>,
            run: World<C, C::Resources>,
            result: Outcome,
        |
            #![trigger crate::world::runner::lent_tail(before, lent), crate::world::runner::step(
                run,
                result,
            )]
            {
                &&& crate::world::runner::step(run, result)
                &&& crate::world::runner::lent_tail(before, lent)
                &&& crate::world::runner::ran(
                    before.command_queue.records@,
                    lent,
                    run,
                    result,
                    depth,
                )
                &&& run.wf()
                &&& crate::world::runner::frame_ended(
                    before.id,
                    before.command_queue,
                    crate::world::runner::after_discard(run, result),
                    after,
                    result,
                    Outcome::Completed,
                )
            };
        assert(result is Completed);
        assert(crate::world::runner::step(run, Outcome::Completed));
        run_in_turn(before.command_queue.records@, lent, run, result, depth)
    }
}

/// A turn without a panic leaves no commands in the world.
proof fn turn_leaves_nothing<C: Command>(
    command: C,
    before: World<C, C::Resources>,
    after: World<C, C::Resources>,
    depth: nat,
)
    requires
        took_turn(command, before, after, Outcome::Completed, Outcome::Completed, depth),
    ensures
        after.command_queue.end == after.command_queue.start,
{
    let mid = choose|mid: World<C, C::Resources>| #[trigger]
        crate::world::runner::step(mid, Outcome::Completed) && crate::world::runner::attempted(
            command,
            before,
            mid,
            Outcome::Completed,
            depth,
        ) && after == mid;
    let (applied, result) = choose|applied: World<C, C::Resources>, result: Outcome|
        #[trigger] command.applied(before, applied, result) && applied.wf() && match result {
            Outcome::Completed => crate::world::runner::flushed(
                applied,
                mid,
                Outcome::Completed,
                depth,
            ),
            Outcome::Panicked(_) => mid == applied && Outcome::Completed == result,
        };
    flush_leaves_nothing(applied, mid, depth);
}

/// Applying a queue to a world first runs the commands that wait in the world, and then those of
/// the queue. Each command takes its turn once, in the order in which the commands were queued.
/// If a panic goes on, no more commands run. Afterwards the queue is empty. The world has no
/// commands left, too, if the last command did not panic.
///
/// If a command of the world has a panic that goes on, the commands of the queue do not run and
/// stay in it.
pub proof fn commands_are_applied_in_order<C: Command>(
    queue: CommandQueue<C>,
    before: World<C, C::Resources>,
    queue_after: CommandQueue<C>,
    after: World<C, C::Resources>,
    outcome: Outcome,
)
    requires
        crate::world::runner::queue_applied(queue, before, queue_after, after, outcome),
    ensures
        ({
            &&& crate::world::runner::flushed(before, after, outcome, u64::MAX as nat)
            &&& outcome is Panicked
            &&& queue_after == queue
        }) || ({
            &&& queue_after.commands() == Seq::<C>::empty()
            &&& queue_after.end == queue_after.start
            &&& exists|
                mid: World<C, C::Resources>,
                run: World<C, C::Resources>,
                own: Seq<Outcome>,
                attempts: Seq<Outcome>,
            |
                #![trigger own_commands_ran(own, before, mid), attempts_made(
                    attempts,
                ), crate::world::runner::step(run, outcome)]
                {
                    &&& attempts_made(attempts)
                    &&& crate::world::runner::step(run, outcome)
                    &&& own_commands_ran(own, before, mid)
                    &&& mid.command_queue.end == mid.command_queue.start
                    &&& ran_in_turn(
                        queue.commands(),
                        attempts,
                        mid.with_panic_origin(false),
                        run,
                        outcome,
                        u64::MAX as nat,
                    )
                    &&& after == crate::world::runner::after_discard(run, outcome)
                    &&& (attempts.len() == 0 || attempts.last() is Completed)
                        ==> after.command_queue.end == after.command_queue.start
                }
        }),
{
    let depth = u64::MAX as nat;
    if !(crate::world::runner::flushed(before, after, outcome, depth) && outcome is Panicked
        && queue_after == queue) {
        let (mid, run) = choose|mid: World<C, C::Resources>, run: World<C, C::Resources>|
            {
                &&& #[trigger] crate::world::runner::step(mid, Outcome::Completed)
                &&& #[trigger] crate::world::runner::step(run, outcome)
                &&& crate::world::runner::flushed(before, mid, Outcome::Completed, depth)
                &&& crate::world::runner::ran(queue.records@, mid, run, outcome, depth)
                &&& after == crate::world::runner::after_discard(run, outcome)
            };
        let own = flush_in_turn(before, mid);
        flush_leaves_nothing(before, mid, depth);
        let attempts = run_in_turn(queue.records@, mid, run, outcome, depth);
        let start = mid.with_panic_origin(false);
        assert(own_commands_ran(own, before, mid));
        assert(attempts_made(attempts));
        assert(crate::world::runner::step(run, outcome));
        if attempts.len() > 0 && attempts.last() is Completed {
            let n = attempts.len() - 1;
            let commands = queue.commands();
            if outcome is Completed {
                let late = choose|late: World<C, C::Resources>|
                    {
                        &&& #[trigger] crate::world::runner::step(late, Outcome::Completed)
                        &&& in_turn(
                            commands.drop_last(),
                            attempts.drop_last(),
                            start,
                            late,
                            depth,
                        )
                        &&& took_turn(
                            commands.last(),
                            late,
                            run,
                            attempts.last(),
                            Outcome::Completed,
                            depth,
                        )
                    };
                turn_leaves_nothing(commands.last(), late, run, depth);
            }
        }
        assert(queue_after.commands() == Seq::<C>::empty());
    }
}

/// Whether running records may be interrupted is whether running all but the last one may be, or
/// those may be completed and the last one panics.
proof fn interrupted_at_last<C: Command>(
    records: Seq<Record<C>>,
    before: World<C, C::Resources>,
    after: World<C, C::Resources>,
    outcome: Outcome,
    depth: nat,
)
    requires
        records.len() > 0,
    ensures
        crate::world::runner::interrupted(records, before, after, outcome, depth) <==> {
            ||| crate::world::runner::interrupted(
                records.drop_last(),
                before,
                after,
                outcome,
                depth,
            )
            ||| exists|mid: World<C, C::Resources>|
                {
                    &&& #[trigger] crate::world::runner::step(mid, Outcome::Completed)
                    &&& crate::world::runner::completed(
                        records.drop_last(),
                        before,
                        mid,
                        depth,
                    )
                    &&& crate::world::runner::consumed(records.last(), mid, after, outcome, depth)
                }
        },
{
    let rest = records.drop_last();
    let last = records.len() - 1;
    assert(records.take(last) =~= rest);
    assert forall|n: int| 0 <= n < last implies #[trigger] records.take(n) == rest.take(n) by {
        assert(records.take(n) =~= rest.take(n));
    }
    if crate::world::runner::interrupted(records, before, after, outcome, depth) {
        let (n, mid) = choose|n: int, mid: World<C, C::Resources>|
            {
                &&& 0 <= n < records.len()
                &&& #[trigger] crate::world::runner::step_at(n, mid)
                &&& crate::world::runner::completed(records.take(n), before, mid, depth)
                &&& crate::world::runner::consumed(records[n], mid, after, outcome, depth)
            };
        assert(crate::world::runner::step(mid, Outcome::Completed));
        if n < last {
            assert(records.take(n) == rest.take(n));
            assert(rest[n] == records[n]);
            assert(crate::world::runner::step_at(n, mid));
            assert(crate::world::runner::interrupted(rest, before, after, outcome, depth));
        }
    }
    if crate::world::runner::interrupted(rest, before, after, outcome, depth) {
        let (n, mid) = choose|n: int, mid: World<C, C::Resources>|
            {
                &&& 0 <= n < rest.len()
                &&& #[trigger] crate::world::runner::step_at(n, mid)
                &&& crate::world::runner::completed(rest.take(n), before, mid, depth)
                &&& crate::world::runner::consumed(rest[n], mid, after, outcome, depth)
            };
        assert(records.take(n) == rest.take(n));
        assert(crate::world::runner::step_at(n, mid));
        assert(crate::world::runner::interrupted(records, before, after, outcome, depth));
    }
    assert forall|mid: World<C, C::Resources>|
        {
            &&& #[trigger] crate::world::runner::step(mid, Outcome::Completed)
            &&& crate::world::runner::completed(rest, before, mid, depth)
            &&& crate::world::runner::consumed(records.last(), mid, after, outcome, depth)
        } implies crate::world::runner::interrupted(records, before, after, outcome, depth) by {
        assert(crate::world::runner::step_at(last, mid));
        assert(records[last] == records.last());
    }
}

/// Records with the same commands are interrupted alike, wherever they stand and whatever padding
/// is between them.
pub proof fn only_commands_interrupt<C: Command>(
    one: Seq<Record<C>>,
    other: Seq<Record<C>>,
    before: World<C, C::Resources>,
    after: World<C, C::Resources>,
    outcome: Outcome,
    depth: nat,
)
    requires
        crate::world::command_queue::commands_of(one)
            == crate::world::command_queue::commands_of(other),
        outcome is Panicked,
        crate::world::runner::interrupted(one, before, after, outcome, depth),
    ensures
        crate::world::runner::interrupted(other, before, after, outcome, depth),
    decreases one.len() + other.len(),
{
    assert(one.len() > 0);
    interrupted_at_last(one, before, after, outcome, depth);
    if one.last().command is None {
        only_commands_interrupt(one.drop_last(), other, before, after, outcome, depth);
    } else {
        assert(crate::world::command_queue::commands_of(one).len() > 0);
        assert(other.len() > 0);
        interrupted_at_last(other, before, after, outcome, depth);
        if other.last().command is None {
            only_commands_interrupt(one, other.drop_last(), before, after, outcome, depth);
        } else {
            let commands = crate::world::command_queue::commands_of(one);
            let first = one.drop_last();
            let second = other.drop_last();
            assert(commands.drop_last() =~= crate::world::command_queue::commands_of(first));
            assert(commands.drop_last() =~= crate::world::command_queue::commands_of(second));
            assert(commands.last() == one.last().command->0);
            assert(commands.last() == other.last().command->0);
            if crate::world::runner::interrupted(first, before, after, outcome, depth) {
                only_commands_interrupt(first, second, before, after, outcome, depth);
            } else {
                let mid = choose|mid: World<C, C::Resources>|
                    {
                        &&& #[trigger] crate::world::runner::step(mid, Outcome::Completed)
                        &&& crate::world::runner::completed(first, before, mid, depth)
                        &&& crate::world::runner::consumed(
                            one.last(),
                            mid,
                            after,
                            outcome,
                            depth,
                        )
                    };
                crate::world::laws::only_commands_matter(first, second, before, mid, depth);
                assert(crate::world::runner::consumed(other.last(), mid, after, outcome, depth));
                assert(crate::world::runner::step(mid, Outcome::Completed));
            }
        }
    }
}

/// Whether running some records and then others may take one world to another with an outcome:
/// the others run once the first ones are completed.
pub open spec fn ran_after<C: Command>(
    first: Seq<Record<C>>,
    second: Seq<Record<C>>,
    before: World<C, C::Resources>,
    after: World<C, C::Resources>,
    outcome: Outcome,
    depth: nat,
) -> bool {
    ||| outcome is Panicked && crate::world::runner::interrupted(
        first,
        before,
        after,
        outcome,
        depth,
    )
    ||| exists|mid: World<C, C::Resources>|
        {
            &&& #[trigger] crate::world::runner::step(mid, Outcome::Completed)
            &&& crate::world::runner::completed(first, before, mid, depth)
            &&& match outcome {
                Outcome::Completed => crate::world::runner::completed(second, mid, after, depth),
                Outcome::Panicked(_) => crate::world::runner::interrupted(
                    second,
                    mid,
                    after,
                    outcome,
                    depth,
                ),
            }
        }
}

proof fn interruptions_compose<C: Command>(
    first: Seq<Record<C>>,
    second: Seq<Record<C>>,
    before: World<C, C::Resources>,
    after: World<C, C::Resources>,
    outcome: Outcome,
    depth: nat,
)
    requires
        outcome is Panicked,
    ensures
        crate::world::runner::interrupted(first + second, before, after, outcome, depth)
            <==> ran_after(first, second, before, after, outcome, depth),
    decreases second.len(),
{
    let all = first + second;
    if second.len() == 0 {
        assert(all =~= first);
        assert forall|mid: World<C, C::Resources>| !#[trigger]
            crate::world::runner::interrupted(second, mid, after, outcome, depth) by {
        }
    } else {
        let rest = second.drop_last();
        assert(all.drop_last() =~= first + rest);
        assert(all.last() == second.last());
        interruptions_compose(first, rest, before, after, outcome, depth);
        interrupted_at_last(all, before, after, outcome, depth);
        if crate::world::runner::interrupted(all, before, after, outcome, depth) {
            if crate::world::runner::interrupted(first + rest, before, after, outcome, depth) {
                if !crate::world::runner::interrupted(first, before, after, outcome, depth) {
                    let mid = choose|mid: World<C, C::Resources>|
                        {
                            &&& #[trigger] crate::world::runner::step(mid, Outcome::Completed)
                            &&& crate::world::runner::completed(first, before, mid, depth)
                            &&& crate::world::runner::interrupted(
                                rest,
                                mid,
                                after,
                                outcome,
                                depth,
                            )
                        };
                    interrupted_at_last(second, mid, after, outcome, depth);
                    assert(crate::world::runner::step(mid, Outcome::Completed));
                }
            } else {
                let late = choose|late: World<C, C::Resources>|
                    {
                        &&& #[trigger] crate::world::runner::step(late, Outcome::Completed)
                        &&& crate::world::runner::completed(first + rest, before, late, depth)
                        &&& crate::world::runner::consumed(
                            second.last(),
                            late,
                            after,
                            outcome,
                            depth,
                        )
                    };
                crate::world::laws::runs_compose(first, rest, before, late, depth);
                let mid = choose|mid: World<C, C::Resources>|
                    {
                        &&& #[trigger] crate::world::runner::step(mid, Outcome::Completed)
                        &&& crate::world::runner::completed(first, before, mid, depth)
                        &&& crate::world::runner::completed(rest, mid, late, depth)
                    };
                interrupted_at_last(second, mid, after, outcome, depth);
                assert(crate::world::runner::step(late, Outcome::Completed));
                assert(crate::world::runner::step(mid, Outcome::Completed));
            }
        }
        if ran_after(first, second, before, after, outcome, depth) {
            if crate::world::runner::interrupted(first, before, after, outcome, depth) {
                assert(ran_after(first, rest, before, after, outcome, depth));
            } else {
                let mid = choose|mid: World<C, C::Resources>|
                    {
                        &&& #[trigger] crate::world::runner::step(mid, Outcome::Completed)
                        &&& crate::world::runner::completed(first, before, mid, depth)
                        &&& crate::world::runner::interrupted(second, mid, after, outcome, depth)
                    };
                interrupted_at_last(second, mid, after, outcome, depth);
                if crate::world::runner::interrupted(rest, mid, after, outcome, depth) {
                    assert(crate::world::runner::step(mid, Outcome::Completed));
                    assert(ran_after(first, rest, before, after, outcome, depth));
                } else {
                    let late = choose|late: World<C, C::Resources>|
                        {
                            &&& #[trigger] crate::world::runner::step(late, Outcome::Completed)
                            &&& crate::world::runner::completed(rest, mid, late, depth)
                            &&& crate::world::runner::consumed(
                                second.last(),
                                late,
                                after,
                                outcome,
                                depth,
                            )
                        };
                    crate::world::laws::runs_compose(first, rest, before, late, depth);
                    assert(crate::world::runner::step(mid, Outcome::Completed));
                    assert(crate::world::runner::completed(first + rest, before, late, depth));
                    assert(crate::world::runner::step(late, Outcome::Completed));
                }
            }
        }
    }
}

/// Running a queue to which another one was appended is running the first one and then, if it is
/// completed, the other one, whether or not a command panics.
pub proof fn appended_commands_run_after<C: Command>(
    first: CommandQueue<C>,
    second: CommandQueue<C>,
    appended: CommandQueue<C>,
    before: World<C, C::Resources>,
    after: World<C, C::Resources>,
    outcome: Outcome,
    depth: nat,
)
    requires
        appended.commands() == first.commands() + second.commands(),
    ensures
        crate::world::runner::ran(appended.records@, before, after, outcome, depth) <==> ran_after(
            first.records@,
            second.records@,
            before.with_panic_origin(false),
            after,
            outcome,
            depth,
        ),
{
    let start = before.with_panic_origin(false);
    let one = first.records@;
    let two = second.records@;
    let both = appended.records@;
    match outcome {
        Outcome::Completed => {
            crate::world::laws::appended_commands_run_last(one, two, both, start, after, depth);
        },
        Outcome::Panicked(_) => {
            crate::world::command_queue::commands_concat(one, two);
            interruptions_compose(one, two, start, after, outcome, depth);
            if crate::world::runner::interrupted(both, start, after, outcome, depth) {
                only_commands_interrupt(both, one + two, start, after, outcome, depth);
            }
            if crate::world::runner::interrupted(one + two, start, after, outcome, depth) {
                only_commands_interrupt(one + two, both, start, after, outcome, depth);
            }
            assert(crate::world::runner::ran(both, before, after, outcome, depth)
                == crate::world::runner::interrupted(both, start, after, outcome, depth));
        },
    }
}

/// Applying a queue to which another one was appended is applying it and then running the other
/// one, too.
pub proof fn appended_queue_is_applied_whole<C: Command>(
    first: CommandQueue<C>,
    second: CommandQueue<C>,
    appended: CommandQueue<C>,
    before: World<C, C::Resources>,
    appended_after: CommandQueue<C>,
    after: World<C, C::Resources>,
    outcome: Outcome,
)
    requires
        appended.commands() == first.commands() + second.commands(),
    ensures
        crate::world::runner::queue_applied(appended, before, appended_after, after, outcome) <==> {
            ||| crate::world::runner::flushed(before, after, outcome, u64::MAX as nat)
                && outcome is Panicked && appended_after == appended
            ||| crate::world::runner::emptied(appended, appended_after) && exists|
                mid: World<C, C::Resources>,
                run: World<C, C::Resources>,
            |
                {
                    &&& #[trigger] crate::world::runner::step(mid, Outcome::Completed)
                    &&& #[trigger] crate::world::runner::step(run, outcome)
                    &&& crate::world::runner::flushed(
                        before,
                        mid,
                        Outcome::Completed,
                        u64::MAX as nat,
                    )
                    &&& ran_after(
                        first.records@,
                        second.records@,
                        mid.with_panic_origin(false),
                        run,
                        outcome,
                        u64::MAX as nat,
                    )
                    &&& after == crate::world::runner::after_discard(run, outcome)
                }
        },
{
    let depth = u64::MAX as nat;
    assert forall|mid: World<C, C::Resources>, run: World<C, C::Resources>|
        #![trigger crate::world::runner::step(mid, Outcome::Completed), crate::world::runner::step(
            run,
            outcome,
        )]
        crate::world::runner::ran(appended.records@, mid, run, outcome, depth) == ran_after(
            first.records@,
            second.records@,
            mid.with_panic_origin(false),
            run,
            outcome,
            depth,
        ) by {
        appended_commands_run_after(first, second, appended, mid, run, outcome, depth);
    }
}

/// What may happen to a queue.
pub enum QueueStep<C> {
    /// A command is pushed.
    Push(C),
    /// Another queue with some commands is appended.
    Append(Seq<C>),
    /// The commands are run, or taken by another queue.
    Drain,
    /// Room is reserved, or the queue is not reached when it is to be applied.
    Keep,
    /// The warning about dropped commands is silenced.
    Silence,
}

/// Whether a step may take one queue to another.
pub open spec fn queue_stepped<C>(
    before: CommandQueue<C>,
    after: CommandQueue<C>,
    step: QueueStep<C>,
) -> bool {
    &&& after.wf()
    &&& match step {
        QueueStep::Push(command) => after.commands() == before.commands().push(command)
            && after.same_settings(before),
        QueueStep::Append(commands) => after.commands() == before.commands() + commands
            && after.same_settings(before),
        QueueStep::Drain => after.commands() == Seq::<C>::empty() && after.same_settings(before),
        QueueStep::Keep => after.commands() == before.commands() && after.same_settings(before),
        QueueStep::Silence => after == (CommandQueue { warn_on_unapplied: false, ..before }),
    }
}

/// Whether a queue went through some steps. There is one more queue than there are steps.
pub open spec fn queue_history<C>(queues: Seq<CommandQueue<C>>, steps: Seq<QueueStep<C>>) -> bool {
    &&& queues.len() == steps.len() + 1
    &&& forall|i: int|
        #![trigger steps[i]]
        0 <= i < steps.len() ==> queue_stepped(queues[i], queues[i + 1], steps[i])
}

/// The commands that were added to a queue and have not been drained.
pub open spec fn undrained<C>(steps: Seq<QueueStep<C>>) -> Seq<C>
    decreases steps.len(),
{
    if steps.len() == 0 {
        Seq::empty()
    } else {
        let rest = undrained(steps.drop_last());
        match steps.last() {
            QueueStep::Push(command) => rest.push(command),
            QueueStep::Append(commands) => rest + commands,
            QueueStep::Drain => Seq::empty(),
            QueueStep::Keep => rest,
            QueueStep::Silence => rest,
        }
    }
}

/// A queue that was empty holds the commands that were added since it was last drained, in order.
/// It is empty exactly if there are none. Commands whose data has no size count, too.
pub proof fn queue_holds_what_was_added<C>(
    queues: Seq<CommandQueue<C>>,
    steps: Seq<QueueStep<C>>,
)
    requires
        queue_history(queues, steps),
        queues[0].wf(),
        queues[0].commands() == Seq::<C>::empty(),
    ensures
        queues.last().commands() == undrained(steps),
        queues.last().end == queues.last().start <==> undrained(steps) == Seq::<C>::empty(),
    decreases steps.len(),
{
    let queue = queues.last();
    if steps.len() > 0 {
        let rest = steps.drop_last();
        assert forall|i: int|
            #![trigger rest[i]]
            0 <= i < rest.len() implies queue_stepped(
            queues.drop_last()[i],
            queues.drop_last()[i + 1],
            rest[i],
        ) by {
            assert(rest[i] == steps[i]);
        }
        queue_holds_what_was_added(queues.drop_last(), rest);
        assert(steps[steps.len() - 1] == steps.last());
    }
    assert(queue.wf());
    if queue.commands() == Seq::<C>::empty() {
        crate::world::command_queue::queue_without_commands(queue);
    } else if queue.end == queue.start {
        assert(queue.records@.len() > 0);
        crate::world::command_queue::record_end_within(
            queue.records@,
            queue.start as int,
            queue.end as int,
            queue.layout.align as int,
            0,
        );
    }
}

/// Once the warning is silenced, dropping the queue never calls for one, whatever happens to the
/// queue.
pub proof fn silenced_queue_never_warns<C>(
    queues: Seq<CommandQueue<C>>,
    steps: Seq<QueueStep<C>>,
    silenced: int,
    i: int,
)
    requires
        queue_history(queues, steps),
        0 <= silenced < i < queues.len(),
        steps[silenced] is Silence,
    ensures
        !queues[i].warns(),
        queues[silenced + 1].commands() == queues[silenced].commands(),
    decreases i,
{
    assert(queue_stepped(queues[silenced], queues[silenced + 1], steps[silenced]));
    if i > silenced + 1 {
        silenced_queue_stays_silent(queues, steps, silenced, i);
    }
}

proof fn silenced_queue_stays_silent<C>(
    queues: Seq<CommandQueue<C>>,
    steps: Seq<QueueStep<C>>,
    silenced: int,
    i: int,
)
    requires
        queue_history(queues, steps),
        0 <= silenced < i < queues.len(),
        steps[silenced] is Silence,
    ensures
        !queues[i].warn_on_unapplied,
    decreases i,
{
    assert(queue_stepped(queues[i - 1], queues[i], steps[i - 1]));
    if i > silenced + 1 {
        silenced_queue_stays_silent(queues, steps, silenced, i - 1);
    }
}

} // verus!
