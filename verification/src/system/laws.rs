//! What holds of running systems.

use vstd::prelude::*;

use crate::change_detection::{Tick, MAX_CHANGE_AGE};
use crate::component::ComponentId;
use crate::system::meta::RunnableSystemMeta;
use crate::system::{ReadOnlySystem, RunSystemError, RunnableSystem, System};

verus! {

/// A run looks at the archetypes of the world first. The system that has looked at them is the one
/// that is executed on the world, and then its deferred changes are applied. What was found out
/// about the archetypes is kept.
pub proof fn run_looks_at_archetypes_first<S: System>(
    before: RunnableSystem<S>,
    input: S::In,
    world: S::World,
    after: RunnableSystem<S>,
    world_after: S::World,
    out: S::Out,
)
    requires
        crate::system::run_to(before, input, world, after, world_after, out),
    ensures
        exists|looked: S, executed: S, mid: S::World|
            {
                &&& #[trigger] before.system.looked(
                    world,
                    before.runnable_system_meta,
                    looked,
                    after.runnable_system_meta,
                )
                &&& #[trigger] looked.executed(input, world, executed, mid, out)
                &&& executed.deferred_applied(mid, after.system, world_after)
            },
{
    let (looked, executed, mid) = choose|
        looked: RunnableSystem<S>,
        executed: S,
        mid: S::World,
    |
        {
            &&& #[trigger] crate::system::updated(before, world, looked)
            &&& #[trigger] looked.system.executed(input, world, executed, mid, out)
            &&& executed.deferred_applied(mid, after.system, world_after)
            &&& after.runnable_system_meta == looked.runnable_system_meta
        };
    assert(before.system.looked(
        world,
        before.runnable_system_meta,
        looked.system,
        after.runnable_system_meta,
    ));
    assert(looked.system.executed(input, world, executed, mid, out));
}

/// What a system knows once it has looked at the archetypes of a world, it knows when it is run on
/// that world: whatever follows for its output follows for the output of the run.
pub proof fn run_knows_the_archetypes<S: System>(
    before: RunnableSystem<S>,
    input: S::In,
    world: S::World,
    after: RunnableSystem<S>,
    world_after: S::World,
    out: S::Out,
    knows: spec_fn(S) -> bool,
    gives: spec_fn(S::Out) -> bool,
)
    requires
        crate::system::run_to(before, input, world, after, world_after, out),
        forall|looked: S, meta: RunnableSystemMeta| #[trigger]
            before.system.looked(world, before.runnable_system_meta, looked, meta) ==> knows(
                looked,
            ),
        forall|system: S, executed: S, mid: S::World, output: S::Out|
            knows(system) && #[trigger] system.executed(input, world, executed, mid, output)
                ==> gives(output),
    ensures
        gives(out),
{
    run_looks_at_archetypes_first(before, input, world, after, world_after, out);
}

/// Checking the parameters of a system looks at the archetypes of the world first. What was found
/// out about them is kept.
pub proof fn check_looks_at_archetypes_first<S: System>(
    before: RunnableSystem<S>,
    world: S::World,
    after: RunnableSystem<S>,
    valid: bool,
)
    requires
        crate::system::validated(before, world, after, valid),
    ensures
        exists|looked: S|
            {
                &&& #[trigger] before.system.looked(
                    world,
                    before.runnable_system_meta,
                    looked,
                    after.runnable_system_meta,
                )
                &&& looked.checked(world, after.system, valid)
            },
{
    let looked = choose|looked: RunnableSystem<S>|
        {
            &&& #[trigger] crate::system::updated(before, world, looked)
            &&& looked.system.checked(world, after.system, valid)
            &&& after.runnable_system_meta == looked.runnable_system_meta
        };
    assert(before.system.looked(
        world,
        before.runnable_system_meta,
        looked.system,
        after.runnable_system_meta,
    ));
}

/// A deferred run looks at the archetypes of the world and checks the parameters. If one of them
/// cannot be had, the world stays as it is. If all of them can be had, the system that was checked
/// is executed, and its deferred changes are queued.
pub proof fn deferred_run_is_checked<S: System>(
    before: RunnableSystem<S>,
    input: S::In,
    world: S::World,
    after: RunnableSystem<S>,
    world_after: S::World,
)
    requires
        crate::system::run_deferred_to(before, input, world, after, world_after),
    ensures
        exists|looked: S, checked: S, valid: bool|
            {
                &&& #[trigger] before.system.looked(
                    world,
                    before.runnable_system_meta,
                    looked,
                    after.runnable_system_meta,
                )
                &&& #[trigger] looked.checked(world, checked, valid)
                &&& !valid ==> world_after == world && after.system == checked
                &&& valid ==> exists|executed: S, mid: S::World, out: S::Out|
                    {
                        &&& #[trigger] checked.executed(input, world, executed, mid, out)
                        &&& executed.deferred_queued(mid, after.system, world_after)
                    }
            },
{
    if crate::system::validated(before, world, after, false) && world_after == world {
        check_looks_at_archetypes_first(before, world, after, false);
        let looked = choose|looked: S|
            {
                &&& #[trigger] before.system.looked(
                    world,
                    before.runnable_system_meta,
                    looked,
                    after.runnable_system_meta,
                )
                &&& looked.checked(world, after.system, false)
            };
        assert(looked.checked(world, after.system, false));
    } else {
        let (checked, executed, mid, out) = choose|
            checked: RunnableSystem<S>,
            executed: S,
            mid: S::World,
            out: S::Out,
        |
            {
                &&& #[trigger] crate::system::validated(before, world, checked, true)
                &&& #[trigger] checked.system.executed(input, world, executed, mid, out)
                &&& executed.deferred_queued(mid, after.system, world_after)
                &&& after.runnable_system_meta == checked.runnable_system_meta
            };
        check_looks_at_archetypes_first(before, world, checked, true);
        let looked = choose|looked: S|
            {
                &&& #[trigger] before.system.looked(
                    world,
                    before.runnable_system_meta,
                    looked,
                    checked.runnable_system_meta,
                )
                &&& looked.checked(world, checked.system, true)
            };
        assert(looked.checked(world, checked.system, true));
        assert(checked.system.executed(input, world, executed, mid, out));
    }
}

/// Running a system once initializes it, and then checks its parameters. If one of them cannot be
/// had, the system is not run, and the error tells its name. If all of them can be had, the
/// archetypes are looked at again, the system is executed, its output is the result, and its
/// deferred changes are applied.
pub proof fn single_run_is_initialized_and_checked<S: System>(
    before: RunnableSystem<S>,
    input: S::In,
    world: S::World,
    world_after: S::World,
    result: Result<S::Out, RunSystemError>,
)
    requires
        crate::system::run_once_to(before, input, world, world_after, result),
    ensures
        exists|
            ready: S,
            meta: RunnableSystemMeta,
            start: S::World,
            looked: S,
            looked_meta: RunnableSystemMeta,
            checked: S,
        |
            {
                &&& #[trigger] before.system.initialized(world, ready, start, meta)
                &&& #[trigger] ready.looked(start, meta, looked, looked_meta)
                &&& #[trigger] looked.checked(start, checked, result is Ok)
                &&& result matches Err(RunSystemError::InvalidParams(name)) ==> name@
                    == checked.name_spec() && world_after == start
                &&& result matches Ok(out) ==> exists|
                    again: S,
                    again_meta: RunnableSystemMeta,
                    executed: S,
                    mid: S::World,
                    last: S,
                |
                    {
                        &&& #[trigger] checked.looked(start, looked_meta, again, again_meta)
                        &&& #[trigger] again.executed(input, start, executed, mid, out)
                        &&& #[trigger] executed.deferred_applied(mid, last, world_after)
                    }
            },
{
    let (initialized, start, checked, valid) = choose|
        initialized: RunnableSystem<S>,
        start: S::World,
        checked: RunnableSystem<S>,
        valid: bool,
    |
        {
            &&& #[trigger] before.system.initialized(
                world,
                initialized.system,
                start,
                initialized.runnable_system_meta,
            )
            &&& #[trigger] crate::system::validated(initialized, start, checked, valid)
            &&& if valid {
                result is Ok && exists|after: RunnableSystem<S>| #[trigger]
                    crate::system::run_to(checked, input, start, after, world_after, result->Ok_0)
            } else {
                &&& result is Err
                &&& result->Err_0->0@ == checked.system.name_spec()
                &&& world_after == start
            }
        };
    check_looks_at_archetypes_first(initialized, start, checked, valid);
    let looked = choose|looked: S|
        {
            &&& #[trigger] initialized.system.looked(
                start,
                initialized.runnable_system_meta,
                looked,
                checked.runnable_system_meta,
            )
            &&& looked.checked(start, checked.system, valid)
        };
    assert(valid == (result is Ok));
    assert(looked.checked(start, checked.system, result is Ok));
    if valid {
        let after = choose|after: RunnableSystem<S>| #[trigger]
            crate::system::run_to(checked, input, start, after, world_after, result->Ok_0);
        run_looks_at_archetypes_first(
            checked,
            input,
            start,
            after,
            world_after,
            result->Ok_0,
        );
        let (again, executed, mid) = choose|again: S, executed: S, mid: S::World|
            {
                &&& #[trigger] checked.system.looked(
                    start,
                    checked.runnable_system_meta,
                    again,
                    after.runnable_system_meta,
                )
                &&& #[trigger] again.executed(input, start, executed, mid, result->Ok_0)
                &&& executed.deferred_applied(mid, after.system, world_after)
            };
        assert(checked.system.looked(
            start,
            checked.runnable_system_meta,
            again,
            after.runnable_system_meta,
        ));
        assert(again.executed(input, start, executed, mid, result->Ok_0));
        assert(executed.deferred_applied(mid, after.system, world_after));
    }
}

/// If a system does not change the world when it is run, nor when its deferred changes are applied,
/// then a run leaves the world as it is.
pub proof fn read_only_run_keeps_the_world<S: ReadOnlySystem>(
    before: RunnableSystem<S>,
    input: S::In,
    world: S::World,
    after: RunnableSystem<S>,
    world_after: S::World,
    out: S::Out,
)
    requires
        crate::system::run_to(before, input, world, after, world_after, out),
        forall|system: S, applied: S, mid: S::World, end: S::World| #[trigger]
            system.deferred_applied(mid, applied, end) ==> end == mid,
    ensures
        world_after == world,
{
    run_looks_at_archetypes_first(before, input, world, after, world_after, out);
    let (looked, executed, mid) = choose|looked: S, executed: S, mid: S::World|
        {
            &&& #[trigger] before.system.looked(
                world,
                before.runnable_system_meta,
                looked,
                after.runnable_system_meta,
            )
            &&& #[trigger] looked.executed(input, world, executed, mid, out)
            &&& executed.deferred_applied(mid, after.system, world_after)
        };
    looked.run_keeps_world(input, world, executed, mid, out);
}

/// The warning about a system that has not been run for too long tells its name, how old its last
/// run is, and how old changes can be.
pub proof fn warning_tells_the_ages(name: Seq<char>, age: Tick)
    ensures
        exists|own: Seq<char>, oldest: Seq<char>|
            {
                &&& #[trigger] crate::text::number(own) == age.0
                &&& #[trigger] crate::text::number(oldest) == MAX_CHANGE_AGE - 1
                &&& crate::system::tick_warning(name, age) == "System '"@ + name
                    + "' has not run for "@ + own + " ticks. Changes older than "@ + oldest
                    + " ticks will not be detected."@
            },
{
    crate::text::decimal_stands_for_the_number(age.0 as int);
    crate::text::decimal_stands_for_the_number(MAX_CHANGE_AGE - 1);
}

/// Looking at the archetypes of a world changes the system, and what is known of it, as the system
/// says.
pub proof fn looking_is_up_to_the_system<S: System>(
    before: RunnableSystem<S>,
    world: S::World,
    after: RunnableSystem<S>,
)
    requires
        crate::system::updated(before, world, after),
    ensures
        before.system.looked(
            world,
            before.runnable_system_meta,
            after.system,
            after.runnable_system_meta,
        ),
{
}

/// A new system accesses nothing, can be run on any thread, does not need the world for itself, and
/// has no changes that are applied later.
pub proof fn new_system_accesses_nothing(meta: RunnableSystemMeta, id: ComponentId)
    requires
        meta.is_new(),
    ensures
        !meta.component_access_set.combined_access.reads(id),
        !meta.component_access_set.combined_access.modifies(id),
        !meta.component_access_set.combined_access.looks_at(id),
        meta.component_access_set.filtered_accesses@.len() == 0,
        meta.component_access_set.resource_reads@.len() == 0,
        meta.archetype_component_access.reads_and_writes@.len() == 0,
        meta.archetype_component_access.writes@.len() == 0,
        meta.is_send,
        !meta.is_exclusive,
        !meta.has_deferred,
{
}

} // verus!
