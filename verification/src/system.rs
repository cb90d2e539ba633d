//! Systems.

use vstd::prelude::*;
use vstd::string::*;

use crate::change_detection::{Tick, MAX_CHANGE_AGE};
use crate::query::access::{Access, ArchetypeComponentAccess};
use crate::system::meta::RunnableSystemMeta;
use crate::text::decimal_text;

pub mod laws;
pub mod meta;

verus! {

/// Identifies the type of a system.
#[derive(Clone, Copy, Debug, PartialEq, Eq, Structural)]
pub struct SystemTypeId(pub u64);

/// Identifies a set of systems.
#[derive(Clone, Copy, Debug, PartialEq, Eq, Structural)]
pub struct SystemSetId(pub u64);

/// Something that is run on a world.
pub trait System: Sized {
    /// The world that the system is run on.
    type World;

    /// The input of the system.
    type In;

    /// The output of the system.
    type Out;

    /// The name of the system.
    open spec fn name_spec(self) -> Seq<char> {
        arbitrary()
    }

    /// The id of the type of the system.
    open spec fn type_id_spec(self) -> SystemTypeId {
        arbitrary()
    }

    /// The tick of the last run.
    open spec fn last_run_spec(self) -> Tick {
        arbitrary()
    }

    /// Whether initializing the system may take it and a world to others, with the given
    /// knowledge of the system.
    open spec fn initialized(
        self,
        world: Self::World,
        after: Self,
        world_after: Self::World,
        meta: RunnableSystemMeta,
    ) -> bool {
        true
    }

    /// Whether looking at the archetypes of a world may take the system and what is known of
    /// it to others.
    open spec fn looked(
        self,
        world: Self::World,
        meta: RunnableSystemMeta,
        after: Self,
        meta_after: RunnableSystemMeta,
    ) -> bool {
        true
    }

    /// Whether checking the parameters may take the system to another, with a result.
    open spec fn checked(self, world: Self::World, after: Self, valid: bool) -> bool {
        true
    }

    /// Whether running the system with an input may take it and a world to others, with an
    /// output.
    open spec fn executed(
        self,
        input: Self::In,
        world: Self::World,
        after: Self,
        world_after: Self::World,
        out: Self::Out,
    ) -> bool {
        true
    }

    /// Whether applying deferred changes may take the system and a world to others.
    open spec fn deferred_applied(
        self,
        world: Self::World,
        after: Self,
        world_after: Self::World,
    ) -> bool {
        true
    }

    /// Whether queueing deferred changes may take the system and a world to others.
    open spec fn deferred_queued(
        self,
        world: Self::World,
        after: Self,
        world_after: Self::World,
    ) -> bool {
        true
    }

    /// Returns the name of the system.
    fn name(&self) -> (name: String)
        ensures
            name@ == self.name_spec(),
    ;

    /// Returns the id of the type of the system.
    fn type_id(&self) -> (id: SystemTypeId)
        ensures
            id == self.type_id_spec(),
    ;

    /// Runs the system. Deferred changes are not applied.
    fn run_unsafe(&mut self, input: Self::In, world: &mut Self::World) -> (out: Self::Out)
        ensures
            old(self).executed(input, *old(world), *final(self), *final(world), out),
    ;

    /// Applies deferred changes to the world.
    fn apply_deferred(&mut self, world: &mut Self::World)
        ensures
            old(self).deferred_applied(*old(world), *final(self), *final(world)),
    ;

    /// Queues deferred changes in the world.
    fn queue_deferred(&mut self, world: &mut Self::World)
        ensures
            old(self).deferred_queued(*old(world), *final(self), *final(world)),
    ;

    /// Returns whether all parameters can be had, so that the system can be run.
    fn validate_param_unsafe(&mut self, world: &Self::World) -> (valid: bool)
        ensures
            old(self).checked(*world, *final(self), valid),
    ;

    /// Initializes the system.
    fn initialize(&mut self, world: &mut Self::World) -> (meta: RunnableSystemMeta)
        ensures
            old(self).initialized(*old(world), *final(self), *final(world), meta),
    ;

    /// Updates what is known of what the system accesses in the archetypes of a world.
    fn update_archetype_component_access(
        &mut self,
        world: &Self::World,
        meta: &mut RunnableSystemMeta,
    )
        ensures
            old(self).looked(*world, *old(meta), *final(self), *final(meta)),
    ;

    /// Takes up a new version of the code of the system and of the systems that it wraps.
    fn refresh_hotpatch(&mut self)
        ensures
            final(self).name_spec() == old(self).name_spec(),
            final(self).type_id_spec() == old(self).type_id_spec(),
            final(self).last_run_spec() == old(self).last_run_spec(),
    ;

    /// Wraps the ticks of the system that have become too old.
    fn check_change_tick(&mut self, change_tick: Tick)
        ensures
            final(self).last_run_spec() == old(self).last_run_spec().clamped(change_tick),
    ;

    /// Returns the sets that the system is in from the start. There are none unless the
    /// system says so.
    fn default_system_sets(&self) -> (sets: Vec<SystemSetId>)
        default_ensures
            sets@ == Seq::<SystemSetId>::empty(),
    {
        Vec::new()
    }

    /// Returns the tick of the last run.
    fn get_last_run(&self) -> (last_run: Tick)
        ensures
            last_run == self.last_run_spec(),
    ;

    /// Overwrites the tick of the last run.
    fn set_last_run(&mut self, last_run: Tick)
        ensures
            final(self).last_run_spec() == last_run,
    ;
}

/// A system that does not change the world when it is run.
pub trait ReadOnlySystem: System {
    /// Running the system leaves the world as it is.
    proof fn run_keeps_world(
        self,
        input: Self::In,
        world: Self::World,
        after: Self,
        world_after: Self::World,
        out: Self::Out,
    )
        requires
            self.executed(input, world, after, world_after, out),
        ensures
            world_after == world,
    ;
}

/// Something that can be turned into a system.
pub trait IntoSystem: Sized {
    /// The system.
    type System: System;

    /// The system that this is turned into.
    spec fn converted(self) -> Self::System;

    /// Turns this into a system.
    fn into_system(self) -> (system: Self::System)
        ensures
            system == self.converted(),
    ;
}

impl<S: System> IntoSystem for S {
    type System = S;

    open spec fn converted(self) -> S {
        self
    }

    fn into_system(self) -> (system: S) {
        self
    }
}

/// A system together with what is known of it.
pub struct RunnableSystem<S> {
    /// What is known of the system.
    pub runnable_system_meta: RunnableSystemMeta,
    /// The system.
    pub system: S,
}

/// Whether looking at the archetypes of a world may take a system to another.
pub open spec fn updated<S: System>(
    before: RunnableSystem<S>,
    world: S::World,
    after: RunnableSystem<S>,
) -> bool {
    before.system.looked(
        world,
        before.runnable_system_meta,
        after.system,
        after.runnable_system_meta,
    )
}

/// Whether running a system and applying its deferred changes may take it and a world to
/// others, with an output.
pub open spec fn run_to<S: System>(
    before: RunnableSystem<S>,
    input: S::In,
    world: S::World,
    after: RunnableSystem<S>,
    world_after: S::World,
    out: S::Out,
) -> bool {
    exists|looked: RunnableSystem<S>, executed: S, mid: S::World|
        {
            &&& #[trigger] updated(before, world, looked)
            &&& #[trigger] looked.system.executed(input, world, executed, mid, out)
            &&& executed.deferred_applied(mid, after.system, world_after)
            &&& after.runnable_system_meta == looked.runnable_system_meta
        }
}

/// Whether checking the parameters of a system may take it to another, with a result.
pub open spec fn validated<S: System>(
    before: RunnableSystem<S>,
    world: S::World,
    after: RunnableSystem<S>,
    valid: bool,
) -> bool {
    exists|looked: RunnableSystem<S>|
        {
            &&& #[trigger] updated(before, world, looked)
            &&& looked.system.checked(world, after.system, valid)
            &&& after.runnable_system_meta == looked.runnable_system_meta
        }
}

/// Whether running a system, if its parameters can be had, and queueing its deferred changes
/// may take it and a world to others.
pub open spec fn run_deferred_to<S: System>(
    before: RunnableSystem<S>,
    input: S::In,
    world: S::World,
    after: RunnableSystem<S>,
    world_after: S::World,
) -> bool {
    ||| validated(before, world, after, false) && world_after == world
    ||| exists|checked: RunnableSystem<S>, executed: S, mid: S::World, out: S::Out|
        {
            &&& #[trigger] validated(before, world, checked, true)
            &&& #[trigger] checked.system.executed(input, world, executed, mid, out)
            &&& executed.deferred_queued(mid, after.system, world_after)
            &&& after.runnable_system_meta == checked.runnable_system_meta
        }
}

impl<S: System> RunnableSystem<S> {
    /// Creates a system that can be run.
    pub fn new<T: IntoSystem<System = S>>(system: T) -> (runnable: Self)
        ensures
            runnable.system == system.converted(),
            runnable.runnable_system_meta.is_new(),
    {
        RunnableSystem {
            runnable_system_meta: RunnableSystemMeta::new(),
            system: system.into_system(),
        }
    }

    /// Creates a system that can be run, in a box.
    pub fn new_boxed<T: IntoSystem<System = S>>(system: T) -> (runnable: Box<Self>)
        ensures
            runnable.system == system.converted(),
            runnable.runnable_system_meta.is_new(),
    {
        Box::new(Self::new(system))
    }

    /// Returns the name of the system.
    pub fn name(&self) -> (name: String)
        ensures
            name@ == self.system.name_spec(),
    {
        self.system.name()
    }

    /// Returns the system.
    pub fn system(&self) -> (system: &S)
        ensures
            *system == self.system,
    {
        &self.system
    }

    /// Returns the system, to change it.
    pub fn system_mut(&mut self) -> (system: &mut S)
        ensures
            *system == old(self).system,
            *final(self) == (RunnableSystem { system: *final(system), ..*old(self) }),
    {
        &mut self.system
    }

    /// Returns the id of the type of the system.
    pub fn system_type_id(&self) -> (id: SystemTypeId)
        ensures
            id == self.system.type_id_spec(),
    {
        self.system.type_id()
    }

    /// Updates what is known of what the system accesses in the archetypes of a world.
    pub fn update_archetype_component_access(&mut self, world: &S::World)
        ensures
            updated(*old(self), *world, *final(self)),
    {
        self.system.update_archetype_component_access(world, &mut self.runnable_system_meta);
    }

    /// Returns what the system accesses in archetypes.
    pub fn archetype_component_access(&self) -> (access: &ArchetypeComponentAccess)
        ensures
            *access == self.runnable_system_meta.archetype_component_access,
    {
        &self.runnable_system_meta.archetype_component_access
    }

    /// Returns what the system accesses.
    pub fn component_access(&self) -> (access: &Access)
        ensures
            *access == self.runnable_system_meta.component_access_set.combined_access,
    {
        self.runnable_system_meta.component_access_set.combined_access()
    }

    /// Returns whether the system can be run on any thread.
    pub fn is_send(&self) -> (is_send: bool)
        ensures
            is_send == self.runnable_system_meta.is_send,
    {
        self.runnable_system_meta.is_send()
    }

    /// Returns whether the system needs the world for itself.
    pub fn is_exclusive(&self) -> (is_exclusive: bool)
        ensures
            is_exclusive == self.runnable_system_meta.is_exclusive,
    {
        self.runnable_system_meta.is_exclusive()
    }

    /// Returns whether the system has changes that are applied later.
    pub fn has_deferred(&self) -> (has_deferred: bool)
        ensures
            has_deferred == self.runnable_system_meta.has_deferred,
    {
        self.runnable_system_meta.has_deferred()
    }

    /// Runs the system. Deferred changes are not applied.
    pub fn run_unsafe(&mut self, input: S::In, world: &mut S::World) -> (out: S::Out)
        ensures
            old(self).system.executed(input, *old(world), final(self).system, *final(world), out),
            final(self).runnable_system_meta == old(self).runnable_system_meta,
    {
        self.system.run_unsafe(input, world)
    }

    /// Initializes the system.
    pub fn initialize(&mut self, world: &mut S::World)
        ensures
            old(self).system.initialized(
                *old(world),
                final(self).system,
                *final(world),
                final(self).runnable_system_meta,
            ),
    {
        self.runnable_system_meta = self.system.initialize(world);
    }

    /// Marks the system as one that needs the world for itself, on the main thread.
    pub fn initialize_as_exclusive(&mut self)
        ensures
            *final(self) == (RunnableSystem {
                runnable_system_meta: RunnableSystemMeta {
                    is_send: false,
                    is_exclusive: true,
                    ..old(self).runnable_system_meta
                },
                ..*old(self)
            }),
    {
        self.runnable_system_meta.set_non_send();
        self.runnable_system_meta.set_is_exclusive();
    }

    /// Runs the system, and applies its deferred changes.
    pub fn run(&mut self, input: S::In, world: &mut S::World) -> (out: S::Out)
        ensures
            run_to(*old(self), input, *old(world), *final(self), *final(world), out),
    {
        self.update_archetype_component_access(world);
        let ghost looked = *self;
        assert(updated(*old(self), *old(world), looked));
        let out = self.system.run_unsafe(input, world);
        let ghost executed = self.system;
        let ghost mid = *world;
        self.system.apply_deferred(world);
        assert(looked.system.executed(input, *old(world), executed, mid, out));
        out
    }

    /// Returns whether all parameters of the system can be had.
    pub fn validate_param(&mut self, world: &S::World) -> (valid: bool)
        ensures
            validated(*old(self), *world, *final(self), valid),
    {
        self.update_archetype_component_access(world);
        let ghost looked = *self;
        assert(updated(*old(self), *world, looked));
        self.system.validate_param_unsafe(world)
    }

    /// Runs the system if its parameters can be had, and queues its deferred changes.
    pub fn run_deferred(&mut self, input: S::In, world: &mut S::World)
        ensures
            run_deferred_to(*old(self), input, *old(world), *final(self), *final(world)),
    {
        let valid = self.validate_param(world);
        let ghost checked = *self;
        assert(validated(*old(self), *old(world), checked, valid));
        if valid {
            let out = self.system.run_unsafe(input, world);
            let ghost executed = self.system;
            let ghost mid = *world;
            self.system.queue_deferred(world);
            assert(checked.system.executed(input, *old(world), executed, mid, out));
        }
    }
}

/// Why a system was not run.
#[derive(Debug)]
pub enum RunSystemError {
    /// Not all parameters of the system with the given name could be had.
    InvalidParams(String),
}

/// Whether running a system once may take a world to another, with a result: the system is
/// initialized, and then run if its parameters can be had.
pub open spec fn run_once_to<S: System>(
    before: RunnableSystem<S>,
    input: S::In,
    world: S::World,
    world_after: S::World,
    result: Result<S::Out, RunSystemError>,
) -> bool {
    exists|initialized: RunnableSystem<S>, mid: S::World, checked: RunnableSystem<S>, valid: bool|
        {
            &&& #[trigger] before.system.initialized(
                world,
                initialized.system,
                mid,
                initialized.runnable_system_meta,
            )
            &&& #[trigger] validated(initialized, mid, checked, valid)
            &&& if valid {
                result is Ok && exists|after: RunnableSystem<S>| #[trigger]
                    run_to(checked, input, mid, after, world_after, result->Ok_0)
            } else {
                &&& result is Err
                &&& result->Err_0->0@ == checked.system.name_spec()
                &&& world_after == mid
            }
        }
}

/// Runs systems that are made for one run, and then dropped.
pub trait RunSystemOnce: Sized {
    /// Runs a system without input, and applies its deferred changes.
    fn run_system_once<T, S>(&mut self, system: T) -> (result: Result<S::Out, RunSystemError>) where
        T: IntoSystem<System = S>,
        S: System<World = Self, In = ()>,

        ensures
            exists|runnable: RunnableSystem<S>|
                runnable.system == system.converted() && #[trigger] run_once_to(
                    runnable,
                    (),
                    *old(self),
                    *final(self),
                    result,
                ),
    ;

    /// Runs a system with an input, and applies its deferred changes.
    fn run_system_once_with<T, S>(&mut self, input: S::In, system: T) -> (result: Result<
        S::Out,
        RunSystemError,
    >) where T: IntoSystem<System = S>, S: System<World = Self>
        ensures
            exists|runnable: RunnableSystem<S>|
                runnable.system == system.converted() && #[trigger] run_once_to(
                    runnable,
                    input,
                    *old(self),
                    *final(self),
                    result,
                ),
    ;
}

impl<C, R> RunSystemOnce for crate::world::World<C, R> {
    fn run_system_once<T, S>(&mut self, system: T) -> (result: Result<S::Out, RunSystemError>) where
        T: IntoSystem<System = S>,
        S: System<World = Self, In = ()>,
     {
        self.run_system_once_with((), system)
    }

    fn run_system_once_with<T, S>(&mut self, input: S::In, system: T) -> (result: Result<
        S::Out,
        RunSystemError,
    >) where T: IntoSystem<System = S>, S: System<World = Self> {
        let mut runnable = RunnableSystem::new(system);
        let ghost start = runnable;
        runnable.initialize(self);
        let ghost initialized = runnable;
        let ghost mid = *self;
        let valid = runnable.validate_param(self);
        let ghost checked = runnable;
        assert(validated(initialized, mid, checked, valid));
        let result = if valid {
            let out = runnable.run(input, self);
            assert(run_to(checked, input, mid, runnable, *self, out));
            Ok(out)
        } else {
            Err(RunSystemError::InvalidParams(runnable.name()))
        };
        assert(valid ==> run_to(checked, input, mid, runnable, *self, result->Ok_0));
        assert(run_once_to(start, input, *old(self), *self, result));
        result
    }
}

/// The text that warns of a system that has not been run for too long.
pub open spec fn tick_warning(system_name: Seq<char>, age: Tick) -> Seq<char> {
    "System '"@ + system_name + "' has not run for "@ + crate::text::decimal(age.0 as int)
        + " ticks. Changes older than "@ + crate::text::decimal(MAX_CHANGE_AGE - 1)
        + " ticks will not be detected."@
}

/// Wraps the tick of the last run of a system if it has become too old. Returns the text of
/// a warning then.
pub fn check_system_change_tick(last_run: &mut Tick, this_run: Tick, system_name: &str) -> (warning:
    Option<String>)
    ensures
        *final(last_run) == old(last_run).clamped(this_run),
        warning is Some <==> this_run.age_of(*old(last_run)).0 > MAX_CHANGE_AGE,
        warning matches Some(text) ==> text@ == tick_warning(
            system_name@,
            this_run.age_of(*final(last_run)),
        ),
{
    if last_run.check_tick(this_run) {
        let age = this_run.relative_to(*last_run);
        let mut text = String::from_str("System '");
        text.append(system_name);
        text.append("' has not run for ");
        text.append(decimal_text(age.0 as u64).as_str());
        text.append(" ticks. Changes older than ");
        text.append(decimal_text((MAX_CHANGE_AGE - 1) as u64).as_str());
        text.append(" ticks will not be detected.");
        Some(text)
    } else {
        None
    }
}

} // verus!
