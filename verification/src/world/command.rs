//! Commands.

use vstd::prelude::*;

use crate::layout::Layout;
use crate::world::World;

verus! {

/// Why a computation was abandoned.
#[derive(Debug)]
pub enum PanicPayload {
    /// A command or an error handler gave up, with a message.
    Message(String),
    /// A command or an error handler gave up with something that the program keeps.
    Kept,
    /// Command frames were nested too deeply.
    NestingTooDeep,
    /// A buffer would have been larger than memory can be.
    CapacityOverflow,
}

impl PanicPayload {
    /// Whether a limit of the machine was reached.
    pub open spec fn is_limit(self) -> bool {
        self is NestingTooDeep || self is CapacityOverflow
    }

    /// Returns whether a limit of the machine was reached.
    pub fn exceeds_machine(&self) -> (exceeds: bool)
        ensures
            exceeds == self.is_limit(),
    {
        matches!(self, PanicPayload::NestingTooDeep | PanicPayload::CapacityOverflow)
    }
}

/// How a computation ended.
#[derive(Debug)]
pub enum Outcome {
    /// It was completed.
    Completed,
    /// It was abandoned.
    Panicked(PanicPayload),
}

impl Outcome {
    /// Returns whether the computation was abandoned.
    pub fn is_panic(&self) -> (panicked: bool)
        ensures
            panicked == (self is Panicked),
    {
        matches!(self, Outcome::Panicked(_))
    }
}

/// How severe an error is.
#[derive(Clone, Copy, Debug, PartialEq, Eq, Structural)]
pub enum Severity {
    /// The error can be ignored.
    Ignore,
    /// The error is worth a warning.
    Warning,
    /// The error is an error, and the program can go on.
    Error,
    /// The program panicked.
    Panic,
}

/// What an error handler is told about an error in a command.
#[derive(Debug)]
pub struct CommandError {
    /// How severe the error is.
    pub severity: Severity,
    /// What happened.
    pub message: String,
    /// The name of the command.
    pub name: String,
}

impl CommandError {
    /// Whether this tells that the command with the given name panicked.
    pub open spec fn is_panic_of(self, name: Seq<char>) -> bool {
        &&& self.severity is Panic
        &&& self.message@ == "Command panicked"@
        &&& self.name@ == name
    }
}

/// A change to a world that is queued and applied later.
pub trait Command: Sized + Send {
    /// The resources of the world that the command is for.
    type Resources;

    /// The layout of the data of the command.
    open spec fn layout_spec(self) -> Layout {
        arbitrary()
    }

    /// The name of the command.
    open spec fn name_spec(self) -> Seq<char> {
        arbitrary()
    }

    /// Whether applying the command may take one world to another, with a result.
    open spec fn applied(
        self,
        before: World<Self, Self::Resources>,
        after: World<Self, Self::Resources>,
        result: Outcome,
    ) -> bool {
        true
    }

    /// Whether handling an error may take the resources of a world to others, with a
    /// result, and tell whether a panic comes from the handler.
    open spec fn error_handled(
        error: CommandError,
        before: Self::Resources,
        after: Self::Resources,
        from_error_handler: bool,
        result: Outcome,
    ) -> bool {
        true
    }

    /// Returns the layout of the data of the command.
    fn layout(&self) -> (layout: Layout)
        ensures
            layout == self.layout_spec(),
            crate::world::command_queue::value_layout(layout),
            crate::world::command_queue::record_fits(layout),
    ;

    /// Returns the name of the command.
    fn name(&self) -> (name: String)
        ensures
            name@ == self.name_spec(),
    ;

    /// Applies the command to a world. The result tells whether it panicked.
    fn apply(self, world: &mut World<Self, Self::Resources>) -> (result: Outcome)
        requires
            old(world).wf(),
        ensures
            final(world).wf(),
            self.applied(*old(world), *final(world), result),
    ;

    /// Handles an error in a command. The result tells whether the handler panicked,
    /// and `from_error_handler` is set if the program is to know that.
    fn handle_error(
        error: CommandError,
        resources: &mut Self::Resources,
        from_error_handler: &mut bool,
    ) -> (result: Outcome)
        requires
            !*old(from_error_handler),
        ensures
            Self::error_handled(
                error,
                *old(resources),
                *final(resources),
                *final(from_error_handler),
                result,
            ),
    ;
}

} // verus!
