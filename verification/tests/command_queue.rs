use std::sync::atomic::{AtomicU32, Ordering};
use std::sync::Arc;

use ecs_core::component::{Component, ComponentId};
use ecs_core::entity::Entity;
use ecs_core::layout::Layout;
use ecs_core::query::access::{Access, AccessFilters, FilteredAccess};
use ecs_core::query::data::{ComponentData, NoFilter, Ticks};
use ecs_core::query::state::QueryState;
use ecs_core::query::unsafe_query::UnsafeQuery;
use ecs_core::world::command::{Command, CommandError, Outcome, PanicPayload, Severity};
use ecs_core::world::command_queue::{CommandQueue, MIN_COMMAND_QUEUE_ALIGN};
use ecs_core::world::entity_command::{asm_insert_commands, asm_spawn_one_zst, EntityCommand};
use ecs_core::world::{World, WorldId};

const A: ComponentId = ComponentId(0);

/// The size of a record with a word as its data.
const SIZE: usize = 16;

struct DropCheck(Arc<AtomicU32>);

impl DropCheck {
    fn new() -> (Self, Arc<AtomicU32>) {
        let drops = Arc::new(AtomicU32::new(0));
        (Self(drops.clone()), drops)
    }
}

impl Drop for DropCheck {
    fn drop(&mut self) {
        self.0.fetch_add(1, Ordering::Relaxed);
    }
}

#[derive(Default)]
struct Resources {
    order: Vec<usize>,
    handles_errors: bool,
    last_error: Option<CommandError>,
}

type TestWorld = World<TestCommand, Resources>;

enum TestCommand {
    DropCheck(DropCheck),
    Spawn,
    Panic(String),
    AddIndex(usize),
    Function(Layout, Box<dyn FnOnce(&mut TestWorld) -> Outcome + Send>),
}

fn word() -> Layout {
    Layout { size: 8, align: 8 }
}

impl Command for TestCommand {
    type Resources = Resources;

    fn layout(&self) -> Layout {
        match self {
            TestCommand::Spawn => Layout { size: 0, align: 1 },
            TestCommand::Panic(_) => Layout { size: 24, align: 8 },
            TestCommand::Function(layout, _) => *layout,
            _ => word(),
        }
    }

    fn name(&self) -> String {
        match self {
            TestCommand::DropCheck(_) => "DropCheck",
            TestCommand::Spawn => "SpawnCommand",
            TestCommand::Panic(_) => "PanicCommand",
            TestCommand::AddIndex(_) => "add_index",
            TestCommand::Function(_, _) => "function",
        }
        .to_string()
    }

    fn apply(self, world: &mut TestWorld) -> Outcome {
        match self {
            TestCommand::DropCheck(_) => Outcome::Completed,
            TestCommand::Spawn => {
                world.spawn(&vec![Component { id: A, value: 0 }]);
                Outcome::Completed
            }
            TestCommand::Panic(_) => Outcome::Panicked(PanicPayload::Message(
                "command is panicking".to_string(),
            )),
            TestCommand::AddIndex(index) => {
                world.resources.order.push(index);
                Outcome::Completed
            }
            TestCommand::Function(_, function) => function(world),
        }
    }

    fn handle_error(
        error: CommandError,
        resources: &mut Resources,
        from_error_handler: &mut bool,
    ) -> Outcome {
        if resources.handles_errors {
            resources.last_error = Some(error);
            Outcome::Completed
        } else {
            *from_error_handler = true;
            Outcome::Panicked(PanicPayload::Message(error.message))
        }
    }
}

fn new_world() -> TestWorld {
    World::new(WorldId(0), Resources::default())
}

fn new_queue() -> CommandQueue<TestCommand> {
    CommandQueue::new()
}

fn with_component(id: ComponentId) -> Arc<FilteredAccess> {
    let mut access = Access::new();
    access.add_component_read(id);
    Arc::new(FilteredAccess {
        access,
        filter_sets: vec![AccessFilters { with: vec![id], without: vec![] }],
    })
}

fn count_a<C, R>(world: &World<C, R>) -> usize {
    let mut state = QueryState::new_uninitialized(A, (), with_component(A));
    state.update_archetypes::<ComponentData, NoFilter>(&world.storages);
    UnsafeQuery::<ComponentData, NoFilter>::new(
        &world.storages,
        &state,
        Ticks { last_run: 0, this_run: 1 },
    )
    .count()
}

fn completed(outcome: Outcome) {
    assert!(matches!(outcome, Outcome::Completed));
}

fn function(
    layout: Layout,
    function: impl FnOnce(&mut TestWorld) + Send + 'static,
) -> TestCommand {
    TestCommand::Function(
        layout,
        Box::new(move |world: &mut TestWorld| {
            function(world);
            Outcome::Completed
        }),
    )
}

fn empty(layout: Layout) -> TestCommand {
    function(layout, |_world| {})
}

#[test]
fn test_command_queue_inner_drop() {
    let mut queue = new_queue();

    let (dropcheck_a, drops_a) = DropCheck::new();
    let (dropcheck_b, drops_b) = DropCheck::new();

    queue.push(TestCommand::DropCheck(dropcheck_a));
    queue.push(TestCommand::DropCheck(dropcheck_b));

    assert_eq!(drops_a.load(Ordering::Relaxed), 0);
    assert_eq!(drops_b.load(Ordering::Relaxed), 0);

    let mut world = new_world();
    completed(queue.apply(&mut world));

    assert_eq!(drops_a.load(Ordering::Relaxed), 1);
    assert_eq!(drops_b.load(Ordering::Relaxed), 1);
}

/// Asserts that inner commands are dropped on early drop of the queue.
#[test]
fn test_command_queue_inner_drop_early() {
    let mut queue = new_queue();

    let (dropcheck_a, drops_a) = DropCheck::new();
    let (dropcheck_b, drops_b) = DropCheck::new();

    queue.push(TestCommand::DropCheck(dropcheck_a));
    queue.push(TestCommand::DropCheck(dropcheck_b));

    assert_eq!(drops_a.load(Ordering::Relaxed), 0);
    assert_eq!(drops_b.load(Ordering::Relaxed), 0);

    drop(queue);

    assert_eq!(drops_a.load(Ordering::Relaxed), 1);
    assert_eq!(drops_b.load(Ordering::Relaxed), 1);
}

#[test]
fn test_command_queue_inner() {
    let mut queue = new_queue();

    queue.push(TestCommand::Spawn);
    queue.push(TestCommand::Spawn);

    let mut world = new_world();
    completed(queue.apply(&mut world));

    assert_eq!(count_a(&world), 2);

    // The previous call to `apply` cleared the queue.
    // This call should do nothing.
    completed(queue.apply(&mut world));
    assert_eq!(count_a(&world), 2);
}

#[test]
fn test_command_queue_inner_panic_safe_panic() {
    let mut queue = new_queue();

    queue.push(TestCommand::Panic("I panic!".to_string()));
    // This will get skipped due to the panic
    queue.push(TestCommand::Spawn);

    let mut world = new_world();

    let outcome = queue.apply(&mut world);
    assert!(matches!(outcome, Outcome::Panicked(_)));

    // Even though the first command panicked, it's still ok to push
    // more commands.
    queue.push(TestCommand::Spawn);
    queue.push(TestCommand::Spawn);
    completed(queue.apply(&mut world));
    assert_eq!(count_a(&world), 2);
}

#[test]
fn test_command_queue_inner_panic_safe_handled() {
    let mut queue = new_queue();

    queue.push(TestCommand::Panic("I panic!".to_string()));
    // This will get run because the fallback error handler
    // handles the panicking command.
    queue.push(TestCommand::Spawn);

    let mut world = new_world();
    world.resources.handles_errors = true;

    completed(queue.apply(&mut world));

    // Even though the first command panicked, it's still ok to push
    // more commands.
    queue.push(TestCommand::Spawn);
    queue.push(TestCommand::Spawn);
    completed(queue.apply(&mut world));
    assert_eq!(count_a(&world), 3);

    let error = world.resources.last_error.take().unwrap();
    assert!(error.message.contains("Command panicked"));
    assert!(error.severity == Severity::Panic);
    assert_eq!(error.name, "PanicCommand");
}

/// Queues two commands around one that panics, and runs them.
fn nested_commands(world: &mut TestWorld) -> Outcome {
    world.commands().push(TestCommand::AddIndex(2));
    world.commands().push(TestCommand::Panic("I panic!".to_string()));
    world.commands().push(TestCommand::AddIndex(3));
    world.flush_commands()
}

#[test]
fn test_command_queue_inner_nested_panic_safe_panic() {
    let mut world = new_world();

    world.commands().push(TestCommand::AddIndex(1));
    world.commands().push(TestCommand::Function(word(), Box::new(nested_commands)));
    world.commands().push(TestCommand::AddIndex(4));

    let outcome = world.flush_commands();
    assert!(matches!(outcome, Outcome::Panicked(_)));

    world.commands().push(TestCommand::AddIndex(5));
    completed(world.flush_commands());
    assert_eq!(&world.resources.order, &[1, 2, 5]);
}

#[test]
fn test_command_queue_inner_nested_panic_safe_handled() {
    let mut world = new_world();
    world.resources.handles_errors = true;

    world.commands().push(TestCommand::AddIndex(1));
    // Everything after the panic will get run because the
    // fallback error handler handles the panicking command.
    world.commands().push(TestCommand::Function(word(), Box::new(nested_commands)));
    world.commands().push(TestCommand::AddIndex(4));

    completed(world.flush_commands());

    world.commands().push(TestCommand::AddIndex(5));
    completed(world.flush_commands());
    assert_eq!(&world.resources.order, &[1, 2, 3, 4, 5]);

    let error = world.resources.last_error.take().unwrap();
    assert!(error.message.contains("Command panicked"));
    assert_eq!(error.name, "PanicCommand");
}

// This test asserts that Command types are send.
fn assert_is_send_impl(_: impl Send) {}
fn assert_is_send(command: impl Command) {
    assert_is_send_impl(command);
}

#[test]
fn test_command_is_send() {
    assert_is_send(TestCommand::Spawn);
}

#[test]
fn command_queue_size() {
    let mut world = new_world();

    // An empty command still uses space for the metadata.
    let mut command_queue = new_queue();
    command_queue.push(empty(Layout { size: 0, align: 1 }));
    assert_eq!(MIN_COMMAND_QUEUE_ALIGN, command_queue.layout.align);
    assert_eq!(8, command_queue.end);
    completed(command_queue.apply(&mut world));

    // A command with equal alignment never needs extra padding.
    let mut command_queue = new_queue();
    command_queue.push(empty(Layout { size: 16, align: 8 }));
    assert_eq!(MIN_COMMAND_QUEUE_ALIGN, command_queue.layout.align);
    assert_eq!(24, command_queue.end);
    completed(command_queue.apply(&mut world));

    // A command with smaller alignment adds padding
    // to align the next metadata.
    let mut command_queue = new_queue();
    command_queue.push(empty(Layout { size: 9, align: 1 }));
    assert_eq!(MIN_COMMAND_QUEUE_ALIGN, command_queue.layout.align);
    assert_eq!(24, command_queue.end);
    completed(command_queue.apply(&mut world));

    // That may be zero extra alignment.
    let mut command_queue = new_queue();
    command_queue.push(empty(Layout { size: 16, align: 1 }));
    assert_eq!(MIN_COMMAND_QUEUE_ALIGN, command_queue.layout.align);
    assert_eq!(24, command_queue.end);
    completed(command_queue.apply(&mut world));

    // A command with larger alignment adds padding to align the command.
    let mut command_queue = new_queue();
    command_queue.push(empty(Layout { size: 32, align: 32 }));
    assert_eq!(32, command_queue.layout.align);
    assert_eq!(64, command_queue.end);
    completed(command_queue.apply(&mut world));

    // It may need less or zero padding if the command queue
    // was sufficiently aligned after the metadata was written.
    let mut command_queue = new_queue();
    command_queue.push(empty(Layout { size: 16, align: 8 }));
    command_queue.push(empty(Layout { size: 32, align: 32 }));
    assert_eq!(32, command_queue.layout.align);
    assert_eq!(64, command_queue.end);
    completed(command_queue.apply(&mut world));
}

#[test]
fn command_queue_append_size() {
    let mut world = new_world();

    // An empty target queue never needs an alignment command.
    let mut source_queue = new_queue();
    let mut target_queue = new_queue();
    source_queue.push(empty(Layout { size: 32, align: 32 }));
    target_queue.append(&mut source_queue);
    assert_eq!(32, target_queue.layout.align);
    assert_eq!(64, target_queue.end);
    completed(target_queue.apply(&mut world));

    // A target queue that happens to be aligned does not need an alignment command.
    let mut source_queue = new_queue();
    let mut target_queue = new_queue();
    target_queue.push(empty(word()));
    source_queue.push(empty(Layout { size: 0, align: 1 }));
    target_queue.append(&mut source_queue);
    assert_eq!(MIN_COMMAND_QUEUE_ALIGN, target_queue.layout.align);
    assert_eq!(24, target_queue.end);
    completed(target_queue.apply(&mut world));

    // A target queue that is not aligned needs to reserve space for
    // the alignment command and *then* pad to align the source queue.
    let mut source_queue = new_queue();
    let mut target_queue = new_queue();
    target_queue.push(empty(Layout { size: 0, align: 1 }));
    source_queue.push(empty(Layout { size: 0, align: 1 }));
    target_queue.append(&mut source_queue);
    assert_eq!(MIN_COMMAND_QUEUE_ALIGN, target_queue.layout.align);
    assert_eq!(40, target_queue.end);
    completed(target_queue.apply(&mut world));
}

#[test]
fn world_command_queue_reuse() {
    let mut world = new_world();
    let command_queue = world.commands();
    // Call `reserve` manually so we can identify the buffers by length
    command_queue.reserve(Layout { size: SIZE * 10, align: 1 });

    world.commands().push(function(word(), |world| {
        let command_queue = world.commands();
        assert!(!command_queue.owned);
        assert_eq!(SIZE * 10, command_queue.layout.size);
        assert_eq!(SIZE, command_queue.start);

        world.commands().push(function(word(), |world| {
            world.commands().push(empty(word()));
            let command_queue = world.commands();
            assert!(!command_queue.owned);
            assert_eq!(SIZE * 10, command_queue.layout.size);
            assert_eq!(SIZE * 2, command_queue.start);
            world.commands().push(empty(word()));
        }));
        completed(world.flush_commands());
        // A borrowed queue was returned to a borrowed queue
        // Continue using the borrowed queue
        let command_queue = world.commands();
        assert!(!command_queue.owned);
        assert_eq!(SIZE * 10, command_queue.layout.size);
        assert_eq!(SIZE, command_queue.start);

        world.commands().push(function(word(), |world| {
            world.commands().push(empty(word()));
            let command_queue = world.commands();
            // Force a new queue to be allocated for testing
            command_queue.reserve(Layout { size: SIZE * (20 - 3), align: 1 });
            assert!(command_queue.owned);
            assert_eq!(SIZE * 20, command_queue.layout.size);
            assert_eq!(SIZE * 2, command_queue.start);
            world.commands().push(empty(word()));
        }));
        completed(world.flush_commands());
        // An owned queue was returned to a borrowed queue
        // Use the new owned queue
        let command_queue = world.commands();
        assert!(command_queue.owned);
        assert_eq!(SIZE * 20, command_queue.layout.size);
        assert_eq!(SIZE, command_queue.start);

        world.commands().push(function(word(), |world| {
            world.commands().push(empty(word()));
            let command_queue = world.commands();
            assert!(!command_queue.owned);
            assert_eq!(SIZE * 20, command_queue.layout.size);
            assert_eq!(SIZE * 2, command_queue.start);
            world.commands().push(empty(word()));
        }));
        completed(world.flush_commands());
        // A borrowed queue was returned to an owned queue
        // Continue using the owned queue
        let command_queue = world.commands();
        assert!(command_queue.owned);
        assert_eq!(SIZE * 20, command_queue.layout.size);
        assert_eq!(SIZE, command_queue.start);

        world.commands().push(function(word(), |world| {
            world.commands().push(empty(word()));
            let command_queue = world.commands();
            // Force a new queue to be allocated for testing
            command_queue.reserve(Layout { size: SIZE * (40 - 3), align: 1 });
            assert!(command_queue.owned);
            assert_eq!(SIZE * 40, command_queue.layout.size);
            assert_eq!(SIZE * 2, command_queue.start);
            world.commands().push(empty(word()));
        }));
        completed(world.flush_commands());
        // An owned queue was returned to an owned queue queue
        // Use the new owned queue
        let command_queue = world.commands();
        assert!(command_queue.owned);
        assert_eq!(SIZE * 40, command_queue.layout.size);
        assert_eq!(SIZE, command_queue.start);
    }));
    completed(world.flush_commands());
}

#[test]
fn commands_run_in_the_order_of_their_frames() {
    let mut world = new_world();
    world.commands().push(TestCommand::AddIndex(1));
    world.commands().push(function(word(), |world| {
        world.commands().push(TestCommand::AddIndex(2));
        world.commands().push(TestCommand::AddIndex(3));
    }));
    world.commands().push(TestCommand::AddIndex(4));
    completed(world.flush_commands());
    assert_eq!(world.resources.order, vec![1, 2, 3, 4]);
    assert!(world.command_queue.is_empty());
}

#[test]
fn applying_a_queue_flushes_the_world_first() {
    let mut world = new_world();
    let mut queue = new_queue();
    world.commands().push(TestCommand::AddIndex(1));
    queue.push(TestCommand::AddIndex(2));
    completed(queue.apply(&mut world));
    assert_eq!(world.resources.order, vec![1, 2]);
    assert!(queue.is_empty());
    assert!(world.command_queue.is_empty());
}

#[test]
fn commands_are_applied_once_and_in_order() {
    let mut world = new_world();
    let mut queue = new_queue();
    world.commands().push(TestCommand::AddIndex(1));
    world.commands().push(function(word(), |world| {
        world.commands().push(TestCommand::AddIndex(2));
    }));
    queue.push(function(word(), |world| {
        world.commands().push(TestCommand::AddIndex(3));
        world.commands().push(TestCommand::AddIndex(4));
    }));
    queue.push(TestCommand::AddIndex(5));
    completed(queue.apply(&mut world));
    assert_eq!(world.resources.order, vec![1, 2, 3, 4, 5]);
    assert!(queue.is_empty());
    assert!(world.command_queue.is_empty());
    completed(queue.apply(&mut world));
    assert_eq!(world.resources.order, vec![1, 2, 3, 4, 5]);
}

#[test]
fn queue_waits_if_the_commands_of_the_world_panic() {
    let mut world = new_world();
    let mut queue = new_queue();
    world.commands().push(TestCommand::Panic("I panic!".to_string()));
    queue.push(TestCommand::AddIndex(1));
    assert!(queue.apply(&mut world).is_panic());
    assert!(!queue.is_empty());
    completed(queue.apply(&mut world));
    assert_eq!(world.resources.order, vec![1]);
}

#[test]
fn appended_commands_do_not_run_after_a_panic() {
    let mut world = new_world();
    let mut target = new_queue();
    let mut source = new_queue();
    target.push(TestCommand::AddIndex(1));
    target.push(TestCommand::Panic("I panic!".to_string()));
    source.push(TestCommand::AddIndex(2));
    target.append(&mut source);
    assert!(target.apply(&mut world).is_panic());
    assert_eq!(world.resources.order, vec![1]);
    assert!(target.is_empty());
}

#[test]
fn queues_are_empty_until_something_is_added() {
    let mut world = new_world();
    let mut queue = new_queue();
    let mut other = new_queue();
    assert!(queue.is_empty());
    queue.append(&mut other);
    assert!(queue.is_empty());
    queue.reserve(word());
    assert!(queue.is_empty());
    // The data of this command has no size.
    queue.push(TestCommand::Spawn);
    assert!(!queue.is_empty());
    other.append(&mut queue);
    assert!(queue.is_empty());
    assert!(!other.is_empty());
    queue.append(&mut other);
    assert!(!queue.is_empty());
    completed(queue.apply(&mut world));
    assert!(queue.is_empty());
}

#[test]
fn limits_of_the_machine_are_not_handled() {
    let mut world = new_world();
    world.resources.handles_errors = true;
    world.commands().push(function(word(), |world| {
        world.commands().push(TestCommand::AddIndex(1));
    }));
    let outcome = world.flush_nested(1);
    assert!(matches!(outcome, Outcome::Panicked(PanicPayload::NestingTooDeep)));
    assert!(world.resources.last_error.is_none());
    assert!(world.resources.order.is_empty());
}

#[test]
fn appended_commands_run_after_those_before() {
    let mut world = new_world();
    let mut target = new_queue();
    let mut source = new_queue();
    target.push(empty(Layout { size: 0, align: 1 }));
    target.push(TestCommand::AddIndex(1));
    source.push(TestCommand::AddIndex(2));
    source.push(TestCommand::AddIndex(3));
    target.append(&mut source);
    assert!(source.is_empty());
    completed(target.apply(&mut world));
    assert_eq!(world.resources.order, vec![1, 2, 3]);
}

#[test]
fn queueing_moves_commands_to_the_world() {
    let mut world = new_world();
    let mut queue = new_queue();
    queue.push(TestCommand::AddIndex(1));
    queue.queue(&mut world);
    assert!(queue.is_empty());
    assert!(world.resources.order.is_empty());
    completed(world.flush_commands());
    assert_eq!(world.resources.order, vec![1]);
}

#[test]
fn swapped_worlds_get_a_buffer_of_their_own() {
    let mut world = new_world();
    world.commands().push(empty(word()));
    world.commands().push(function(word(), |world| {
        *world = World::new(WorldId(7), Resources::default());
    }));
    completed(world.flush_commands());
    assert_eq!(world.id, WorldId(7));
    assert_eq!(world.take_replacements(), 1);
    assert_eq!(world.take_replacements(), 0);
    assert!(world.command_queue.owned);
    assert!(world.command_queue.is_empty());
    assert_eq!(world.command_queue.start, 0);
    assert_eq!(world.command_queue.layout.size, MIN_COMMAND_QUEUE_ALIGN);
    world.commands().push(TestCommand::AddIndex(1));
    completed(world.flush_commands());
    assert_eq!(world.resources.order, vec![1]);
}

#[test]
fn replaced_worlds_are_counted_by_frame() {
    let mut world = new_world();
    world.commands().push(function(word(), |world| {
        world.commands().push(function(word(), |world| {
            *world = World::new(WorldId(7), Resources::default());
        }));
    }));
    completed(world.flush_commands());
    assert_eq!(world.id, WorldId(7));
    assert_eq!(world.take_replacements(), 2);
    world.commands().push(TestCommand::AddIndex(1));
    completed(world.flush_commands());
    assert_eq!(world.take_replacements(), 0);
}

#[test]
fn kept_payloads_are_handled_like_messages() {
    let mut world = new_world();
    world.resources.handles_errors = true;
    world.commands().push(TestCommand::Function(
        word(),
        Box::new(|_world| Outcome::Panicked(PanicPayload::Kept)),
    ));
    completed(world.flush_commands());
    assert_eq!(world.resources.last_error.take().unwrap().message, "Command panicked");
}

#[test]
fn queueing_lays_out_records_like_appending() {
    let mut world = new_world();
    let mut queue = new_queue();
    world.commands().push(empty(Layout { size: 0, align: 1 }));
    queue.push(TestCommand::AddIndex(1));
    queue.queue(&mut world);
    assert_eq!(world.command_queue.end, 48);
    assert_eq!(world.command_queue.layout.size, 64);
    assert!(world.command_queue.owned);
    assert_eq!(world.command_queue.records.len(), 3);
    assert_eq!(queue.end, 0);
    assert_eq!(queue.layout.size, 16);
}

#[test]
fn buffers_double() {
    let mut queue = new_queue();
    queue.push(empty(word()));
    assert_eq!(queue.layout.size, 16);
    queue.push(empty(word()));
    assert_eq!(queue.layout.size, 32);
    queue.push(empty(word()));
    assert_eq!(queue.layout.size, 64);
    assert_eq!(queue.end, 48);
    assert!(queue.owned);
}

#[test]
fn queues_warn_of_unapplied_commands() {
    let mut queue = new_queue();
    assert!(!queue.warns_on_drop());
    queue.push(TestCommand::Spawn);
    assert!(queue.warns_on_drop());
    queue.silence_drop_warning();
    assert!(!queue.warns_on_drop());
    queue.push(TestCommand::Spawn);
    assert!(!queue.warns_on_drop());
    let mut other = new_queue();
    other.push(TestCommand::Spawn);
    queue.append(&mut other);
    assert!(!queue.warns_on_drop());
    completed(queue.apply(&mut new_world()));
    queue.push(TestCommand::Spawn);
    assert!(!queue.warns_on_drop());
    let mut silent: CommandQueue<TestCommand> = CommandQueue::silent();
    silent.push(TestCommand::Spawn);
    assert!(!silent.warns_on_drop());
}

#[test]
fn nesting_too_deep_is_a_panic() {
    let mut world = new_world();
    world.commands().push(TestCommand::AddIndex(1));
    let outcome = world.flush_nested(0);
    assert!(matches!(outcome, Outcome::Panicked(PanicPayload::NestingTooDeep)));
    completed(world.flush_nested(1));
    assert_eq!(world.resources.order, vec![1]);
}

#[test]
fn insert_commands_give_entities_their_components() {
    let mut world: World<EntityCommand, ()> = World::new(WorldId(0), ());
    let entity = world.spawn(&vec![Component { id: A, value: 3 }]);
    let other = world.spawn(&vec![]);
    let mut queue = CommandQueue::new();
    let entities = vec![entity, other];
    let outcome =
        asm_insert_commands(&mut queue, &mut world, &entities, ComponentId(1), ComponentId(2));
    completed(outcome);
    assert!(queue.is_empty());
    assert_eq!(count_a(&world), 1);
    let location = world.storages.entities.get(entity).unwrap();
    let archetype = world.storages.archetypes.get(location.archetype_id).unwrap();
    assert!(archetype.contains(A));
    assert!(archetype.contains(ComponentId(1)));
    assert!(archetype.contains(ComponentId(2)));
    let location = world.storages.entities.get(other).unwrap();
    let archetype = world.storages.archetypes.get(location.archetype_id).unwrap();
    assert!(!archetype.contains(A));
    assert!(archetype.contains(ComponentId(1)));
}

#[test]
fn all_entities_get_both_components() {
    let mut world: World<EntityCommand, ()> = World::new(WorldId(0), ());
    let mut entities = Vec::new();
    for value in 0..20 {
        entities.push(world.spawn(&vec![Component { id: A, value }]));
    }
    let bystander = world.spawn(&vec![Component { id: A, value: 99 }]);
    entities.push(entities[3]);
    let mut queue = CommandQueue::new();
    let matrix = ComponentId(1);
    let vector = ComponentId(2);
    completed(asm_insert_commands(&mut queue, &mut world, &entities, matrix, vector));
    assert!(queue.is_empty());
    assert!(world.command_queue.is_empty());
    for id in vec![matrix, vector] {
        let mut state = QueryState::new_uninitialized(id, (), with_component(id));
        state.update_archetypes::<ComponentData, NoFilter>(&world.storages);
        let query = UnsafeQuery::<ComponentData, NoFilter>::new(
            &world.storages,
            &state,
            Ticks { last_run: 0, this_run: 1 },
        );
        assert_eq!(query.count(), 20);
        for entity in &entities {
            assert_eq!(query.get(*entity).unwrap(), 0);
        }
        assert!(query.get(bystander).is_err());
    }
    assert_eq!(count_a(&world), 21);
    assert_eq!(world.storages.entities.len(), 21);
}

#[test]
fn inserting_into_a_missing_entity_panics() {
    let mut world: World<EntityCommand, ()> = World::new(WorldId(0), ());
    let mut queue = CommandQueue::new();
    queue.push(EntityCommand::Insert(Entity::from_raw(9), vec![Component { id: A, value: 0 }]));
    match queue.apply(&mut world) {
        Outcome::Panicked(PanicPayload::Message(message)) => {
            assert_eq!(message, "Command panicked");
        }
        _ => panic!("the entity does not exist"),
    }
    queue.push(EntityCommand::Spawn(vec![
        Component { id: A, value: 0 },
        Component { id: A, value: 1 },
    ]));
    assert!(matches!(queue.apply(&mut world), Outcome::Panicked(_)));
    assert_eq!(world.storages.entities.len(), 0);
}

#[test]
fn spawning_many_entities_and_clearing_them() {
    let mut world: World<EntityCommand, ()> = World::new(WorldId(0), ());
    asm_spawn_one_zst(&mut world, A);
    assert_eq!(world.storages.entities.len(), 0);
    assert_eq!(count_a(&world), 0);
    assert_eq!(world.storages.entities.total_count(), 10_000);
    assert_eq!(world.storages.archetypes.archetypes.len(), 1);
}

#[test]
fn inserting_replaces_values_and_keeps_other_entities() {
    let mut world: World<EntityCommand, ()> = World::new(WorldId(0), ());
    let first = world.spawn(&vec![Component { id: A, value: 1 }]);
    let second = world.spawn(&vec![Component { id: A, value: 2 }]);
    let third = world.spawn(&vec![Component { id: A, value: 3 }]);
    assert!(world.insert(
        first,
        &vec![Component { id: ComponentId(5), value: 9 }, Component { id: A, value: 7 }]
    ));
    assert!(!world.insert(Entity::from_raw(77), &vec![]));
    let mut state = QueryState::new_uninitialized(A, (), with_component(A));
    state.update_archetypes::<ComponentData, NoFilter>(&world.storages);
    let query = UnsafeQuery::<ComponentData, NoFilter>::new(
        &world.storages,
        &state,
        Ticks { last_run: 0, this_run: 1 },
    );
    assert_eq!(query.get(first).unwrap(), 7);
    assert_eq!(query.get(second).unwrap(), 2);
    assert_eq!(query.get(third).unwrap(), 3);
    assert_eq!(query.count(), 3);
}
