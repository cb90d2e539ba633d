use ecs_core::change_detection::{Tick, MAX_CHANGE_AGE};
use ecs_core::component::ComponentId;
use ecs_core::layout::Layout;
use ecs_core::system::meta::RunnableSystemMeta;
use ecs_core::system::{
    check_system_change_tick, RunSystemError, RunSystemOnce, RunnableSystem, System, SystemTypeId,
};
use ecs_core::world::command::{Command, CommandError, Outcome, PanicPayload};
use ecs_core::world::command_queue::CommandQueue;
use ecs_core::world::entity_command::EntityCommand;
use ecs_core::world::{World, WorldId};

#[derive(PartialEq, Debug)]
struct Counter(u8);

#[derive(Default)]
struct Resources {
    value: Option<usize>,
    counter: Option<Counter>,
}

enum InsertResource {
    Value(usize),
}

impl Command for InsertResource {
    type Resources = Resources;

    fn layout(&self) -> Layout {
        Layout { size: 8, align: 8 }
    }

    fn name(&self) -> String {
        "insert_resource".to_string()
    }

    fn apply(self, world: &mut World<Self, Resources>) -> Outcome {
        let InsertResource::Value(value) = self;
        world.resources.value = Some(value);
        Outcome::Completed
    }

    fn handle_error(
        error: CommandError,
        _resources: &mut Resources,
        from_error_handler: &mut bool,
    ) -> Outcome {
        *from_error_handler = true;
        Outcome::Panicked(PanicPayload::Message(error.message))
    }
}

/// A system that is made from functions.
struct FunctionSystem<C: Command, In, Out> {
    name: &'static str,
    function: fn(In, &mut World<C, C::Resources>, &mut CommandQueue<C>) -> Out,
    valid: fn(&World<C, C::Resources>) -> bool,
    send: bool,
    queue: CommandQueue<C>,
    last_run: Tick,
    patches: usize,
}

fn system<C: Command, In, Out>(
    name: &'static str,
    function: fn(In, &mut World<C, C::Resources>, &mut CommandQueue<C>) -> Out,
) -> FunctionSystem<C, In, Out> {
    FunctionSystem {
        name,
        function,
        valid: |_world| true,
        send: true,
        queue: CommandQueue::new(),
        last_run: Tick(0),
        patches: 0,
    }
}

impl<C: Command, In, Out> System for FunctionSystem<C, In, Out> {
    type World = World<C, C::Resources>;
    type In = In;
    type Out = Out;

    fn name(&self) -> String {
        self.name.to_string()
    }

    fn type_id(&self) -> SystemTypeId {
        SystemTypeId(self.name.len() as u64)
    }

    fn run_unsafe(&mut self, input: In, world: &mut Self::World) -> Out {
        (self.function)(input, world, &mut self.queue)
    }

    fn apply_deferred(&mut self, world: &mut Self::World) {
        assert!(matches!(self.queue.apply(world), Outcome::Completed));
    }

    fn queue_deferred(&mut self, world: &mut Self::World) {
        self.queue.queue(world);
    }

    fn validate_param_unsafe(&mut self, world: &Self::World) -> bool {
        (self.valid)(world)
    }

    fn initialize(&mut self, _world: &mut Self::World) -> RunnableSystemMeta {
        let mut meta = RunnableSystemMeta::new();
        if !self.send {
            meta.set_non_send();
        }
        meta.set_has_deferred();
        meta.component_access_set.add_resource_read(ComponentId(1));
        meta
    }

    fn update_archetype_component_access(
        &mut self,
        _world: &Self::World,
        _meta: &mut RunnableSystemMeta,
    ) {
    }

    fn refresh_hotpatch(&mut self) {
        self.patches += 1;
    }

    fn check_change_tick(&mut self, change_tick: Tick) {
        self.last_run.check_tick(change_tick);
    }

    fn get_last_run(&self) -> Tick {
        self.last_run
    }

    fn set_last_run(&mut self, last_run: Tick) {
        self.last_run = last_run;
    }
}

type TestWorld = World<InsertResource, Resources>;

fn new_world() -> TestWorld {
    World::new(WorldId(0), Resources::default())
}

fn insert_value(n: usize, _: &mut TestWorld, commands: &mut CommandQueue<InsertResource>) -> usize {
    commands.push(InsertResource::Value(n));
    n + 1
}

#[test]
fn run_system_once() {
    let mut world = new_world();
    let n = world
        .run_system_once_with(1, system("system", insert_value))
        .unwrap();
    assert_eq!(n, 2);
    assert_eq!(world.resources.value.unwrap(), 1);
}

fn count_up(_: (), world: &mut TestWorld, _: &mut CommandQueue<InsertResource>) {
    world.resources.counter.as_mut().unwrap().0 += 1;
}

#[test]
fn run_two_systems() {
    let mut world = new_world();
    world.resources.counter = Some(Counter(0));
    assert_eq!(world.resources.counter, Some(Counter(0)));
    world.run_system_once(system("count_up", count_up)).unwrap();
    assert_eq!(world.resources.counter, Some(Counter(1)));
    world.run_system_once(system("count_up", count_up)).unwrap();
    assert_eq!(world.resources.counter, Some(Counter(2)));
}

fn spawn_entity(_: (), _: &mut World<EntityCommand, ()>, commands: &mut CommandQueue<EntityCommand>) {
    commands.push(EntityCommand::Spawn(vec![]));
}

#[test]
fn command_processing() {
    let mut world: World<EntityCommand, ()> = World::new(WorldId(0), ());
    assert_eq!(world.storages.entities.len(), 0);
    world
        .run_system_once(system("spawn_entity", spawn_entity))
        .unwrap();
    assert_eq!(world.storages.entities.len(), 1);
}

#[test]
fn non_send_resources() {
    fn non_send_count_down(_: (), world: &mut TestWorld, _: &mut CommandQueue<InsertResource>) {
        world.resources.counter.as_mut().unwrap().0 -= 1;
    }

    let mut world = new_world();
    world.resources.counter = Some(Counter(10));
    assert_eq!(world.resources.counter, Some(Counter(10)));
    let mut non_send = system("non_send_count_down", non_send_count_down);
    non_send.send = false;
    world.run_system_once(non_send).unwrap();
    assert_eq!(world.resources.counter, Some(Counter(9)));
}

#[test]
fn run_system_once_invalid_params() {
    fn nothing(_: (), _: &mut TestWorld, _: &mut CommandQueue<InsertResource>) {}

    let mut world = new_world();
    // This fails because the value has not been added to the world yet.
    let mut needs_value = system("needs_value", nothing);
    needs_value.valid = |world| world.resources.value.is_some();
    let result = world.run_system_once(needs_value);

    assert!(matches!(result, Err(RunSystemError::InvalidParams(_))));
    if let Err(RunSystemError::InvalidParams(name)) = result {
        assert_eq!(name, "needs_value");
    }
}

#[test]
fn runnable_systems_know_their_system() {
    let mut world = new_world();
    let mut runnable = RunnableSystem::new(system("insert", insert_value));
    assert_eq!(runnable.name(), "insert");
    assert_eq!(runnable.system_type_id(), SystemTypeId(6));
    assert!(runnable.is_send());
    assert!(!runnable.is_exclusive());
    assert!(!runnable.has_deferred());
    runnable.initialize(&mut world);
    assert!(runnable.has_deferred());
    assert!(runnable.archetype_component_access().reads_and_writes.is_empty());
    assert!(!runnable.component_access().has_component_read(ComponentId(1)));
    assert_eq!(runnable.run(4, &mut world), 5);
    assert_eq!(world.resources.value, Some(4));
    runnable.initialize_as_exclusive();
    assert!(!runnable.is_send());
    assert!(runnable.is_exclusive());
    runnable.system_mut().set_last_run(Tick(3));
    assert_eq!(runnable.system().get_last_run(), Tick(3));
    runnable.system_mut().refresh_hotpatch();
    assert_eq!(runnable.system().patches, 1);
    assert!(runnable.system().default_system_sets().is_empty());
    assert_eq!(RunnableSystem::new_boxed(system("boxed", insert_value)).name(), "boxed");
}

#[test]
fn deferred_changes_wait_for_the_world() {
    let mut world = new_world();
    let mut runnable = RunnableSystem::new(system("insert", insert_value));
    runnable.run_deferred(4, &mut world);
    assert_eq!(world.resources.value, None);
    assert!(matches!(world.flush_commands(), Outcome::Completed));
    assert_eq!(world.resources.value, Some(4));

    runnable.system_mut().valid = |_world| false;
    assert!(!runnable.validate_param(&world));
    runnable.run_deferred(5, &mut world);
    assert!(matches!(world.flush_commands(), Outcome::Completed));
    assert_eq!(world.resources.value, Some(4));

    assert_eq!(runnable.run_unsafe(6, &mut world), 7);
    assert_eq!(world.resources.value, Some(4));
}

#[test]
fn ticks_that_are_too_old_are_wrapped() {
    assert_eq!(MAX_CHANGE_AGE, u32::MAX - (2 * 518_400_000 - 1));
    let mut last_run = Tick(0);
    assert!(check_system_change_tick(&mut last_run, Tick(MAX_CHANGE_AGE), "s").is_none());
    assert_eq!(last_run, Tick(0));
    let warning = check_system_change_tick(&mut last_run, Tick(MAX_CHANGE_AGE + 5), "s").unwrap();
    assert_eq!(last_run, Tick(5));
    assert_eq!(
        warning,
        "System 's' has not run for 3258167296 ticks. \
         Changes older than 3258167295 ticks will not be detected."
    );
    assert!(check_system_change_tick(&mut last_run, Tick(MAX_CHANGE_AGE + 5), "s").is_none());
    assert_eq!(Tick(2).relative_to(Tick(u32::MAX)), Tick(3));
}
