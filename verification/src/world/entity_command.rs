//! Commands that spawn entities and insert components.

use vstd::prelude::*;
use vstd::string::*;

use crate::component::{Component, ComponentId};
use crate::entity::entities::{EntityDoesNotExistDetails, EntityDoesNotExistError};
use crate::entity::Entity;
use crate::layout::Layout;
use crate::world::command::{Command, CommandError, Outcome, PanicPayload};
use crate::world::command_queue::{CommandQueue, Record};
use crate::world::World;

verus! {

/// The size of the data of an entity command.
pub const ENTITY_COMMAND_SIZE: usize = 40;

/// The alignment of the data of an entity command.
pub const ENTITY_COMMAND_ALIGN: usize = 8;

/// A command that spawns an entity or inserts components into one.
pub enum EntityCommand {
    /// Spawns an entity with components.
    Spawn(Vec<Component>),
    /// Inserts components into an entity.
    Insert(Entity, Vec<Component>),
}

impl EntityCommand {
    /// The components of the command.
    pub open spec fn components(self) -> Seq<Component> {
        match self {
            EntityCommand::Spawn(components) => components@,
            EntityCommand::Insert(_, components) => components@,
        }
    }

    /// The message with which the command fails, if it does.
    pub open(crate) spec fn failure(self, world: World<EntityCommand, ()>) -> Seq<char> {
        if !archetypes_have_room(world) {
            "too many archetypes"@
        } else if !crate::component::distinct_components(self.components()) {
            "a component is given twice"@
        } else {
            match self {
                EntityCommand::Spawn(_) => "too many entities"@,
                EntityCommand::Insert(entity, _) => "The entity with ID "@ + entity.display_spec()
                    + " "@ + EntityDoesNotExistDetails {
                    location: world.storages.entities@.spawned_or_despawned_by(entity),
                }.text_spec(),
            }
        }
    }
}

/// Whether there is room for another archetype.
pub open spec fn archetypes_have_room<C, R>(world: World<C, R>) -> bool {
    world.storages.archetypes.archetypes@.len() + 1 < u32::MAX && world.observers.archetype_sets
        < u64::MAX
}

/// Whether at most one archetype has been added.
pub open spec fn adds_one_archetype<C, R>(before: World<C, R>, after: World<C, R>) -> bool {
    &&& after.storages.archetypes.archetypes@.len() <= before.storages.archetypes.archetypes@.len()
        + 1
    &&& after.observers.archetype_sets <= before.observers.archetype_sets + 1
}

impl Command for EntityCommand {
    type Resources = ();

    open spec fn layout_spec(self) -> Layout {
        Layout { size: ENTITY_COMMAND_SIZE, align: ENTITY_COMMAND_ALIGN }
    }

    open spec fn name_spec(self) -> Seq<char> {
        match self {
            EntityCommand::Spawn(_) => "spawn"@,
            EntityCommand::Insert(_, _) => "insert"@,
        }
    }

    open(crate) spec fn applied(
        self,
        before: World<EntityCommand, ()>,
        after: World<EntityCommand, ()>,
        result: Outcome,
    ) -> bool {
        let components = self.components();
        let possible = crate::component::distinct_components(components) && archetypes_have_room(
            before,
        ) && match self {
            EntityCommand::Spawn(_) => before.can_allocate(),
            EntityCommand::Insert(entity, _) => before.values(entity) is Some,
        };
        &&& result is Completed <==> possible
        &&& !possible ==> after == before && (result matches Outcome::Panicked(
            PanicPayload::Message(message),
        ) && message@ == self.failure(before))
        &&& possible ==> after.same_but_entities(before) && adds_one_archetype(before, after)
            && match self {
            EntityCommand::Spawn(_) => spawned(before, after, components),
            EntityCommand::Insert(entity, _) => inserted(before, after, entity, components),
        }
    }

    open spec fn error_handled(
        error: CommandError,
        before: (),
        after: (),
        from_error_handler: bool,
        result: Outcome,
    ) -> bool {
        &&& from_error_handler
        &&& result matches Outcome::Panicked(PanicPayload::Message(message)) && message@
            == error.message@
    }

    fn layout(&self) -> (layout: Layout) {
        proof {
            crate::layout::small_powers_of_two();
            crate::layout::round_up_unique(
                ENTITY_COMMAND_SIZE as int,
                ENTITY_COMMAND_ALIGN as int,
                ENTITY_COMMAND_SIZE as int,
            );
            crate::layout::round_up_unique(
                ENTITY_COMMAND_SIZE + 8,
                ENTITY_COMMAND_ALIGN as int,
                ENTITY_COMMAND_SIZE + 8,
            );
        }
        Layout { size: ENTITY_COMMAND_SIZE, align: ENTITY_COMMAND_ALIGN }
    }

    fn name(&self) -> (name: String) {
        match self {
            EntityCommand::Spawn(_) => String::from_str("spawn"),
            EntityCommand::Insert(_, _) => String::from_str("insert"),
        }
    }

    fn apply(self, world: &mut World<EntityCommand, ()>) -> (result: Outcome) {
        let archetypes: usize = world.storages.archetypes.archetypes.len();
        if archetypes >= (u32::MAX - 1) as usize || world.observers.archetype_sets == u64::MAX {
            return Outcome::Panicked(
                PanicPayload::Message(String::from_str("too many archetypes")),
            );
        }
        match self {
            EntityCommand::Spawn(components) => {
                if !are_distinct(&components) {
                    return Outcome::Panicked(
                        PanicPayload::Message(String::from_str("a component is given twice")),
                    );
                }
                if !world.storages.entities.can_reserve(1) {
                    return Outcome::Panicked(
                        PanicPayload::Message(String::from_str("too many entities")),
                    );
                }
                let ghost before = *world;
                let entity = world.spawn(&components);
                proof {
                    use_type_invariant(&entity);
                    assert(is_new_entity(before, *world, entity, components@));
                }
                Outcome::Completed
            },
            EntityCommand::Insert(entity, components) => {
                if !are_distinct(&components) {
                    return Outcome::Panicked(
                        PanicPayload::Message(String::from_str("a component is given twice")),
                    );
                }
                if world.insert(entity, &components) {
                    Outcome::Completed
                } else {
                    let error = EntityDoesNotExistError::new(entity, &world.storages.entities);
                    Outcome::Panicked(PanicPayload::Message(error.to_text()))
                }
            },
        }
    }

    fn handle_error(
        error: CommandError,
        resources: &mut (),
        from_error_handler: &mut bool,
    ) -> (result: Outcome) {
        *from_error_handler = true;
        Outcome::Panicked(PanicPayload::Message(error.message))
    }
}

/// Whether an entity is new, with the given components, and all others are the same.
pub open(crate) spec fn is_new_entity(
    before: World<EntityCommand, ()>,
    after: World<EntityCommand, ()>,
    entity: Entity,
    components: Seq<Component>,
) -> bool {
    &&& entity.wf()
    &&& before.values(entity) is None
    &&& after.values(entity) == Some(crate::component::values_of(components))
    &&& after.others_same(before, entity)
    &&& after.live() == before.live() + 1
}

/// Whether one entity has been spawned.
pub open(crate) spec fn spawned(
    before: World<EntityCommand, ()>,
    after: World<EntityCommand, ()>,
    components: Seq<Component>,
) -> bool {
    exists|entity: Entity| is_new_entity(before, after, entity, components)
}

/// Whether components have been inserted into an entity.
pub open(crate) spec fn inserted(
    before: World<EntityCommand, ()>,
    after: World<EntityCommand, ()>,
    entity: Entity,
    components: Seq<Component>,
) -> bool {
    &&& after.values(entity) == Some(
        before.values(entity)->0.union_prefer_right(crate::component::values_of(components)),
    )
    &&& after.others_same(before, entity)
    &&& after.live() == before.live()
    &&& after.allocated() == before.allocated()
}

/// Returns whether no component is given twice.
fn are_distinct(components: &Vec<Component>) -> (distinct: bool)
    ensures
        distinct == crate::component::distinct_components(components@),
{
    let mut i: usize = 0;
    while i < components.len()
        invariant
            i <= components@.len(),
            forall|a: int, b: int|
                0 <= a < b < i ==> (#[trigger] components@[a]).id != (#[trigger] components@[b]).id,
        decreases components@.len() - i,
    {
        let mut k: usize = 0;
        while k < i
            invariant
                k <= i < components@.len(),
                forall|a: int| 0 <= a < k ==> (#[trigger] components@[a]).id != components@[i
                    as int].id,
            decreases i - k,
        {
            if components[k].id == components[i].id {
                return false;
            }
            k = k + 1;
        }
        i = i + 1;
    }
    true
}

/// The commands that insert two components with their default values into entities.
pub open spec fn is_insert_commands(
    commands: Seq<EntityCommand>,
    entities: Seq<Entity>,
    matrix: ComponentId,
    vector: ComponentId,
) -> bool {
    &&& commands.len() == entities.len()
    &&& forall|i: int|
        0 <= i < commands.len() ==> {
            &&& (#[trigger] commands[i]) is Insert
            &&& commands[i]->Insert_0 == entities[i]
            &&& commands[i].components() == seq![
                Component { id: matrix, value: 0 },
                Component { id: vector, value: 0 },
            ]
        }
}

/// Whether a queue is another one to which the commands that insert two components into
/// entities have been appended.
pub open spec fn with_insert_commands(
    before: CommandQueue<EntityCommand>,
    after: CommandQueue<EntityCommand>,
    entities: Seq<Entity>,
    matrix: ComponentId,
    vector: ComponentId,
) -> bool {
    &&& after.commands().len() == before.commands().len() + entities.len()
    &&& after.commands().take(before.commands().len() as int) == before.commands()
    &&& is_insert_commands(
        after.commands().skip(before.commands().len() as int),
        entities,
        matrix,
        vector,
    )
    &&& after.same_settings(before)
}

/// Two components with their default values.
pub open spec fn default_values(matrix: ComponentId, vector: ComponentId) -> Map<
    ComponentId,
    u64,
> {
    crate::component::values_of(
        seq![Component { id: matrix, value: 0 }, Component { id: vector, value: 0 }],
    )
}

/// Whether two components can be inserted into entities, one after another: the components are
/// different ones, the entities are alive, there is room for as many archetypes, and no commands
/// wait in the world.
pub open(crate) spec fn can_insert(
    world: World<EntityCommand, ()>,
    entities: Seq<Entity>,
    matrix: ComponentId,
    vector: ComponentId,
) -> bool {
    &&& matrix != vector
    &&& forall|i: int|
        0 <= i < entities.len() ==> world.values(#[trigger] entities[i]) is Some
            && entities[i].wf()
    &&& world.storages.archetypes.archetypes@.len() + entities.len() < u32::MAX
    &&& world.observers.archetype_sets + entities.len() <= u64::MAX
    &&& world.command_queue.end == world.command_queue.start
}

/// Whether two components with their default values have been inserted into entities, and all
/// other entities are the same.
pub open(crate) spec fn inserted_all(
    before: World<EntityCommand, ()>,
    after: World<EntityCommand, ()>,
    entities: Seq<Entity>,
    matrix: ComponentId,
    vector: ComponentId,
) -> bool {
    &&& forall|i: int|
        0 <= i < entities.len() ==> after.values(#[trigger] entities[i]) == Some(
            before.values(entities[i])->0.union_prefer_right(default_values(matrix, vector)),
        )
    &&& forall|entity: Entity|
        entity.wf() && !entities.contains(entity) ==> #[trigger] after.values(entity)
            == before.values(entity)
    &&& after.live() == before.live()
    &&& after.allocated() == before.allocated()
    &&& after.storages.archetypes.archetypes@.len() <= before.storages.archetypes.archetypes@.len()
        + entities.len()
    &&& after.observers.archetype_sets <= before.observers.archetype_sets + entities.len()
    &&& after.command_queue == before.command_queue
}

/// A command that can insert components into a live entity is completed, and there is nothing
/// to flush afterwards.
proof fn insert_is_completed(
    record: Record<EntityCommand>,
    before: World<EntityCommand, ()>,
    after: World<EntityCommand, ()>,
    outcome: Outcome,
    depth: nat,
    matrix: ComponentId,
    vector: ComponentId,
)
    requires
        crate::world::runner::consumed(record, before, after, outcome, depth),
        record.command is Some,
        record.command->0 is Insert,
        record.command->0.components() == seq![
            Component { id: matrix, value: 0 },
            Component { id: vector, value: 0 },
        ],
        can_insert(before, seq![record.command->0->Insert_0], matrix, vector),
    ensures
        outcome is Completed,
        inserted_all(before, after, seq![record.command->0->Insert_0], matrix, vector),
{
    let command = record.command->0;
    let entity = command->Insert_0;
    let entities = seq![entity];
    assert(entities[0] == entity);
    let (mid, attempt) = choose|mid: World<EntityCommand, ()>, attempt: Outcome|
        {
            &&& #[trigger] crate::world::runner::step(mid, attempt)
            &&& crate::world::runner::attempted(command, before, mid, attempt, depth)
            &&& match attempt {
                Outcome::Completed => after == mid && outcome is Completed,
                Outcome::Panicked(payload) => crate::world::runner::handled(
                    command.name_spec(),
                    payload,
                    mid,
                    after,
                    outcome,
                ),
            }
        };
    assert(crate::world::runner::attempted(command, before, mid, attempt, depth));
    let (applied, result) = choose|applied: World<EntityCommand, ()>, result: Outcome|
        #[trigger] command.applied(before, applied, result) && applied.wf() && match result {
            Outcome::Completed => crate::world::runner::flushed(applied, mid, attempt, depth),
            Outcome::Panicked(_) => mid == applied && attempt == result,
        };
    assert(crate::component::distinct_components(command.components()));
    assert(result is Completed);
    assert(applied.command_queue == before.command_queue);
    assert(crate::world::runner::flushed(applied, mid, attempt, depth));
    assert(mid == applied);
    assert forall|e: Entity| e.wf() && !entities.contains(e) implies #[trigger] after.values(e)
        == before.values(e) by {
        if e == entity {
            assert(entities.contains(e));
        }
    }
}

/// Inserting twice is inserting once.
proof fn inserted_then(
    before: World<EntityCommand, ()>,
    mid: World<EntityCommand, ()>,
    after: World<EntityCommand, ()>,
    entities: Seq<Entity>,
    last: Entity,
    matrix: ComponentId,
    vector: ComponentId,
)
    requires
        can_insert(before, entities.push(last), matrix, vector),
        inserted_all(before, mid, entities, matrix, vector),
        inserted_all(mid, after, seq![last], matrix, vector),
    ensures
        inserted_all(before, after, entities.push(last), matrix, vector),
{
    let all = entities.push(last);
    let values = default_values(matrix, vector);
    assert(seq![last][0] == last);
    assert(all[entities.len() as int] == last);
    assert(before.values(last) is Some && last.wf());
    assert forall|i: int| 0 <= i < all.len() implies after.values(#[trigger] all[i]) == Some(
        before.values(all[i])->0.union_prefer_right(values),
    ) by {
        let entity = all[i];
        if i < entities.len() {
            assert(entities[i] == entity);
        }
        if entity == last {
            if entities.contains(last) {
                let k = choose|k: int| 0 <= k < entities.len() && entities[k] == last;
                assert(mid.values(entities[k]) == Some(
                    before.values(last)->0.union_prefer_right(values),
                ));
                assert(before.values(last)->0.union_prefer_right(values).union_prefer_right(values)
                    =~= before.values(last)->0.union_prefer_right(values));
            } else {
                assert(mid.values(last) == before.values(last));
            }
        } else {
            assert(!seq![last].contains(entity));
            assert(after.values(entity) == mid.values(entity));
        }
    }
    assert forall|e: Entity| e.wf() && !all.contains(e) implies #[trigger] after.values(e)
        == before.values(e) by {
        assert(!entities.contains(e)) by {
            if entities.contains(e) {
                let k = choose|k: int| 0 <= k < entities.len() && entities[k] == e;
                assert(all[k] == e);
            }
        }
        assert(!seq![last].contains(e)) by {
            if seq![last].contains(e) {
                assert(all[entities.len() as int] == e);
            }
        }
        assert(after.values(e) == mid.values(e));
        assert(mid.values(e) == before.values(e));
    }
}

/// The entity after some others can be inserted into, too.
proof fn can_insert_next(
    before: World<EntityCommand, ()>,
    mid: World<EntityCommand, ()>,
    entities: Seq<Entity>,
    last: Entity,
    matrix: ComponentId,
    vector: ComponentId,
)
    requires
        can_insert(before, entities.push(last), matrix, vector),
        inserted_all(before, mid, entities, matrix, vector),
    ensures
        can_insert(mid, seq![last], matrix, vector),
{
    let all = entities.push(last);
    assert(all[entities.len() as int] == last);
    assert(before.values(last) is Some && last.wf());
    if entities.contains(last) {
        let k = choose|k: int| 0 <= k < entities.len() && entities[k] == last;
        assert(mid.values(entities[k]) is Some);
    } else {
        assert(mid.values(last) == before.values(last));
    }
}

proof fn can_insert_first(
    before: World<EntityCommand, ()>,
    entities: Seq<Entity>,
    last: Entity,
    matrix: ComponentId,
    vector: ComponentId,
)
    requires
        can_insert(before, entities.push(last), matrix, vector),
    ensures
        can_insert(before, entities, matrix, vector),
{
    assert forall|i: int| 0 <= i < entities.len() implies before.values(#[trigger] entities[i]) is
        Some && entities[i].wf() by {
        assert(entities.push(last)[i] == entities[i]);
    }
}

/// Commands that insert components into entities, one after another, do so.
proof fn inserts_are_completed(
    records: Seq<Record<EntityCommand>>,
    before: World<EntityCommand, ()>,
    after: World<EntityCommand, ()>,
    depth: nat,
    entities: Seq<Entity>,
    matrix: ComponentId,
    vector: ComponentId,
)
    requires
        crate::world::runner::completed(records, before, after, depth),
        is_insert_commands(
            crate::world::command_queue::commands_of(records),
            entities,
            matrix,
            vector,
        ),
        can_insert(before, entities, matrix, vector),
    ensures
        inserted_all(before, after, entities, matrix, vector),
    decreases records.len(),
{
    if records.len() > 0 {
        let rest = records.drop_last();
        let commands = crate::world::command_queue::commands_of(records);
        let mid = choose|mid: World<EntityCommand, ()>|
            {
                &&& #[trigger] crate::world::runner::step(mid, Outcome::Completed)
                &&& crate::world::runner::completed(rest, before, mid, depth)
                &&& crate::world::runner::consumed(
                    records.last(),
                    mid,
                    after,
                    Outcome::Completed,
                    depth,
                )
            };
        assert(crate::world::runner::consumed(
            records.last(),
            mid,
            after,
            Outcome::Completed,
            depth,
        ));
        match records.last().command {
            None => {
                inserts_are_completed(rest, before, mid, depth, entities, matrix, vector);
            },
            Some(command) => {
                let first = entities.drop_last();
                let last = entities.last();
                let earlier = crate::world::command_queue::commands_of(rest);
                assert(commands == earlier.push(command));
                assert(commands[commands.len() - 1] == command);
                assert forall|i: int| 0 <= i < earlier.len() implies {
                    &&& (#[trigger] earlier[i]) is Insert
                    &&& earlier[i]->Insert_0 == first[i]
                    &&& earlier[i].components() == seq![
                        Component { id: matrix, value: 0 },
                        Component { id: vector, value: 0 },
                    ]
                } by {
                    assert(commands[i] == earlier[i]);
                }
                assert(first.push(last) =~= entities);
                can_insert_first(before, first, last, matrix, vector);
                inserts_are_completed(rest, before, mid, depth, first, matrix, vector);
                can_insert_next(before, mid, first, last, matrix, vector);
                insert_is_completed(
                    records.last(),
                    mid,
                    after,
                    Outcome::Completed,
                    depth,
                    matrix,
                    vector,
                );
                inserted_then(before, mid, after, first, last, matrix, vector);
            },
        }
    }
}

/// Commands that insert components into entities, one after another, do not panic.
proof fn inserts_do_not_panic(
    records: Seq<Record<EntityCommand>>,
    before: World<EntityCommand, ()>,
    after: World<EntityCommand, ()>,
    outcome: Outcome,
    depth: nat,
    entities: Seq<Entity>,
    matrix: ComponentId,
    vector: ComponentId,
)
    requires
        is_insert_commands(
            crate::world::command_queue::commands_of(records),
            entities,
            matrix,
            vector,
        ),
        can_insert(before, entities, matrix, vector),
        outcome is Panicked,
    ensures
        !crate::world::runner::interrupted(records, before, after, outcome, depth),
    decreases records.len(),
{
    if crate::world::runner::interrupted(records, before, after, outcome, depth) {
        let (n, mid) = choose|n: int, mid: World<EntityCommand, ()>|
            {
                &&& 0 <= n < records.len()
                &&& #[trigger] crate::world::runner::step_at(n, mid)
                &&& crate::world::runner::completed(records.take(n), before, mid, depth)
                &&& crate::world::runner::consumed(records[n], mid, after, outcome, depth)
            };
        let first = records.take(n);
        let next = records.take(n + 1);
        let commands = crate::world::command_queue::commands_of(records);
        let earlier = crate::world::command_queue::commands_of(first);
        assert(next.drop_last() =~= first);
        assert(next + records.skip(n + 1) =~= records);
        crate::world::command_queue::commands_concat(next, records.skip(n + 1));
        assert(crate::world::runner::consumed(records[n], mid, after, outcome, depth));
        assert(records[n].command is Some);
        let command = records[n].command->0;
        assert(next.last() == records[n]);
        assert(crate::world::command_queue::commands_of(next) == earlier.push(command));
        let k = earlier.len() as int;
        assert(commands[k] == command);
        let some = entities.take(k);
        let last = entities[k];
        assert forall|i: int| 0 <= i < earlier.len() implies {
            &&& (#[trigger] earlier[i]) is Insert
            &&& earlier[i]->Insert_0 == some[i]
            &&& earlier[i].components() == seq![
                Component { id: matrix, value: 0 },
                Component { id: vector, value: 0 },
            ]
        } by {
            assert(commands[i] == earlier[i]);
        }
        assert(can_insert(before, some.push(last), matrix, vector)) by {
            assert forall|i: int| 0 <= i < some.push(last).len() implies before.values(
                #[trigger] some.push(last)[i],
            ) is Some && some.push(last)[i].wf() by {
                assert(some.push(last)[i] == entities[i]);
            }
        }
        can_insert_first(before, some, last, matrix, vector);
        inserts_are_completed(first, before, mid, depth, some, matrix, vector);
        can_insert_next(before, mid, some, last, matrix, vector);
        insert_is_completed(records[n], mid, after, outcome, depth, matrix, vector);
    }
}

/// Applying a queue of commands that insert components into entities does so, if no commands
/// wait in the world.
proof fn applied_inserts_are_completed(
    queue: CommandQueue<EntityCommand>,
    before: World<EntityCommand, ()>,
    queue_after: CommandQueue<EntityCommand>,
    after: World<EntityCommand, ()>,
    outcome: Outcome,
    entities: Seq<Entity>,
    matrix: ComponentId,
    vector: ComponentId,
)
    requires
        crate::world::runner::queue_applied(queue, before, queue_after, after, outcome),
        is_insert_commands(queue.commands(), entities, matrix, vector),
        can_insert(before, entities, matrix, vector),
    ensures
        outcome is Completed,
        inserted_all(before, after, entities, matrix, vector),
        queue_after.commands() == Seq::<EntityCommand>::empty(),
{
    let depth = u64::MAX as nat;
    let (mid, run) = choose|mid: World<EntityCommand, ()>, run: World<EntityCommand, ()>|
        {
            &&& #[trigger] crate::world::runner::step(mid, Outcome::Completed)
            &&& #[trigger] crate::world::runner::step(run, outcome)
            &&& crate::world::runner::flushed(before, mid, Outcome::Completed, depth)
            &&& crate::world::runner::ran(queue.records@, mid, run, outcome, depth)
            &&& after == crate::world::runner::after_discard(run, outcome)
        };
    assert(crate::world::runner::flushed(before, mid, Outcome::Completed, depth));
    assert(mid == before);
    assert(crate::world::runner::ran(queue.records@, mid, run, outcome, depth));
    let start = before.with_panic_origin(false);
    assert(can_insert(start, entities, matrix, vector)) by {
        assert forall|i: int| 0 <= i < entities.len() implies start.values(
            #[trigger] entities[i],
        ) is Some && entities[i].wf() by {
            assert(before.values(entities[i]) is Some);
        }
    }
    if outcome is Panicked {
        inserts_do_not_panic(
            queue.records@,
            start,
            run,
            outcome,
            depth,
            entities,
            matrix,
            vector,
        );
    } else {
        inserts_are_completed(queue.records@, start, run, depth, entities, matrix, vector);
    }
    assert forall|i: int| 0 <= i < entities.len() implies after.values(#[trigger] entities[i])
        == Some(
        before.values(entities[i])->0.union_prefer_right(default_values(matrix, vector)),
    ) by {
        assert(start.values(entities[i]) == before.values(entities[i]));
    }
    assert forall|e: Entity| e.wf() && !entities.contains(e) implies #[trigger] after.values(e)
        == before.values(e) by {
        assert(start.values(e) == before.values(e));
    }
}

/// A live entity has a generation that entities can have.
proof fn live_entity_is_valid(world: World<EntityCommand, ()>, entity: Entity)
    requires
        world.wf(),
        world.values(entity) is Some,
    ensures
        entity.wf(),
{
    let index = entity.index_spec() as int;
    assert(world.storages.entities.meta@[index].wf());
}

/// The space in a queue that the record of an entity command takes.
pub const ENTITY_COMMAND_RECORD: usize = 48;

/// Queues commands that insert two components with their default values into entities, and
/// applies the queue.
pub fn asm_insert_commands(
    command_queue: &mut CommandQueue<EntityCommand>,
    world: &mut World<EntityCommand, ()>,
    entities: &Vec<Entity>,
    matrix: ComponentId,
    vector: ComponentId,
) -> (outcome: Outcome)
    requires
        old(command_queue).wf(),
        old(world).wf(),
        2 * (old(command_queue).end + ENTITY_COMMAND_RECORD * entities@.len()) + old(
            command_queue,
        ).layout.align <= isize::MAX,
    ensures
        final(command_queue).wf(),
        final(world).wf(),
        exists|queue: CommandQueue<EntityCommand>|
            {
                &&& #[trigger] with_insert_commands(
                    *old(command_queue),
                    queue,
                    entities@,
                    matrix,
                    vector,
                )
                &&& crate::world::runner::queue_applied(
                    queue,
                    *old(world),
                    *final(command_queue),
                    *final(world),
                    outcome,
                )
            },
        ({
            &&& old(command_queue).commands() == Seq::<EntityCommand>::empty()
            &&& old(world).command_queue.commands() == Seq::<EntityCommand>::empty()
            &&& matrix != vector
            &&& forall|i: int|
                0 <= i < entities@.len() ==> old(world).values(#[trigger] entities@[i]) is Some
            &&& old(world).storages.archetypes.archetypes@.len() + entities@.len() < u32::MAX
            &&& old(world).observers.archetype_sets + entities@.len() <= u64::MAX
        }) ==> {
            &&& outcome is Completed
            &&& inserted_all(*old(world), *final(world), entities@, matrix, vector)
            &&& final(command_queue).commands() == Seq::<EntityCommand>::empty()
            &&& entities@.len() == 0 ==> *final(world) == old(world).with_panic_origin(false)
        },
{
    let ghost before = *command_queue;
    let ghost world_before = *world;
    let ghost can = before.commands() == Seq::<EntityCommand>::empty()
        && world.command_queue.commands() == Seq::<EntityCommand>::empty() && matrix != vector
        && (forall|i: int|
        0 <= i < entities@.len() ==> old(world).values(#[trigger] entities@[i]) is Some)
        && old(world).storages.archetypes.archetypes@.len() + entities@.len() < u32::MAX && old(
        world,
    ).observers.archetype_sets + entities@.len() <= u64::MAX;
    proof {
        if can {
            crate::world::command_queue::queue_without_commands(world.command_queue);
            assert forall|i: int| 0 <= i < entities@.len() implies world.values(
                #[trigger] entities@[i],
            ) is Some && entities@[i].wf() by {
                live_entity_is_valid(*world, entities@[i]);
            }
            assert(can_insert(*world, entities@, matrix, vector));
        }
    }
    let ghost bound = before.end + ENTITY_COMMAND_RECORD * entities@.len();
    let mut i: usize = 0;
    assert(before.commands().take(before.commands().len() as int) =~= before.commands());
    while i < entities.len()
        invariant
            command_queue.wf(),
            i <= entities@.len(),
            bound == before.end + ENTITY_COMMAND_RECORD * entities@.len(),
            2 * bound + before.layout.align <= isize::MAX,
            command_queue.end == before.end + ENTITY_COMMAND_RECORD * i,
            command_queue.layout.align == before.layout.align,
            with_insert_commands(
                before,
                *command_queue,
                entities@.take(i as int),
                matrix,
                vector,
            ),
        decreases entities@.len() - i,
    {
        let components: Vec<Component> = vec![
            Component { id: matrix, value: 0 },
            Component { id: vector, value: 0 },
        ];
        let command = EntityCommand::Insert(entities[i], components);
        let ghost commands = command_queue.commands();
        let ghost start = before.commands().len() as int;
        proof {
            crate::layout::round_up_unique(
                ENTITY_COMMAND_RECORD as int,
                ENTITY_COMMAND_ALIGN as int,
                ENTITY_COMMAND_RECORD as int,
            );
            crate::world::command_queue::bounded_growth(
                command_queue.layout,
                command_queue.end as int,
                crate::world::command_queue::record_layout_spec(command.layout_spec()),
                bound,
            );
        }
        command_queue.push(command);
        proof {
            let after = command_queue.commands();
            assert(after.take(start) =~= commands.take(start));
            assert(after.skip(start) =~= commands.skip(start).push(command));
            assert(command.components() =~= seq![
                Component { id: matrix, value: 0 },
                Component { id: vector, value: 0 },
            ]);
            assert(entities@.take(i + 1) =~= entities@.take(i as int).push(entities@[i as int]));
        }
        i = i + 1;
    }
    assert(entities@.take(i as int) =~= entities@);
    let ghost queue = *command_queue;
    assert(with_insert_commands(before, queue, entities@, matrix, vector));
    let outcome = command_queue.apply(world);
    proof {
        if can {
            assert(queue.commands().skip(0) =~= queue.commands());
            applied_inserts_are_completed(
                queue,
                world_before,
                *command_queue,
                *world,
                outcome,
                entities@,
                matrix,
                vector,
            );
            if entities@.len() == 0 {
                crate::world::command_queue::queue_without_commands(queue);
                crate::world::laws::applying_nothing_does_nothing(
                    queue,
                    world_before,
                    *command_queue,
                    *world,
                    outcome,
                );
            }
        }
    }
    outcome
}

/// Whether a number of entities with the given components have been added to a world, and those
/// that it had are the same.
pub open(crate) spec fn spawned_many<C, R>(
    before: World<C, R>,
    after: World<C, R>,
    count: int,
    components: Seq<Component>,
) -> bool {
    &&& after.live() == before.live() + count
    &&& forall|entity: Entity|
        entity.wf() && before.values(entity) is Some ==> (#[trigger] after.values(entity))
            == before.values(entity)
    &&& forall|entity: Entity|
        entity.wf() && before.values(entity) is None && (#[trigger] after.values(
            entity,
        )) is Some ==> after.values(entity)->0 == crate::component::values_of(components)
}

/// The number of entities that [`asm_spawn_one_zst`] spawns.
pub const ENTITY_COUNT: usize = 10_000;

/// Spawns entities with one component without data, and takes out all entities.
pub fn asm_spawn_one_zst<C, R>(world: &mut World<C, R>, component: ComponentId)
    requires
        old(world).wf(),
        old(world).can_have_archetype(seq![Component { id: component, value: 0 }]),
        old(world).allocated() + 16 * ENTITY_COUNT <= u32::MAX,
    ensures
        final(world).wf(),
        final(world).live() == 0,
        forall|entity: Entity| final(world).values(entity) is None,
        final(world).has_archetype(seq![Component { id: component, value: 0 }]),
        final(world).same_but_entities(*old(world)),
        final(world).allocated() <= old(world).allocated() + 16 * ENTITY_COUNT,
        exists|full: World<C, R>|
            {
                &&& #[trigger] spawned_many(
                    *old(world),
                    full,
                    ENTITY_COUNT as int,
                    seq![Component { id: component, value: 0 }],
                )
                &&& final(world).has_cleared(full)
            },
{
    let components: Vec<Component> = vec![Component { id: component, value: 0 }];
    assert(components@ =~= seq![Component { id: component, value: 0 }]);
    let mut i: usize = 0;
    while i < ENTITY_COUNT
        invariant
            i <= ENTITY_COUNT,
            world.wf(),
            components@ == seq![Component { id: component, value: 0 }],
            world.can_have_archetype(components@),
            i > 0 ==> world.has_archetype(components@),
            old(world).allocated() + 16 * ENTITY_COUNT <= u32::MAX,
            world.allocated() <= old(world).allocated() + 16 * i,
            world.same_but_entities(*old(world)),
            spawned_many(*old(world), *world, i as int, components@),
        decreases ENTITY_COUNT - i,
    {
        let ghost before = *world;
        let entity = world.spawn(&components);
        proof {
            use_type_invariant(&entity);
            assert forall|e: Entity| e.wf() && old(world).values(e) is Some implies (
            #[trigger] world.values(e)) == old(world).values(e) by {
                assert(before.values(e) == old(world).values(e));
            }
            assert forall|e: Entity|
                e.wf() && old(world).values(e) is None && (#[trigger] world.values(
                    e,
                )) is Some implies world.values(e)->0 == crate::component::values_of(
                components@,
            ) by {
                if e != entity {
                    assert(world.values(e) == before.values(e));
                }
            }
        }
        i = i + 1;
    }
    let ghost full = *world;
    world.clear_entities();
    proof {
        assert(spawned_many(*old(world), full, ENTITY_COUNT as int, components@));
        let k = choose|k: int| full.storages.fits(k, components@);
        assert(world.storages.fits(k, components@));
    }
}

} // verus!
