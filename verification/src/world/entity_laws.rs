//! What holds of changing the entities of a world.

use vstd::prelude::*;

use crate::component::{Component, ComponentId};
use crate::entity::allocator::ENTITY_BLOCK;
use crate::entity::location::{Location, MaybeLocation};
use crate::entity::Entity;
use crate::world::command::{Command, CommandError, Outcome};
use crate::world::command_queue::CommandQueue;
use crate::world::entity_command::EntityCommand;
use crate::world::storages::Storages;
use crate::world::World;

verus! {

/// When one entity is changed, every other entity keeps its values, and stays alive or not.
pub proof fn other_entities_keep_their_values<C, R>(
    before: World<C, R>,
    after: World<C, R>,
    entity: Entity,
    other: Entity,
    id: ComponentId,
)
    requires
        after.others_same(before, entity),
        other.wf(),
        other != entity,
    ensures
        after.values(other) is Some <==> before.values(other) is Some,
        after.values(other) is Some ==> (after.values(other)->0.contains_key(id)
            <==> before.values(other)->0.contains_key(id)),
        after.values(other) is Some && after.values(other)->0.contains_key(id)
            ==> after.values(other)->0[id] == before.values(other)->0[id],
{
    assert(after.values(other) == before.values(other));
}

/// When only what is stored of entities changes, the identifier, the queue, the resources and the
/// observers of the world stay.
pub proof fn rest_of_the_world_stays<C, R>(before: World<C, R>, after: World<C, R>)
    requires
        after.same_but_entities(before),
    ensures
        after.id == before.id,
        after.command_queue == before.command_queue,
        after.resources == before.resources,
        after.last_trigger_id == before.last_trigger_id,
        after.panic_originates_from_error_handler == before.panic_originates_from_error_handler,
        after.replacements == before.replacements,
        after.observers.cache == before.observers.cache,
        after.observers.add == before.observers.add,
        after.observers.insert == before.observers.insert,
        after.observers.replace == before.observers.replace,
        after.observers.remove == before.observers.remove,
        after.observers.despawn == before.observers.despawn,
        after.observers.enter == before.observers.enter,
        after.observers.leave == before.observers.leave,
{
}

/// Clearing a world leaves no entity in any table, keeps all archetypes, and changes nothing but
/// what is stored of entities.
pub proof fn cleared_world_has_empty_tables<C, R>(
    before: World<C, R>,
    after: World<C, R>,
    i: int,
)
    requires
        after.has_cleared(before),
    ensures
        0 <= i < after.storages.tables.tables@.len()
            ==> after.storages.tables.tables@[i].entities@.len() == 0,
        after.storages.archetypes == before.storages.archetypes,
        after.id == before.id,
        after.command_queue == before.command_queue,
        after.resources == before.resources,
        after.observers == before.observers,
        after.last_trigger_id == before.last_trigger_id,
        after.replacements == before.replacements,
{
    if 0 <= i < after.storages.tables.tables@.len()
        && after.storages.tables.tables@[i].entities@.len() > 0 {
        assert(after.storages.has_row(i, 0));
    }
}

/// An archetype is for entities with some components if it has these components, and no others.
pub proof fn archetype_is_for_its_components<C, R>(
    world: World<C, R>,
    components: Seq<Component>,
    i: int,
)
    requires
        0 <= i < world.storages.archetypes.archetypes@.len(),
    ensures
        (forall|id: ComponentId| #[trigger]
            world.storages.archetypes.archetypes@[i].components@.contains(id) <==> exists|k: int|
                0 <= k < components.len() && (#[trigger] components[k]).id == id)
            ==> world.has_archetype(components),
        world.storages.fits(i, components) ==> forall|id: ComponentId| #[trigger]
            world.storages.archetypes.archetypes@[i].components@.contains(id) <==> exists|k: int|
                0 <= k < components.len() && (#[trigger] components[k]).id == id,
        world.has_archetype(components) ==> exists|k: int|
            0 <= k < world.storages.archetypes.archetypes@.len()
                && #[trigger] world.storages.fits(k, components),
{
    if forall|id: ComponentId| #[trigger]
        world.storages.archetypes.archetypes@[i].components@.contains(id) <==> exists|k: int|
            0 <= k < components.len() && (#[trigger] components[k]).id == id {
        assert forall|id: ComponentId|
            world.storages.archetype(i).components@.contains(id)
                <==> #[trigger] crate::component::has_component(components, id) by {
            assert(world.storages.archetypes.archetypes@[i].components@.contains(id)
                == crate::component::has_component(components, id));
        }
        assert(world.storages.fits(i, components));
    }
    if world.storages.fits(i, components) {
        assert forall|id: ComponentId| #[trigger]
            world.storages.archetypes.archetypes@[i].components@.contains(id) <==> exists|k: int|
                0 <= k < components.len() && (#[trigger] components[k]).id == id by {
            assert(world.storages.archetype(i).components@.contains(id)
                == crate::component::has_component(components, id));
        }
    }
}

/// A command that spawns an entity fails, and changes nothing, if a component is given twice, or if
/// there is no room for another archetype or entity. Otherwise it adds one entity. The entity has
/// the components that were given, with their values, and no others. All other entities stay as
/// they are.
pub proof fn spawn_command_adds_an_entity(
    components: Vec<Component>,
    before: World<EntityCommand, ()>,
    after: World<EntityCommand, ()>,
    result: Outcome,
)
    requires
        EntityCommand::Spawn(components).applied(before, after, result),
    ensures
        result is Completed <==> {
            &&& forall|i: int, k: int|
                0 <= i < k < components@.len() ==> (#[trigger] components@[i]).id != (
                #[trigger] components@[k]).id
            &&& before.storages.archetypes.archetypes@.len() + 1 < u32::MAX
            &&& before.observers.archetype_sets < u64::MAX
            &&& before.allocated() + 1 + ENTITY_BLOCK <= u32::MAX
        },
        !(result is Completed) ==> after == before,
        result is Completed ==> {
            &&& after.live() == before.live() + 1
            &&& after.command_queue == before.command_queue
            &&& exists|entity: Entity|
                {
                    &&& entity.wf()
                    &&& before.values(entity) is None
                    &&& (#[trigger] after.values(entity)) is Some
                    &&& forall|id: ComponentId| #[trigger]
                        after.values(entity)->0.contains_key(id) <==> exists|i: int|
                            0 <= i < components@.len() && (#[trigger] components@[i]).id == id
                    &&& forall|i: int|
                        0 <= i < components@.len() ==> after.values(entity)->0[(
                        #[trigger] components@[i]).id] == components@[i].value
                    &&& forall|other: Entity|
                        other.wf() && other != entity ==> #[trigger] after.values(other)
                            == before.values(other)
                }
        },
{
    if result is Completed {
        let entity = choose|entity: Entity|
            crate::world::entity_command::is_new_entity(before, after, entity, components@);
        given_values(components@);
        assert(after.values(entity) is Some);
    }
}

/// The values of components that are given once are the values that are given with them.
proof fn given_values(components: Seq<Component>)
    requires
        crate::component::distinct_components(components),
    ensures
        forall|id: ComponentId| #[trigger]
            crate::component::values_of(components).contains_key(id) <==> exists|i: int|
                0 <= i < components.len() && (#[trigger] components[i]).id == id,
        forall|i: int|
            0 <= i < components.len() ==> crate::component::values_of(components)[(
            #[trigger] components[i]).id] == components[i].value,
{
    assert forall|i: int| 0 <= i < components.len() implies crate::component::values_of(
        components,
    )[(#[trigger] components[i]).id] == components[i].value by {
        crate::component::value_of_component(components, i);
    }
}

/// A command that inserts components fails, and changes nothing, if the entity is not alive, if a
/// component is given twice, or if there is no room for another archetype. Otherwise the entity has
/// the components that were given, with their values. Its other components, and all other entities,
/// stay as they are.
pub proof fn insert_command_gives_values(
    entity: Entity,
    components: Vec<Component>,
    before: World<EntityCommand, ()>,
    after: World<EntityCommand, ()>,
    result: Outcome,
)
    requires
        EntityCommand::Insert(entity, components).applied(before, after, result),
    ensures
        result is Completed <==> {
            &&& before.values(entity) is Some
            &&& forall|i: int, k: int|
                0 <= i < k < components@.len() ==> (#[trigger] components@[i]).id != (
                #[trigger] components@[k]).id
            &&& before.storages.archetypes.archetypes@.len() + 1 < u32::MAX
            &&& before.observers.archetype_sets < u64::MAX
        },
        !(result is Completed) ==> after == before,
        result is Completed ==> {
            &&& after.live() == before.live()
            &&& after.allocated() == before.allocated()
            &&& after.command_queue == before.command_queue
            &&& after.values(entity) is Some
            &&& forall|i: int|
                0 <= i < components@.len() ==> after.values(entity)->0.contains_pair(
                    (#[trigger] components@[i]).id,
                    components@[i].value,
                )
            &&& forall|id: ComponentId|
                (forall|i: int|
                    0 <= i < components@.len() ==> (#[trigger] components@[i]).id != id) ==> {
                    &&& (#[trigger] after.values(entity)->0.contains_key(id))
                        == before.values(entity)->0.contains_key(id)
                    &&& before.values(entity)->0.contains_key(id) ==> after.values(entity)->0[id]
                        == before.values(entity)->0[id]
                }
            &&& forall|other: Entity|
                other.wf() && other != entity ==> #[trigger] after.values(other)
                    == before.values(other)
        },
{
    if result is Completed {
        given_values(components@);
        let given = crate::component::values_of(components@);
        assert forall|i: int| 0 <= i < components@.len() implies after.values(
            entity,
        )->0.contains_pair((#[trigger] components@[i]).id, components@[i].value) by {
            assert(given.contains_key(components@[i].id));
        }
        assert forall|id: ComponentId|
            (forall|i: int|
                0 <= i < components@.len() ==> (#[trigger] components@[i]).id != id) implies {
            &&& (#[trigger] after.values(entity)->0.contains_key(id)) == before.values(
                entity,
            )->0.contains_key(id)
            &&& before.values(entity)->0.contains_key(id) ==> after.values(entity)->0[id]
                == before.values(entity)->0[id]
        } by {
            assert(!given.contains_key(id));
        }
    }
}

/// An error in a command on entities makes the program panic with the message of the error. The
/// world knows that the panic comes from the error handler.
pub proof fn entity_command_errors_panic(
    error: CommandError,
    before: (),
    after: (),
    from_error_handler: bool,
    result: Outcome,
)
    requires
        EntityCommand::error_handled(error, before, after, from_error_handler, result),
    ensures
        from_error_handler,
        result is Panicked,
        result->Panicked_0 is Message,
        result->Panicked_0->Message_0@ == error.message@,
{
}

/// Once two components have been inserted into entities, each of the entities has both with the
/// value zero. Its other components, and all other entities, stay as they are.
pub proof fn inserted_components_are_zero(
    before: World<EntityCommand, ()>,
    after: World<EntityCommand, ()>,
    entities: Seq<Entity>,
    matrix: ComponentId,
    vector: ComponentId,
    entity: Entity,
    id: ComponentId,
)
    requires
        crate::world::entity_command::inserted_all(before, after, entities, matrix, vector),
        entity.wf(),
    ensures
        entities.contains(entity) ==> {
            &&& after.values(entity) is Some
            &&& after.values(entity)->0.contains_pair(matrix, 0)
            &&& after.values(entity)->0.contains_pair(vector, 0)
            &&& id != matrix && id != vector ==> {
                &&& after.values(entity)->0.contains_key(id)
                    == before.values(entity)->0.contains_key(id)
                &&& before.values(entity)->0.contains_key(id) ==> after.values(entity)->0[id]
                    == before.values(entity)->0[id]
            }
        },
        !entities.contains(entity) ==> after.values(entity) == before.values(entity),
        after.live() == before.live(),
        after.allocated() == before.allocated(),
        after.command_queue == before.command_queue,
{
    if entities.contains(entity) {
        let i = choose|i: int| 0 <= i < entities.len() && entities[i] == entity;
        assert(after.values(entities[i]) is Some);
        let given = seq![Component { id: matrix, value: 0 }, Component { id: vector, value: 0 }];
        let values = crate::component::values_of(given);
        assert(given[0].id == matrix && given[1].id == vector);
        assert(values.contains_key(matrix) && values.contains_key(vector));
        assert(values[matrix] == 0 && values[vector] == 0);
        if id != matrix && id != vector {
            assert(!values.contains_key(id));
        }
    }
}

/// The commands that insert two components are queued behind those that wait, one for each entity,
/// in the order of the entities. Each gives both components the value zero.
pub proof fn insert_commands_are_queued_in_order(
    before: CommandQueue<EntityCommand>,
    after: CommandQueue<EntityCommand>,
    entities: Seq<Entity>,
    matrix: ComponentId,
    vector: ComponentId,
    i: int,
)
    requires
        crate::world::entity_command::with_insert_commands(
            before,
            after,
            entities,
            matrix,
            vector,
        ),
    ensures
        after.commands().len() == before.commands().len() + entities.len(),
        0 <= i < before.commands().len() ==> after.commands()[i] == before.commands()[i],
        0 <= i < entities.len() ==> ({
            let command = after.commands()[before.commands().len() + i];
            &&& command is Insert
            &&& command->Insert_0 == entities[i]
            &&& command->Insert_1@ == seq![
                Component { id: matrix, value: 0 },
                Component { id: vector, value: 0 },
            ]
        }),
        after.start == before.start,
        after.caller == before.caller,
        after.warn_on_unapplied == before.warn_on_unapplied,
{
    let n = before.commands().len() as int;
    if 0 <= i < n {
        assert(after.commands().take(n)[i] == after.commands()[i]);
    }
    if 0 <= i < entities.len() {
        assert(after.commands().skip(n)[i] == after.commands()[n + i]);
    }
}

/// Spawning many entities keeps those that the world had, and every new one has the components that
/// were given, with their values, and no others.
pub proof fn spawned_entities_have_what_was_given<C, R>(
    before: World<C, R>,
    after: World<C, R>,
    count: int,
    components: Seq<Component>,
    entity: Entity,
)
    requires
        crate::world::entity_command::spawned_many(before, after, count, components),
        crate::component::distinct_components(components),
        entity.wf(),
    ensures
        after.live() == before.live() + count,
        before.values(entity) is Some ==> after.values(entity) == before.values(entity),
        before.values(entity) is None && after.values(entity) is Some ==> {
            &&& forall|id: ComponentId| #[trigger]
                after.values(entity)->0.contains_key(id) <==> exists|i: int|
                    0 <= i < components.len() && (#[trigger] components[i]).id == id
            &&& forall|i: int|
                0 <= i < components.len() ==> after.values(entity)->0[(
                #[trigger] components[i]).id] == components[i].value
        },
{
    given_values(components);
}

/// When one entity is stored or taken out, the values of every other entity stay.
pub proof fn other_rows_stay(before: Storages, after: Storages, entity: Entity, other: Entity)
    requires
        after.others_same(before, entity),
        other.wf(),
        other != entity,
    ensures
        after.values(other) == before.values(other),
{
}

/// A live entity stands in the row of its location: the table is that of its archetype, the rows of
/// archetype and table are the same, and the entity is in that row.
pub proof fn live_entity_stands_in_its_row(storages: Storages, entity: Entity)
    requires
        storages.wf(),
        storages.entities@.location_of(entity) is Some,
    ensures
        ({
            let location = storages.entities@.location_of(entity)->0;
            let i = location.archetype_id.0 as int;
            &&& location.table_id.0 == i
            &&& location.archetype_row.0 == location.table_row.0
            &&& i < storages.tables.tables@.len()
            &&& location.table_row.0 < storages.tables.tables@[i].entities@.len()
            &&& storages.tables.tables@[i].entities@[location.table_row.0 as int] == entity
        }),
{
    storages.live_entity_is_stored(entity);
}

/// Every entity in a row is alive, with that row as its location.
pub proof fn entity_in_a_row_is_alive(storages: Storages, i: int, row: int)
    requires
        storages.wf(),
        0 <= i < storages.tables.tables@.len(),
        0 <= row < storages.tables.tables@[i].entities@.len(),
    ensures
        ({
            let entity = storages.tables.tables@[i].entities@[row];
            let location = storages.entities@.location_of(entity);
            &&& location is Some
            &&& location->0.archetype_id.0 == i
            &&& location->0.table_row.0 == row
        }),
{
    assert(storages.has_row(i, row));
    storages.stored_entity_is_live(i, row);
}

/// Every archetype has a table with a column for each of its components, in their order, and a
/// value for each row. No archetype has a component twice.
pub proof fn archetypes_have_their_tables(storages: Storages, i: int, c: int, d: int)
    requires
        storages.wf(),
        0 <= i < storages.archetypes.archetypes@.len(),
    ensures
        storages.tables.tables@.len() == storages.archetypes.archetypes@.len(),
        ({
            let archetype = storages.archetypes.archetypes@[i];
            let table = storages.tables.tables@[i];
            &&& archetype.table_id.0 == i
            &&& table.columns@.len() == archetype.components@.len()
            &&& 0 <= c < table.columns@.len() ==> table.columns@[c].component
                == archetype.components@[c] && table.columns@[c].values@.len()
                == table.entities@.len()
            &&& 0 <= c < d < archetype.components@.len() ==> archetype.components@[c]
                != archetype.components@[d]
        }),
{
    assert(storages.archetype(i) == storages.archetypes.archetypes@[i]);
    assert(storages.table(i) == storages.tables.tables@[i]);
}

/// The archetypes of a world stay when entities are spawned and components inserted. An archetype
/// that is added has a flag for each event that one of its components has observers of, and the
/// observers whose queries match its components.
pub proof fn new_archetype_has_its_observers<C, R>(
    before: World<C, R>,
    after: World<C, R>,
    i: int,
    key: u64,
)
    requires
        after.keeps_archetypes(before),
        0 <= i < after.storages.archetypes.archetypes@.len(),
    ensures
        before.storages.archetypes.archetypes@.len() <= after.storages.archetypes.archetypes@.len(),
        ({
            let archetype = after.storages.archetypes.archetypes@[i];
            let ids = archetype.components@;
            let observers = before.observers;
            if i < before.storages.archetypes.archetypes@.len() {
                archetype == before.storages.archetypes.archetypes@[i]
            } else {
                &&& archetype.flags.on_add_observer <==> exists|k: int|
                    0 <= k < ids.len() && observers.add.component_observers@.contains_key(
                        (#[trigger] ids[k]).0,
                    )
                &&& archetype.flags.on_insert_observer <==> exists|k: int|
                    0 <= k < ids.len() && observers.insert.component_observers@.contains_key(
                        (#[trigger] ids[k]).0,
                    )
                &&& archetype.flags.on_replace_observer <==> exists|k: int|
                    0 <= k < ids.len() && observers.replace.component_observers@.contains_key(
                        (#[trigger] ids[k]).0,
                    )
                &&& archetype.flags.on_remove_observer <==> exists|k: int|
                    0 <= k < ids.len() && observers.remove.component_observers@.contains_key(
                        (#[trigger] ids[k]).0,
                    )
                &&& archetype.flags.on_despawn_observer <==> exists|k: int|
                    0 <= k < ids.len() && observers.despawn.component_observers@.contains_key(
                        (#[trigger] ids[k]).0,
                    )
                &&& observers.enter@.contains_key(key) && observers.enter@[key].access.admits(ids)
                    <==> exists|k: int|
                    0 <= k < archetype.observers.enter@.len() && (
                    #[trigger] archetype.observers.enter@[k]).observer.bits() == key
                &&& observers.leave@.contains_key(key) && observers.leave@[key].access.admits(ids)
                    <==> exists|k: int|
                    0 <= k < archetype.observers.leave@.len() && (
                    #[trigger] archetype.observers.leave@[k]).observer.bits() == key
            }
        }),
{
    let n = before.storages.archetypes.archetypes@.len() as int;
    let archetype = after.storages.archetypes.archetypes@[i];
    if i < n {
        assert(after.storages.archetypes.archetypes@.take(n)[i] == archetype);
    } else {
        assert(crate::world::suits(archetype, before.observers));
        crate::observer::laws::archetype_has_the_observers_that_match(
            archetype.observers.enter@,
            before.observers.enter@,
            archetype.components@,
            key,
            0,
            0,
        );
        crate::observer::laws::archetype_has_the_observers_that_match(
            archetype.observers.leave@,
            before.observers.leave@,
            archetype.components@,
            key,
            0,
            0,
        );
    }
}

/// A command that fails gives the reason. If components cannot be inserted because the entity is
/// not alive, the message names the entity, and tells where it was despawned if that is known.
pub proof fn failed_command_gives_the_reason(
    command: EntityCommand,
    before: World<EntityCommand, ()>,
    after: World<EntityCommand, ()>,
    result: Outcome,
)
    requires
        command.applied(before, after, result),
        !(result is Completed),
    ensures
        result->Panicked_0 is Message,
        ({
            let text = result->Panicked_0->Message_0@;
            let room = before.storages.archetypes.archetypes@.len() + 1 < u32::MAX
                && before.observers.archetype_sets < u64::MAX;
            let components = command.components();
            let once = forall|i: int, k: int|
                0 <= i < k < components.len() ==> (#[trigger] components[i]).id != (
                #[trigger] components[k]).id;
            &&& !room ==> text == "too many archetypes"@
            &&& room && !once ==> text == "a component is given twice"@
            &&& room && once && command is Spawn ==> text == "too many entities"@
            &&& room && once && command is Insert ==> {
                let entity = command->Insert_0;
                let place = before.storages.entities@.spawned_or_despawned_by(entity);
                let start = "The entity with ID "@ + entity.display_spec();
                &&& before.values(entity) is None
                &&& place matches MaybeLocation::On(Some(caller)) ==> text == start + " "@
                    + "was despawned by "@ + caller.text_spec()
                &&& place == MaybeLocation::On(None::<Location>) ==> text == start + " "@
                    + "does not exist (index has been reused or was never spawned)"@
                &&& place is Off ==> text == start + " "@
                    + "does not exist (enable `track_location` feature for more details)"@
            }
        }),
{
    if let EntityCommand::Insert(entity, _) = command {
        if let MaybeLocation::On(Some(caller)) =
            before.storages.entities@.spawned_or_despawned_by(entity) {
            let start = "The entity with ID "@ + entity.display_spec() + " "@;
            assert(start + ("was despawned by "@ + caller.text_spec()) =~= start
                + "was despawned by "@ + caller.text_spec());
        }
    }
}

} // verus!
