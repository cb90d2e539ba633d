use std::collections::HashMap;
use std::sync::Arc;

use ecs_core::archetype::Archetype;
use ecs_core::component::{Component, ComponentId};
use ecs_core::entity::Entity;
use ecs_core::index::query_by_index::{Index, QueryByIndexState};
use ecs_core::query::access::{Access, AccessFilters, FilteredAccess};
use ecs_core::query::data::{
    Both, ComponentData, EntityData, NoFilter, Place, QueryFilter, Ticks, With,
};
use ecs_core::query::iteration::BatchingStrategy;
use ecs_core::query::state::QueryState;
use ecs_core::query::unsafe_query::{QueryEntityError, UnsafeQuery};
use ecs_core::storage::Table;
use ecs_core::system::meta::RunnableSystemMeta;
use ecs_core::world::entity_command::EntityCommand;
use ecs_core::world::{World, WorldId};

const T: ComponentId = ComponentId(3);
const U: ComponentId = ComponentId(4);

const TICKS: Ticks = Ticks { last_run: 0, this_run: 1 };

type TestWorld = World<EntityCommand, ()>;

fn access(reads: &[ComponentId], with: &[ComponentId]) -> Arc<FilteredAccess> {
    let mut access = Access::new();
    for id in reads {
        access.add_component_read(*id);
    }
    Arc::new(FilteredAccess {
        access,
        filter_sets: vec![AccessFilters { with: with.to_vec(), without: vec![] }],
    })
}

fn component(id: ComponentId, value: u64) -> Component {
    Component { id, value }
}

/// A world with three entities with `T`, of which the last one has `U`, too, and one entity
/// without both.
fn world() -> (TestWorld, Vec<Entity>) {
    let mut world: TestWorld = World::new(WorldId(0), ());
    let entities = vec![
        world.spawn(&vec![component(T, 0)]),
        world.spawn(&vec![component(T, 1)]),
        world.spawn(&vec![component(U, 8), component(T, 1)]),
        world.spawn(&vec![]),
    ];
    (world, entities)
}

fn state_of_t(world: &TestWorld) -> QueryState<ComponentId, ()> {
    let mut state = QueryState::new_uninitialized(T, (), access(&[T], &[T]));
    state.update_archetypes::<ComponentData, NoFilter>(&world.storages);
    state
}

/// Keeps the entities of which the value in the first column is odd.
struct OddValue;

impl QueryFilter for OddValue {
    type State = ();
    type Fetch = ();

    fn is_archetypal() -> bool {
        false
    }

    fn matches_component_set(_: &(), _: &Vec<ComponentId>) -> bool {
        true
    }

    fn set_archetype(_: &(), _: &Archetype, _: &Table, _: Ticks) {}

    fn filter_fetch(_: &(), _: &(), place: Place, _: Ticks) -> bool {
        place.table.columns[0].values[place.row.0 as usize] % 2 == 1
    }
}

#[test]
fn get_finds_matching_entities() {
    let (mut world, entities) = world();
    let gone = world.spawn(&vec![component(T, 5)]);
    world.storages.take_row(gone);
    let state = state_of_t(&world);
    let query = UnsafeQuery::<ComponentData, NoFilter>::new(&world.storages, &state, TICKS);
    assert_eq!(query.get(entities[0]).unwrap(), 0);
    assert_eq!(query.get(entities[1]).unwrap(), 1);
    assert_eq!(query.get(entities[2]).unwrap(), 1);
    assert!(query.contains(entities[0]));
    assert!(!query.contains(entities[3]));
    let location = world.storages.entities.get(entities[3]).unwrap();
    match query.get(entities[3]) {
        Err(QueryEntityError::QueryDoesNotMatch(entity, archetype)) => {
            assert_eq!(entity, entities[3]);
            assert_eq!(archetype, location.archetype_id);
        }
        _ => panic!("the entity has no value"),
    }
    for missing in [gone, Entity::from_raw(99)] {
        match query.get(missing) {
            Err(QueryEntityError::EntityDoesNotExist(error)) => {
                assert_eq!(error.entity, missing);
            }
            _ => panic!("the entity does not exist"),
        }
    }
}

#[test]
fn iter_lists_every_match_once() {
    let (world, entities) = world();
    let state = state_of_t(&world);
    let query = UnsafeQuery::<ComponentData, NoFilter>::new(&world.storages, &state, TICKS);
    let mut values = query.iter();
    values.sort();
    assert_eq!(values, vec![0, 1, 1]);
    assert_eq!(query.count(), 3);
    assert!(!query.is_empty());

    let mut state = QueryState::new_uninitialized((), T, access(&[], &[]));
    state.update_archetypes::<EntityData, With>(&world.storages);
    let query = UnsafeQuery::<EntityData, With>::new(&world.storages, &state, TICKS);
    let mut found = query.iter();
    found.sort();
    assert_eq!(found, entities[..3].to_vec());
    for entity in &entities {
        assert_eq!(query.contains(*entity), found.contains(entity));
    }
}

#[test]
fn filters_look_at_single_entities() {
    let (world, entities) = world();
    let mut state = QueryState::new_uninitialized(T, (), access(&[T], &[T]));
    state.update_archetypes::<ComponentData, OddValue>(&world.storages);
    let query = UnsafeQuery::<ComponentData, OddValue>::new(&world.storages, &state, TICKS);
    // The first column of the last entity is that of the other component.
    assert_eq!(query.iter(), vec![1]);
    assert_eq!(query.count(), 1);
    assert!(query.contains(entities[1]));
    assert!(!query.contains(entities[0]));
    assert!(matches!(
        query.get(entities[0]),
        Err(QueryEntityError::QueryDoesNotMatch(_, _))
    ));
}

#[test]
fn empty_queries_are_empty() {
    let (world, _) = world();
    let mut state = QueryState::new_uninitialized(ComponentId(77), (), access(&[], &[]));
    state.update_archetypes::<ComponentData, NoFilter>(&world.storages);
    let query = UnsafeQuery::<ComponentData, NoFilter>::new(&world.storages, &state, TICKS);
    assert!(query.is_empty());
    assert_eq!(query.count(), 0);
    assert!(query.iter().is_empty());
}

#[test]
fn iter_many_keeps_the_order_and_skips_others() {
    let (world, entities) = world();
    let state = state_of_t(&world);
    let query = UnsafeQuery::<ComponentData, NoFilter>::new(&world.storages, &state, TICKS);
    let list = vec![entities[1], entities[3], entities[0], entities[1]];
    assert_eq!(query.iter_many(&list), vec![1, 0, 1]);
    let unique = vec![entities[2], entities[3], entities[0]];
    assert_eq!(query.iter_many_unique(&unique), vec![1, 0]);
    let many = query.par_iter_many(&list);
    assert_eq!(many.entity_list, list);
    assert_eq!(many.batching_strategy, BatchingStrategy::new());
    assert_eq!(query.par_iter_many_unique(&unique).entity_list, unique);
    assert_eq!(query.par_iter().query.count(), 3);
}

#[test]
fn combinations_have_no_repetition() {
    let (world, _) = world();
    let mut state = QueryState::new_uninitialized((), T, access(&[], &[]));
    state.update_archetypes::<EntityData, With>(&world.storages);
    let query = UnsafeQuery::<EntityData, With>::new(&world.storages, &state, TICKS);
    let pairs = query.iter_combinations::<2>();
    assert_eq!(pairs.len(), 3);
    for pair in &pairs {
        assert_eq!(pair.len(), 2);
        assert_ne!(pair[0], pair[1]);
    }
    assert_ne!(pairs[0], pairs[1]);
    assert_ne!(pairs[1], pairs[2]);
    assert_eq!(query.iter_combinations::<3>().len(), 1);
    assert!(query.iter_combinations::<4>().is_empty());
    assert_eq!(query.iter_combinations::<0>().len(), 1);
}

#[test]
fn lenses_match_the_archetypes_of_their_query() {
    let (world, entities) = world();
    let state = state_of_t(&world);
    let query = UnsafeQuery::<ComponentData, NoFilter>::new(&world.storages, &state, TICKS);
    let lens = query.transmute_lens::<EntityData>((), access(&[], &[]));
    let mut found = lens.query().iter();
    found.sort();
    assert_eq!(found, entities[..3].to_vec());

    // Filters that look at components are not asked again.
    let lens =
        query.transmute_lens_filtered::<EntityData, With>((), ComponentId(55), access(&[], &[]));
    assert_eq!(lens.query().count(), 3);

    let mut other = QueryState::new_uninitialized(U, (), access(&[U], &[U]));
    other.update_archetypes::<ComponentData, NoFilter>(&world.storages);
    let other = UnsafeQuery::<ComponentData, NoFilter>::new(&world.storages, &other, TICKS);
    let joined = query.join::<ComponentData, EntityData>(other, (), access(&[T, U], &[]));
    assert_eq!(joined.query().iter(), vec![entities[2]]);
    let joined = query.join_filtered::<ComponentData, NoFilter, ComponentData, OddValue>(
        other,
        T,
        (),
        access(&[T], &[]),
    );
    // The first column of the entity holds an even value.
    assert!(joined.query().is_empty());
}

#[test]
fn readonly_queries_fetch_the_same() {
    let (world, entities) = world();
    let state = state_of_t(&world);
    let query = UnsafeQuery::<ComponentData, NoFilter>::new(&world.storages, &state, TICKS);
    let readonly = query.as_readonly::<ComponentData>();
    assert_eq!(readonly.get(entities[1]).unwrap(), 1);
    assert_eq!(query.query().as_unsafe_query().count(), 3);
    assert_eq!(query.as_nop().iter().len(), 3);
}

const PLAYER: ComponentId = ComponentId(20);

/// A world with `i + 1` entities for each of the players `i` up to 5, and their index.
fn players() -> (TestWorld, Index) {
    let markers = vec![ComponentId(30), ComponentId(31), ComponentId(32)];
    let mut mapping = HashMap::new();
    let mut world: TestWorld = World::new(WorldId(0), ());
    for player in 0..6u64 {
        let number = player as usize;
        mapping.insert(player, number);
        for _ in 0..(player + 1) {
            let mut components = vec![component(PLAYER, player)];
            for (bit, marker) in markers.iter().enumerate() {
                if number >> bit & 1 == 1 {
                    components.push(component(*marker, 0));
                }
            }
            world.spawn(&components);
        }
    }
    let index = Index { component: PLAYER, mapping, markers: Arc::new(markers) };
    (world, index)
}

#[test]
fn queries_by_index_find_entities_by_value() {
    let (world, index) = players();
    let mut meta = RunnableSystemMeta::new();
    let mut state = QueryByIndexState::init_state(
        &index,
        ComponentId(90),
        (),
        (),
        access(&[PLAYER], &[]),
        &mut meta,
    );
    assert_eq!(meta.component_access_set.resource_reads, vec![ComponentId(90)]);
    assert!(meta.component_access_set.combined_access().has_component_read(PLAYER));
    {
        let by_player =
            state.get_param::<EntityData, NoFilter>(&world.storages, &index, 0, 1);
        assert_eq!(by_player.at::<EntityData>(3).inner.count(), 0);
    }
    for archetype in &world.storages.archetypes.archetypes {
        state.new_archetype::<EntityData, NoFilter>(archetype, &mut meta);
    }
    assert_eq!(meta.archetype_component_access.reads_and_writes.len(), 6);
    assert!(meta.archetype_component_access.writes.is_empty());
    assert_eq!(state.query_states.len(), 6);
    assert!(state.validate_param(Some(&index)));
    assert!(!state.validate_param(None));
    let mut by_player = state.get_param::<EntityData, NoFilter>(&world.storages, &index, 0, 1);
    let counts: Vec<usize> = (0..6)
        .map(|player| by_player.at::<EntityData>(player).inner.iter().len())
        .collect();
    assert_eq!(counts, vec![1, 2, 3, 4, 5, 6]);
    assert_eq!(by_player.at_mut(5).into_unsafe_query().count(), 6);
    assert_eq!(by_player.at::<EntityData>(6).inner.count(), 0);
}

#[test]
fn archetypes_without_the_component_are_not_indexed() {
    let (mut world, index) = players();
    world.spawn(&vec![component(ComponentId(30), 0)]);
    let mut meta = RunnableSystemMeta::new();
    let mut state = QueryByIndexState::init_state(
        &index,
        ComponentId(90),
        (),
        (),
        access(&[PLAYER], &[]),
        &mut meta,
    );
    let last = world.storages.archetypes.archetypes.len() - 1;
    state.new_archetype::<EntityData, NoFilter>(
        &world.storages.archetypes.archetypes[last],
        &mut meta,
    );
    assert!(state.query_states.is_empty());
    // The number of an archetype is the sum of the bits that are marked in it.
    state.new_archetype::<EntityData, NoFilter>(
        &world.storages.archetypes.archetypes[5],
        &mut meta,
    );
    assert_eq!(state.query_states.len(), 6);
    assert_eq!(state.query_states[5].matched_ids.len(), 1);
    assert!(state.query_states[4].matched_ids.is_empty());
}

#[test]
fn both_filters_have_to_keep_an_entity() {
    let (world, entities) = world();
    let mut state = QueryState::new_uninitialized((), (T, U), access(&[], &[]));
    state.update_archetypes::<EntityData, Both<With, With>>(&world.storages);
    let query = UnsafeQuery::<EntityData, Both<With, With>>::new(&world.storages, &state, TICKS);
    assert_eq!(query.iter(), vec![entities[2]]);
}
