use std::collections::HashMap;
use std::sync::Arc;

use ecs_core::archetype::{Archetype, ArchetypeFlags, Archetypes};
use ecs_core::component::ComponentId;
use ecs_core::entity::location::{ArchetypeId, MaybeLocation, TableId};
use ecs_core::entity::Entity;
use ecs_core::lifecycle::{ADD, DESPAWN, INSERT, REMOVE, REPLACE};
use ecs_core::observer::archetype_observers::{ArchetypeObserverState, ArchetypeObservers};
use ecs_core::observer::{
    CachedComponentObservers, CachedObservers, Event, ObserverCall, ObserverRunner, Observers,
    RunnableObserver,
};
use ecs_core::query::access::{Access, AccessFilters, FilteredAccess};

fn entity(index: u32) -> Entity {
    Entity::from_raw(index)
}

fn bits(index: u32) -> u64 {
    entity(index).to_bits()
}

fn map(observers: &[(u32, usize)]) -> HashMap<u64, ObserverRunner> {
    observers
        .iter()
        .map(|(observer, runner)| (bits(*observer), ObserverRunner(*runner)))
        .collect()
}

fn event(event_key: usize, target: Option<Entity>) -> Event {
    Event {
        event_key,
        current_target: target,
        original_target: target,
        caller: MaybeLocation::Off,
    }
}

fn called(calls: &[ObserverCall]) -> Vec<(u32, usize)> {
    calls
        .iter()
        .map(|call| (call.trigger.observer.index(), call.runner.0))
        .collect()
}

fn observers() -> Observers {
    let mut observers = Observers::new();
    let cached = observers.get_observers_mut(ADD);
    cached.global_observers = map(&[(1, 10)]);
    cached.entity_observers.insert(bits(50), map(&[(2, 20)]));
    let mut component = CachedComponentObservers::new();
    component.global_observers = map(&[(3, 30)]);
    component
        .entity_component_observers
        .insert(bits(50), map(&[(4, 40)]));
    cached.component_observers.insert(7, component);
    observers
}

#[test]
fn invoke_runs_observers_group_by_group() {
    let observers = observers();
    let mut last_trigger_id = 8;
    let components = vec![ComponentId(6), ComponentId(7)];
    let calls = observers.invoke(
        &mut last_trigger_id,
        event(ADD, Some(entity(50))),
        &components,
    );
    assert_eq!(last_trigger_id, 9);
    assert_eq!(called(&calls), vec![(1, 10), (2, 20), (3, 30), (4, 40)]);
    for call in &calls {
        assert_eq!(call.trigger.event_key, ADD);
        assert_eq!(call.trigger.components, components);
        assert_eq!(call.trigger.current_target, Some(entity(50)));
        assert_eq!(call.trigger.original_target, Some(entity(50)));
    }
}

#[test]
fn invoke_without_target_leaves_out_entity_observers() {
    let observers = observers();
    let mut last_trigger_id = u32::MAX;
    let calls = observers.invoke(&mut last_trigger_id, event(ADD, None), &vec![ComponentId(7)]);
    assert_eq!(last_trigger_id, 0);
    assert_eq!(called(&calls), vec![(1, 10), (3, 30)]);
    let calls = observers.invoke(
        &mut last_trigger_id,
        event(ADD, Some(entity(51))),
        &vec![],
    );
    assert_eq!(called(&calls), vec![(1, 10)]);
}

#[test]
fn invoke_counts_events_that_nobody_observes() {
    let observers = observers();
    let mut last_trigger_id = 0;
    let calls = observers.invoke(&mut last_trigger_id, event(99, None), &vec![]);
    assert!(calls.is_empty());
    assert_eq!(last_trigger_id, 1);
}

#[test]
fn every_observer_of_a_map_is_called_once() {
    let mut observers = Observers::new();
    let all: Vec<(u32, usize)> = (0..20).map(|i| (i, i as usize + 100)).collect();
    observers.get_observers_mut(42).global_observers = map(&all);
    let mut last_trigger_id = 0;
    let calls = observers.invoke(&mut last_trigger_id, event(42, None), &vec![]);
    let mut found = called(&calls);
    found.sort();
    assert_eq!(found, all);
}

#[test]
fn events_have_observers_of_their_own() {
    let mut observers = Observers::new();
    for key in [ADD, INSERT, REPLACE, REMOVE, DESPAWN] {
        assert!(observers.try_get_observers(key).is_some());
    }
    assert!(observers.try_get_observers(9).is_none());
    observers.get_observers_mut(9).global_observers = map(&[(1, 1)]);
    assert_eq!(observers.try_get_observers(9).unwrap().global_observers().len(), 1);
    assert!(observers.try_get_observers(ADD).unwrap().global_observers().is_empty());
    observers.get_observers_mut(REMOVE).global_observers = map(&[(2, 2)]);
    assert_eq!(observers.remove.global_observers.len(), 1);
}

#[test]
fn observers_are_told_apart_by_their_target() {
    let observers = observers();
    let cached: &CachedObservers = observers.try_get_observers(ADD).unwrap();
    assert!(cached.entity_observers().contains_key(&bits(50)));
    assert!(!cached.entity_observers().contains_key(&7));
    let component = cached.get_component_observers().get(&7).unwrap();
    assert!(component.global_observers().contains_key(&bits(3)));
    assert!(component.entity_component_observers().contains_key(&bits(50)));
}

#[test]
fn query_observers_are_told_their_target() {
    let observers = vec![
        RunnableObserver { observer: entity(5), runner: ObserverRunner(50) },
        RunnableObserver { observer: entity(4), runner: ObserverRunner(40) },
    ];
    let calls =
        Observers::invoke_query_observers(3, entity(9), &observers, MaybeLocation::Off);
    assert_eq!(called(&calls), vec![(5, 50), (4, 40)]);
    assert!(calls[0].trigger.components.is_empty());
    assert_eq!(calls[1].trigger.current_target, Some(entity(9)));
    assert_eq!(calls[1].trigger.original_target, Some(entity(9)));
    assert_eq!(calls[1].trigger.event_key, 3);
}

#[test]
fn flags_tell_of_component_observers() {
    let observers = observers();
    let mut flags = ArchetypeFlags::empty();
    observers.update_archetype_flags(ComponentId(6), &mut flags);
    assert_eq!(flags, ArchetypeFlags::empty());
    observers.update_archetype_flags(ComponentId(7), &mut flags);
    assert_eq!(
        flags,
        ArchetypeFlags { on_add_observer: true, ..ArchetypeFlags::empty() }
    );
    assert_eq!(Observers::is_archetype_cached(ADD), Some(flags));
    assert_eq!(
        Observers::is_archetype_cached(DESPAWN),
        Some(ArchetypeFlags { on_despawn_observer: true, ..ArchetypeFlags::empty() })
    );
    assert_eq!(Observers::is_archetype_cached(5), None);
}

fn state(runner: usize, with: usize, reads: usize, looks_at: usize) -> ArchetypeObserverState {
    let mut access = Access::new();
    access.add_component_read(ComponentId(reads));
    access.add_archetypal(ComponentId(looks_at));
    ArchetypeObserverState {
        runner: ObserverRunner(runner),
        access: FilteredAccess {
            access,
            filter_sets: vec![AccessFilters { with: vec![ComponentId(with)], without: vec![] }],
        },
    }
}

#[test]
fn archetypes_have_the_observers_that_match_them() {
    let mut observers = Observers::new();
    observers.enter.insert(bits(1), state(10, 5, 5, 6));
    observers.enter.insert(bits(2), state(20, 8, 8, 9));
    observers.leave.insert(bits(3), state(30, 5, 5, 6));
    let set = observers.get_archetype_observers(&vec![ComponentId(5), ComponentId(4)]);
    assert_eq!(set.iter_enter().len(), 1);
    assert_eq!(set.iter_enter()[0].observer, entity(1));
    assert_eq!(set.iter_enter()[0].runner, ObserverRunner(10));
    assert_eq!(set.iter_leave()[0].observer, entity(3));
    let other = observers.get_archetype_observers(&vec![]);
    assert!(other.iter_enter().is_empty());
    assert_ne!(set.number, other.number);
}

fn runnable(observers: &[(u32, usize)]) -> Vec<RunnableObserver> {
    observers
        .iter()
        .map(|(observer, runner)| RunnableObserver {
            observer: entity(*observer),
            runner: ObserverRunner(*runner),
        })
        .collect()
}

fn archetype(id: u32, observers: ArchetypeObservers) -> Archetype {
    Archetype {
        id: ArchetypeId(id),
        table_id: TableId(id),
        components: vec![],
        flags: ArchetypeFlags::empty(),
        observers: Arc::new(observers),
    }
}

fn indices(observers: &[RunnableObserver]) -> Vec<u32> {
    observers.iter().map(|observer| observer.observer.index()).collect()
}

#[test]
fn edges_run_observers_that_see_a_difference() {
    let mut observers = Observers::new();
    // Reads component 1, and looks at the presence of component 2.
    for observer in [1, 2, 3] {
        observers.enter.insert(bits(observer), state(0, 0, 1, 2));
        observers.leave.insert(bits(observer), state(0, 0, 1, 2));
    }
    let archetypes = Archetypes {
        archetypes: vec![
            archetype(
                0,
                ArchetypeObservers {
                    number: 0,
                    enter: runnable(&[(1, 0)]),
                    leave: runnable(&[(1, 0), (2, 0)]),
                },
            ),
            archetype(
                1,
                ArchetypeObservers {
                    number: 1,
                    enter: runnable(&[(1, 0), (2, 0)]),
                    leave: runnable(&[(1, 0), (3, 0)]),
                },
            ),
        ],
    };
    let (source, target) = (ArchetypeId(0), ArchetypeId(1));

    // Only the observers that match one archetype alone.
    let edge =
        observers.get_edge_observers(&archetypes, source, target, &vec![], &vec![]);
    assert_eq!(indices(&edge.enter_keep), vec![2]);
    assert_eq!(indices(&edge.enter_replace), vec![2]);
    assert_eq!(indices(&edge.leave_keep), vec![2]);
    assert_eq!(indices(&edge.leave_replace), vec![2]);

    // A component that is looked at is inserted or removed.
    let edge = observers.get_edge_observers(
        &archetypes,
        source,
        target,
        &vec![ComponentId(2)],
        &vec![],
    );
    assert_eq!(indices(&edge.enter_keep), vec![1, 2]);
    assert_eq!(indices(&edge.leave_keep), vec![1, 2]);

    // A component that is read gets a new value.
    let edge = observers.get_edge_observers(
        &archetypes,
        source,
        target,
        &vec![],
        &vec![ComponentId(1), ComponentId(2)],
    );
    assert_eq!(indices(&edge.enter_keep), vec![2]);
    assert_eq!(indices(&edge.enter_replace), vec![1, 2]);
    assert_eq!(indices(&edge.leave_keep), vec![2]);
    assert_eq!(indices(&edge.leave_replace), vec![1, 2]);

    assert!(edge.is_valid(
        &archetypes.archetypes[0].observers,
        &archetypes.archetypes[1].observers
    ));
    assert!(!edge.is_valid(
        &archetypes.archetypes[1].observers,
        &archetypes.archetypes[1].observers
    ));
}

#[test]
fn inverted_accesses_read_all_others() {
    let mut access = Access::new();
    access.add_component_write(ComponentId(1));
    assert!(access.has_component_read(ComponentId(1)));
    assert!(access.has_component_write(ComponentId(1)));
    let mut all_but = Access::new();
    all_but.reads_and_writes = vec![ComponentId(1), ComponentId(2)];
    all_but.reads_and_writes_inverted = true;
    assert!(!all_but.has_component_read(ComponentId(1)));
    assert!(all_but.has_component_read(ComponentId(3)));
    access.extend(&all_but);
    assert!(access.has_component_read(ComponentId(1)));
    assert!(!access.has_component_read(ComponentId(2)));
    assert!(access.has_component_read(ComponentId(3)));
    assert!(!access.has_component_write(ComponentId(3)));
}
