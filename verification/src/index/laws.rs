//! What holds of queries by value as a whole.

use vstd::prelude::*;

use crate::entity::location::ArchetypeId;
use crate::entity::Entity;
use crate::index::query_by_index::{Index, QueryByIndex, QueryByIndexState};
use crate::query::data::{Both, QueryData, QueryFilter, With};
use crate::query::unsafe_query::UnsafeQuery;
use crate::world::storages::Storages;

verus! {

impl Index {
    /// Whether different values have different numbers, and the value of every entity that
    /// has the component has the number that is marked in the archetype of the entity.
    pub open(crate) spec fn holds(self, storages: Storages) -> bool {
        &&& forall|one: u64, other: u64|
            #[trigger] self.mapping@.contains_key(one) && #[trigger] self.mapping@.contains_key(
                other,
            ) && self.mapping@[one] == self.mapping@[other] ==> one == other
        &&& forall|entity: Entity|
            (#[trigger] storages.values(entity)) is Some && storages.values(
                entity,
            )->0.contains_key(self.component) ==> {
                let value = storages.values(entity)->0[self.component];
                let (i, row) = storages.row_of(entity)->0;
                &&& self.mapping@.contains_key(value)
                &&& self.mapping@[value] == crate::index::query_by_index::marked_number(
                    self.markers@,
                    storages.archetype(i).components@,
                    self.markers@.len() as int,
                )
            }
    }
}

impl<S, T> QueryByIndexState<S, T> {
    /// Whether those of the first `end` archetypes that match are listed in the state of
    /// their number, and nothing else is listed.
    pub open spec fn covers<D: QueryData<State = S>, F: QueryFilter<State = T>>(
        self,
        storages: Storages,
        end: int,
    ) -> bool {
        forall|k: int, id: ArchetypeId| #[trigger]
            self.number_has(k, id) <==> id.0 < end && self.empty_query_state.matches::<
                D,
                Both<F, With>,
            >(storages.archetype(id.0 as int)) && self.number_of(storages.archetype(id.0 as int))
                == k
    }
}

/// A state that lists no archetype covers none.
pub proof fn new_state_covers_nothing<S, T, D: QueryData<State = S>, F: QueryFilter<State = T>>(
    state: QueryByIndexState<S, T>,
    storages: Storages,
)
    requires
        state.query_states@.len() == 0,
    ensures
        state.covers::<D, F>(storages, 0),
{
}

/// Looking at the archetypes of a world in turn covers all of them.
pub proof fn new_archetype_is_covered<S, T, D: QueryData<State = S>, F: QueryFilter<State = T>>(
    before: QueryByIndexState<S, T>,
    after: QueryByIndexState<S, T>,
    storages: Storages,
    i: int,
)
    requires
        before.covers::<D, F>(storages, i),
        0 <= i < storages.archetypes.archetypes@.len(),
        storages.archetype(i).id.0 == i,
        after.empty_query_state == before.empty_query_state,
        after.markers == before.markers,
        before.empty_query_state.matches::<D, Both<F, With>>(storages.archetype(i)) ==> forall|
            k: int,
            id: ArchetypeId,
        | #[trigger]
            after.number_has(k, id) <==> before.number_has(k, id) || k == before.number_of(
                storages.archetype(i),
            ) && id == storages.archetype(i).id,
        !before.empty_query_state.matches::<D, Both<F, With>>(storages.archetype(i)) ==> after
            == before,
    ensures
        after.covers::<D, F>(storages, i + 1),
{
    assert forall|k: int, id: ArchetypeId| #[trigger] after.number_has(k, id) <==> (id.0 < i + 1
        && after.empty_query_state.matches::<D, Both<F, With>>(storages.archetype(id.0 as int))
        && after.number_of(storages.archetype(id.0 as int)) == k) by {
        assert(before.number_has(k, id) <==> (id.0 < i && before.empty_query_state.matches::<
            D,
            Both<F, With>,
        >(storages.archetype(id.0 as int)) && before.number_of(storages.archetype(id.0 as int))
            == k));
        assert(id.0 == i <==> id == storages.archetype(i).id);
    }
}

/// A query for a value matches exactly the entities that have the component with that value,
/// among those that the query without a value matches.
pub proof fn query_finds_entities_with_its_value<'w, 's, D: QueryData, F: QueryFilter>(
    state: QueryByIndexState<D::State, F::State>,
    queries: QueryByIndex<'w, 's, D, F>,
    query: UnsafeQuery<'w, 's, D, Both<F, With>>,
    value: u64,
    entity: Entity,
)
    requires
        state.wf(),
        queries.world.wf(),
        state.covers::<D, F>(
            *queries.world,
            queries.world.archetypes.archetypes@.len() as int,
        ),
        *queries.empty_query_state == state.empty_query_state,
        *queries.query_states == state.query_states,
        queries.index.markers == state.markers,
        queries.index.component == state.empty_query_state.filter_state.1,
        queries.index.holds(*queries.world),
        query.world == queries.world,
        *query.state == queries.state_of(value),
        query.ticks == queries.ticks,
    ensures
        query.wf(),
        query.found(entity) is Ok <==> {
            let component = queries.index.component;
            &&& queries.world.values(entity) is Some
            &&& queries.world.values(entity)->0.contains_key(component)
            &&& queries.world.values(entity)->0[component] == value
            &&& ({
                let (i, row) = queries.world.row_of(entity)->0;
                &&& state.empty_query_state.matches::<D, Both<F, With>>(
                    queries.world.archetype(i),
                )
                &&& query.keeps_at(i, row)
            })
        },
{
    let world = *queries.world;
    let index = *queries.index;
    let found = index.mapping@.contains_key(value) && index.mapping@[value]
        < queries.query_states@.len();
    let number = index.mapping@[value] as int;
    assert forall|id: ArchetypeId| #[trigger] query.state.has_matched(id) <==> (found
        && state.number_has(number, id)) by {
        if !found && query.state.has_matched(id) {
            assert(state.empty_query_state.matched_ids@.contains(id));
        }
    }
    if found {
        assert(state.query_states@[number].wf());
        assert(crate::index::query_by_index::same_query(
            state.query_states@[number],
            state.empty_query_state,
        ));
    }
    assert(query.wf()) by {
        assert forall|id: ArchetypeId| #[trigger] query.state.has_matched(id) implies id.0
            < world.archetypes.archetypes@.len() && D::matches(
            query.state.fetch_state,
            world.archetype(id.0 as int).components@,
        ) by {
            assert(state.number_has(number, id));
        }
    }
    if world.entities@.location_of(entity) is Some {
        world.live_entity_is_stored(entity);
        let location = world.entities@.location_of(entity)->0;
        let id = location.archetype_id;
        let i = id.0 as int;
        let row = location.table_row.0 as int;
        let values = crate::component::values_of(world.table(i).row(row));
        let matches = state.empty_query_state.matches::<D, Both<F, With>>(world.archetype(i));
        assert(world.values(entity) == Some(values));
        if matches {
            let components = world.archetype(i).components@;
            assert(components.contains(index.component));
            let c = choose|c: int| 0 <= c < components.len() && components[c] == index.component;
            assert(world.table(i).row(row)[c].id == index.component);
            assert(values.contains_key(index.component));
            let own = values[index.component];
            assert(index.mapping@.contains_key(own));
            assert(index.mapping@[own] == state.number_of(world.archetype(i)));
            assert(state.number_has(state.number_of(world.archetype(i)), id));
        }
        if query.state.has_matched(id) {
            assert(state.number_has(number, id));
        }
    }
}

} // verus!
