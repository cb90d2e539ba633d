//! What holds of queries as a whole.

use vstd::prelude::*;

use crate::entity::location::ArchetypeId;
use crate::entity::Entity;
use crate::component::ComponentId;
use crate::query::data::{
    Both, ComponentData, EntityData, NoFilter, Place, QueryData, QueryFilter, Ticks, With,
};
use crate::query::unsafe_query::{QueryEntityError, QueryLens, UnsafeQuery};
use crate::world::storages::Storages;

verus! {

broadcast use crate::entity::generation::group_generation;

/// Whether a row belongs to an archetype, is among the first ones and is kept.
pub open spec fn is_kept_row<D: QueryData, F: QueryFilter>(
    query: UnsafeQuery<D, F>,
    i: int,
    end: int,
    at: (int, int),
) -> bool {
    at.0 == i && 0 <= at.1 < end && query.keeps_at(at.0, at.1)
}

/// The rows of an archetype that are kept are those up to a number that the filter
/// keeps, each of them once.
proof fn kept_rows_are_kept<D: QueryData, F: QueryFilter>(
    query: UnsafeQuery<D, F>,
    i: int,
    end: int,
)
    ensures
        query.kept_rows(i, end).no_duplicates(),
        forall|at: (int, int)|
            query.kept_rows(i, end).contains(at) <==> #[trigger] is_kept_row(query, i, end, at),
    decreases end,
{
    if end > 0 {
        kept_rows_are_kept(query, i, end - 1);
        let before = query.kept_rows(i, end - 1);
        let rows = query.kept_rows(i, end);
        let last = (i, end - 1);
        assert(!is_kept_row(query, i, end - 1, last));
        assert forall|at: (int, int)| rows.contains(at) <==> #[trigger] is_kept_row(
            query,
            i,
            end,
            at,
        ) by {
            assert(before.contains(at) <==> is_kept_row(query, i, end - 1, at));
            if query.keeps_at(i, end - 1) {
                if at == last {
                    assert(rows[rows.len() - 1] == at);
                } else if before.contains(at) {
                    let k = choose|k: int| 0 <= k < before.len() && before[k] == at;
                    assert(rows[k] == at);
                } else if rows.contains(at) {
                    let k = choose|k: int| 0 <= k < rows.len() && rows[k] == at;
                    assert(before[k] == at);
                }
            }
        }
    }
}

/// Whether a row belongs to one of some archetypes and is kept.
pub open spec fn is_matched_row<D: QueryData, F: QueryFilter>(
    query: UnsafeQuery<D, F>,
    ids: Seq<ArchetypeId>,
    at: (int, int),
) -> bool {
    &&& 0 <= at.0 <= u32::MAX
    &&& ids.contains(ArchetypeId(at.0 as u32))
    &&& 0 <= at.1 < query.world.table(at.0).entities@.len()
    &&& query.keeps_at(at.0, at.1)
}

proof fn rows_are_matched<D: QueryData, F: QueryFilter>(
    query: UnsafeQuery<D, F>,
    ids: Seq<ArchetypeId>,
)
    requires
        forall|i: int, j: int| 0 <= i < j < ids.len() ==> (#[trigger] ids[i]) != (#[trigger] ids[j]),
    ensures
        query.rows_in(ids).no_duplicates(),
        forall|at: (int, int)|
            query.rows_in(ids).contains(at) <==> #[trigger] is_matched_row(query, ids, at),
    decreases ids.len(),
{
    if ids.len() > 0 {
        let rest = ids.drop_last();
        let i = ids.last().0 as int;
        let end = query.world.table(i).entities@.len() as int;
        let before = query.rows_in(rest);
        let last = query.kept_rows(i, end);
        let rows = query.rows_in(ids);
        rows_are_matched(query, rest);
        kept_rows_are_kept(query, i, end);
        assert forall|at: (int, int)| rows.contains(at) <==> #[trigger] is_matched_row(
            query,
            ids,
            at,
        ) by {
            assert(is_matched_row(query, rest, at) <==> before.contains(at));
            assert(last.contains(at) <==> is_kept_row(query, i, end, at));
            if rows.contains(at) {
                let k = choose|k: int| 0 <= k < rows.len() && rows[k] == at;
                if k < before.len() {
                    assert(before[k] == at);
                    let n = choose|n: int| 0 <= n < rest.len() && rest[n] == ArchetypeId(at.0 as u32);
                    assert(ids[n] == ArchetypeId(at.0 as u32));
                } else {
                    assert(last[k - before.len()] == at);
                    assert(ids[ids.len() - 1] == ArchetypeId(at.0 as u32));
                }
            }
            if is_matched_row(query, ids, at) {
                let n = choose|n: int| 0 <= n < ids.len() && ids[n] == ArchetypeId(at.0 as u32);
                if n < rest.len() {
                    assert(rest[n] == ArchetypeId(at.0 as u32));
                    let k = choose|k: int| 0 <= k < before.len() && before[k] == at;
                    assert(rows[k] == at);
                } else {
                    let k = choose|k: int| 0 <= k < last.len() && last[k] == at;
                    assert(rows[before.len() + k] == at);
                }
            }
        }
        assert forall|a: int, b: int|
            0 <= a < rows.len() && 0 <= b < rows.len() && a != b implies rows[a] != rows[b] by {
            if a < before.len() && b < before.len() {
                assert(before[a] != before[b]);
            } else if a >= before.len() && b >= before.len() {
                assert(last[a - before.len()] != last[b - before.len()]);
            } else {
                let (p, q) = if a < before.len() {
                    (a, b)
                } else {
                    (b, a)
                };
                assert(before.contains(before[p]));
                assert(is_matched_row(query, rest, before[p]));
                assert(last.contains(last[q - before.len()]));
                assert(is_kept_row(query, i, end, rows[q]));
                let n = choose|n: int|
                    0 <= n < rest.len() && rest[n] == ArchetypeId(before[p].0 as u32);
                assert(ids[n] != ids[ids.len() - 1]);
            }
        }
    }
}

/// A query lists every entity that it matches once and only once: an entity is listed
/// exactly if the query has something for it, and no entity is listed twice.
pub proof fn matched_entities_are_listed_once<'w, 's, D: QueryData, F: QueryFilter>(
    query: UnsafeQuery<'w, 's, D, F>,
)
    requires
        query.wf(),
    ensures
        query.entities().no_duplicates(),
        forall|entity: Entity|
            entity.wf() ==> (query.entities().contains(entity) <==> #[trigger] query.found(
                entity,
            ) is Ok),
{
    let ids = query.state.matched_ids@;
    let rows = query.rows();
    let entities = query.entities();
    let world = *query.world;
    rows_are_matched(query, ids);
    assert forall|a: int| 0 <= a < rows.len() implies {
        &&& world.has_row((#[trigger] rows[a]).0, rows[a].1)
        &&& query.state.has_matched(ArchetypeId(rows[a].0 as u32))
        &&& query.keeps_at(rows[a].0, rows[a].1)
    } by {
        assert(rows.contains(rows[a]));
        assert(is_matched_row(query, ids, rows[a]));
        let n = choose|n: int| 0 <= n < ids.len() && ids[n] == ArchetypeId(rows[a].0 as u32);
        assert(query.state.has_matched(ids[n]));
    }
    assert forall|a: int, b: int|
        0 <= a < entities.len() && 0 <= b < entities.len() && a != b implies entities[a]
        != entities[b] by {
        assert(rows[a] != rows[b]);
        world.stored_entity_is_live(rows[a].0, rows[a].1);
        world.stored_entity_is_live(rows[b].0, rows[b].1);
        if entities[a] == entities[b] {
            let one = crate::world::storages::location_at(rows[a].0, rows[a].1);
            let other = crate::world::storages::location_at(rows[b].0, rows[b].1);
            assert(one == other);
            assert(one.archetype_id.0 == rows[a].0 && one.table_row.0 == rows[a].1);
            assert(other.archetype_id.0 == rows[b].0 && other.table_row.0 == rows[b].1);
        }
    }
    assert forall|entity: Entity| entity.wf() implies (entities.contains(entity)
        <==> #[trigger] query.found(entity) is Ok) by {
        if entities.contains(entity) {
            let a = choose|a: int| 0 <= a < entities.len() && entities[a] == entity;
            world.stored_entity_is_live(rows[a].0, rows[a].1);
        }
        if query.found(entity) is Ok {
            world.live_entity_is_stored(entity);
            let location = world.entities@.location_of(entity)->0;
            let at = (location.archetype_id.0 as int, location.table_row.0 as int);
            assert(ids.contains(location.archetype_id));
            assert(is_matched_row(query, ids, at));
            let a = choose|a: int| 0 <= a < rows.len() && rows[a] == at;
            assert(entities[a] == entity);
        }
    }
}

/// No query matches more entities than there are indices with metadata.
pub proof fn matches_are_bounded<'w, 's, D: QueryData, F: QueryFilter>(
    query: UnsafeQuery<'w, 's, D, F>,
)
    requires
        query.wf(),
    ensures
        query.rows().len() <= query.world.entities@.meta.len(),
{
    let ids = query.state.matched_ids@;
    let rows = query.rows();
    let world = *query.world;
    let indices = query.entities().map_values(|entity: Entity| entity.index_spec() as int);
    matched_entities_are_listed_once(query);
    rows_are_matched(query, ids);
    assert forall|a: int| 0 <= a < rows.len() implies {
        let entity = #[trigger] query.entities()[a];
        &&& entity.index_spec() < world.entities@.meta.len()
        &&& world.entities@.meta[entity.index_spec() as int].generation
            == entity.generation_spec()
    } by {
        assert(rows.contains(rows[a]));
        assert(is_matched_row(query, ids, rows[a]));
        let n = choose|n: int| 0 <= n < ids.len() && ids[n] == ArchetypeId(rows[a].0 as u32);
        assert(query.state.has_matched(ids[n]));
        assert(world.has_row(rows[a].0, rows[a].1));
        world.stored_entity_is_live(rows[a].0, rows[a].1);
    }
    assert forall|a: int, b: int|
        0 <= a < indices.len() && 0 <= b < indices.len() && a != b implies indices[a]
        != indices[b] by {
        assert(query.entities()[a] != query.entities()[b]);
    }
    distinct_numbers_are_few(indices, world.entities@.meta.len() as int);
}

/// There are at most as many distinct natural numbers below a bound as the bound says.
pub proof fn distinct_numbers_are_few(numbers: Seq<int>, bound: int)
    requires
        numbers.no_duplicates(),
        forall|i: int| 0 <= i < numbers.len() ==> 0 <= #[trigger] numbers[i] < bound,
        0 <= bound,
    ensures
        numbers.len() <= bound,
{
    numbers.unique_seq_to_set();
    vstd::set_lib::lemma_int_range(0, bound);
    assert(numbers.to_set().subset_of(vstd::set_lib::set_int_range(0, bound))) by {
        assert forall|x: int| numbers.to_set().contains(
            x,
        ) implies vstd::set_lib::set_int_range(0, bound).contains(x) by {
            let i = choose|i: int| 0 <= i < numbers.len() && numbers[i] == x;
            assert(0 <= numbers[i] < bound);
        }
    }
    vstd::set_lib::lemma_len_subset(
        numbers.to_set(),
        vstd::set_lib::set_int_range(0, bound),
    );
}

/// What a query has for an entity is what its data and its filter say of the row in which the
/// entity stands. If the query does not have anything, it tells why.
pub proof fn query_looks_at_the_row_of_the_entity<'w, 's, D: QueryData, F: QueryFilter>(
    query: UnsafeQuery<'w, 's, D, F>,
    entity: Entity,
    place: Place<'w>,
)
    requires
        query.wf(),
        place.entity == entity,
        query.world.entities@.location_of(entity) matches Some(location) ==> {
            &&& place.row == location.table_row
            &&& *place.archetype
                == query.world.archetypes.archetypes@[location.archetype_id.0 as int]
            &&& *place.table == query.world.tables.tables@[location.archetype_id.0 as int]
        },
    ensures
        query.world.entities@.location_of(entity) is None ==> {
            &&& query.found(entity) is Err
            &&& query.found(entity)->Err_0 is EntityDoesNotExist
            &&& query.found(entity)->Err_0->EntityDoesNotExist_0.entity == entity
            &&& query.found(entity)->Err_0->EntityDoesNotExist_0.details.location
                == query.world.entities@.spawned_or_despawned_by(entity)
        },
        query.world.entities@.location_of(entity) matches Some(location) ==> {
            let id = location.archetype_id;
            let kept = F::keeps(
                query.state.filter_state,
                F::fetch_of(
                    query.state.filter_state,
                    *place.archetype,
                    *place.table,
                    query.ticks,
                ),
                place,
            );
            let item = D::item(
                query.state.fetch_state,
                D::fetch_of(query.state.fetch_state, *place.archetype, *place.table, query.ticks),
                place,
            );
            &&& query.state.matched_ids@.contains(id) && kept ==> query.found(entity) == Ok::<
                D::Item,
                QueryEntityError,
            >(item)
            &&& !(query.state.matched_ids@.contains(id) && kept) ==> query.found(entity) == Err::<
                D::Item,
                QueryEntityError,
            >(QueryEntityError::QueryDoesNotMatch(entity, id))
        },
{
    if query.world.entities@.location_of(entity) is Some {
        let location = query.world.entities@.location_of(entity)->0;
        let id = location.archetype_id;
        let i = id.0 as int;
        let row = location.table_row.0 as int;
        query.world.live_entity_is_stored(entity);
        assert(crate::query::unsafe_query::place_at(query.world, i, row) == place);
        if query.state.matched_ids@.contains(id) {
            let n = choose|n: int|
                0 <= n < query.state.matched_ids@.len() && query.state.matched_ids@[n] == id;
            assert(query.state.has_matched(query.state.matched_ids@[n]));
        }
    }
}

/// The values of an entity are those in its row: there is one for each component of its
/// archetype, and it is the one in the column of the component.
pub proof fn values_are_those_in_the_row(world: Storages, entity: Entity, id: ComponentId)
    requires
        world.wf(),
        world.entities@.location_of(entity) is Some,
    ensures
        world.values(entity) is Some,
        ({
            let location = world.entities@.location_of(entity)->0;
            let components =
                world.archetypes.archetypes@[location.archetype_id.0 as int].components@;
            let table = world.tables.tables@[location.archetype_id.0 as int];
            &&& world.values(entity)->0.contains_key(id) <==> components.contains(id)
            &&& forall|c: int|
                0 <= c < components.len() && (#[trigger] components[c]) == id ==> world.values(
                    entity,
                )->0[id] == table.columns@[c].values@[location.table_row.0 as int]
        }),
{
    let location = world.entities@.location_of(entity)->0;
    let i = location.archetype_id.0 as int;
    let row = location.table_row.0 as int;
    world.live_entity_is_stored(entity);
    let components = world.archetype(i).components@;
    let table = world.table(i);
    let stored = table.row(row);
    assert(crate::component::distinct_components(stored)) by {
        assert forall|a: int, b: int| 0 <= a < b < stored.len() implies (
        #[trigger] stored[a]).id != (#[trigger] stored[b]).id by {
            assert(stored[a].id == components[a]);
            assert(stored[b].id == components[b]);
            assert(components[a] != components[b]);
        }
    }
    assert forall|c: int| 0 <= c < components.len() && (#[trigger] components[c]) == id implies {
        &&& world.values(entity)->0.contains_key(id)
        &&& world.values(entity)->0[id] == table.columns@[c].values@[row]
    } by {
        assert(stored[c].id == id);
        crate::component::value_of_component(stored, c);
    }
    if components.contains(id) {
        let c = choose|c: int| 0 <= c < components.len() && components[c] == id;
        assert(components[c] == id);
    }
    if world.values(entity)->0.contains_key(id) {
        let c = crate::component::position_of(stored, id);
        assert(components[c] == id);
    }
}

/// A query for a component fetches the value that the entity has of the component.
pub proof fn component_query_fetches_the_value<'w, 's, F: QueryFilter>(
    query: UnsafeQuery<'w, 's, ComponentData, F>,
    entity: Entity,
)
    requires
        query.wf(),
        query.found(entity) is Ok,
    ensures
        query.world.values(entity) is Some,
        query.world.values(entity)->0.contains_key(query.state.fetch_state),
        query.found(entity)->Ok_0 == query.world.values(entity)->0[query.state.fetch_state],
{
    let world = *query.world;
    let id = query.state.fetch_state;
    let location = world.entities@.location_of(entity)->0;
    let i = location.archetype_id.0 as int;
    world.live_entity_is_stored(entity);
    values_are_those_in_the_row(world, entity, id);
    assert(query.state.has_matched(location.archetype_id));
    let components = world.archetype(i).components@;
    let c = choose|c: int| 0 <= c < components.len() && components[c] == id;
    let table = world.table(i);
    assert(table.is_column(c, id));
    table.first_column_exists(id, c);
    let first = table.first_column(id);
    assert(components[first] == id);
    assert(table.columns.len() == table.columns@.len());
    assert(first as usize == first);
}

/// A query for entities fetches the entity that is asked for.
pub proof fn entity_query_fetches_the_entity<'w, 's, F: QueryFilter>(
    query: UnsafeQuery<'w, 's, EntityData, F>,
    entity: Entity,
)
    requires
        query.wf(),
        query.found(entity) is Ok,
    ensures
        query.found(entity)->Ok_0 == entity,
{
    query.world.live_entity_is_stored(entity);
}

/// Going through a query gives, for every entity that it matches, what looking up that entity
/// gives, and nothing else.
pub proof fn items_are_those_of_the_entities<'w, 's, D: QueryData, F: QueryFilter>(
    query: UnsafeQuery<'w, 's, D, F>,
    k: int,
)
    requires
        query.wf(),
    ensures
        query.items().len() == query.entities().len(),
        0 <= k < query.items().len() ==> query.found(query.entities()[k]) == Ok::<
            D::Item,
            QueryEntityError,
        >(query.items()[k]),
        0 <= k < query.items().len() ==> query.item_number(k) == query.items()[k],
{
    let ids = query.state.matched_ids@;
    let rows = query.rows();
    rows_are_matched(query, ids);
    if 0 <= k < rows.len() {
        assert(rows.contains(rows[k]));
        assert(is_matched_row(query, ids, rows[k]));
        let n = choose|n: int| 0 <= n < ids.len() && ids[n] == ArchetypeId(rows[k].0 as u32);
        assert(query.state.has_matched(ids[n]));
        assert(query.world.has_row(rows[k].0, rows[k].1));
        query.world.stored_entity_is_live(rows[k].0, rows[k].1);
    }
}

/// Going through a query for a component gives the value of each entity that it matches.
pub proof fn component_items_are_values<'w, 's, F: QueryFilter>(
    query: UnsafeQuery<'w, 's, ComponentData, F>,
    k: int,
)
    requires
        query.wf(),
        0 <= k < query.items().len(),
    ensures
        query.items().len() == query.entities().len(),
        query.world.values(query.entities()[k]) is Some,
        query.world.values(query.entities()[k])->0.contains_key(query.state.fetch_state),
        query.items()[k] == query.world.values(query.entities()[k])->0[query.state.fetch_state],
{
    items_are_those_of_the_entities(query, k);
    component_query_fetches_the_value(query, query.entities()[k]);
}

/// Going through some entities and then through others is going through all of them: what is
/// fetched for one of them does not depend on the others.
pub proof fn listed_entities_are_fetched_in_order<'w, 's, D: QueryData, F: QueryFilter>(
    query: UnsafeQuery<'w, 's, D, F>,
    first: Seq<Entity>,
    second: Seq<Entity>,
)
    ensures
        query.found_many(first + second) == query.found_many(first) + query.found_many(second),
    decreases second.len(),
{
    let all = first + second;
    if second.len() == 0 {
        assert(all =~= first);
        assert(query.found_many(first) + query.found_many(second) =~= query.found_many(first));
    } else {
        assert(all.drop_last() =~= first + second.drop_last());
        assert(all.last() == second.last());
        listed_entities_are_fetched_in_order(query, first, second.drop_last());
        assert(query.found_many(all) =~= query.found_many(first) + query.found_many(second));
    }
}

/// Going through a single entity gives what looking it up gives, or nothing if the query does not
/// match it.
pub proof fn single_entity_is_fetched<'w, 's, D: QueryData, F: QueryFilter>(
    query: UnsafeQuery<'w, 's, D, F>,
    entity: Entity,
)
    ensures
        query.found_many(Seq::empty()) == Seq::<D::Item>::empty(),
        query.found(entity) matches Ok(item) ==> query.found_many(seq![entity]) == seq![item],
        query.found(entity) is Err ==> query.found_many(seq![entity]) == Seq::<D::Item>::empty(),
{
    assert(seq![entity].last() == entity);
    assert(seq![entity].drop_last() =~= Seq::<Entity>::empty());
    assert(query.found_many(seq![entity].drop_last()) =~= Seq::<D::Item>::empty());
    if query.found(entity) is Ok {
        assert(query.found_many(seq![entity]) =~= seq![query.found(entity)->Ok_0]);
    }
}

/// Going through entities that a query matches gives one item for each of them, in their order.
pub proof fn matched_list_is_fetched_whole<'w, 's, D: QueryData, F: QueryFilter>(
    query: UnsafeQuery<'w, 's, D, F>,
    entities: Seq<Entity>,
)
    requires
        forall|i: int| 0 <= i < entities.len() ==> query.found(#[trigger] entities[i]) is Ok,
    ensures
        query.found_many(entities).len() == entities.len(),
        forall|i: int|
            0 <= i < entities.len() ==> query.found(#[trigger] entities[i]) == Ok::<
                D::Item,
                QueryEntityError,
            >(query.found_many(entities)[i]),
    decreases entities.len(),
{
    if entities.len() > 0 {
        let rest = entities.drop_last();
        assert forall|i: int| 0 <= i < rest.len() implies query.found(#[trigger] rest[i]) is Ok by {
            assert(query.found(entities[i]) is Ok);
        }
        matched_list_is_fetched_whole(query, rest);
        assert(query.found(entities[entities.len() - 1]) is Ok);
        assert forall|i: int| 0 <= i < entities.len() implies query.found(#[trigger] entities[i])
            == Ok::<D::Item, QueryEntityError>(query.found_many(entities)[i]) by {
            if i < rest.len() {
                assert(rest[i] == entities[i]);
            }
        }
    }
}

/// Every way to choose some of the items of a query, in their order, is among the combinations,
/// at one place only.
pub proof fn every_choice_is_a_combination(n: nat, k: nat, chosen: Seq<int>)
    requires
        chosen.len() == k,
        forall|i: int| 0 <= i < k ==> 0 <= #[trigger] chosen[i] < n,
        forall|i: int, j: int| 0 <= i < j < k ==> #[trigger] chosen[i] < #[trigger] chosen[j],
    ensures
        exists|c: int|
            0 <= c < crate::query::combinations::combinations(n, k).len()
                && #[trigger] crate::query::combinations::combinations(n, k)[c] == chosen,
        forall|c: int, d: int|
            0 <= c < crate::query::combinations::combinations(n, k).len() && 0 <= d
                < crate::query::combinations::combinations(n, k).len()
                && #[trigger] crate::query::combinations::combinations(n, k)[c] == chosen
                && #[trigger] crate::query::combinations::combinations(n, k)[d] == chosen ==> c
                == d,
{
    let all = crate::query::combinations::combinations(n, k);
    crate::query::combinations::combinations_are_choices(n, k);
    assert(crate::query::combinations::is_choice(chosen, n, k));
    assert(all.contains(chosen));
}

/// Every combination is a way to choose some of the items, in their order.
pub proof fn every_combination_is_a_choice(n: nat, k: nat, c: int)
    requires
        0 <= c < crate::query::combinations::combinations(n, k).len(),
    ensures
        ({
            let chosen = crate::query::combinations::combinations(n, k)[c];
            &&& chosen.len() == k
            &&& forall|i: int| 0 <= i < k ==> 0 <= #[trigger] chosen[i] < n
            &&& forall|i: int, j: int| 0 <= i < j < k ==> #[trigger] chosen[i]
                < #[trigger] chosen[j]
        }),
{
    let all = crate::query::combinations::combinations(n, k);
    crate::query::combinations::combinations_are_choices(n, k);
    assert(all.contains(all[c]));
    assert(crate::query::combinations::is_choice(all[c], n, k));
}

/// A query for a component, once it has looked at all archetypes, matches exactly the entities that
/// have the component, and fetches its value.
pub proof fn component_query_finds_its_entities<'w, 's>(
    query: UnsafeQuery<'w, 's, ComponentData, NoFilter>,
    entity: Entity,
)
    requires
        query.wf(),
        forall|id: ArchetypeId| #[trigger]
            query.state.has_matched(id) <==> id.0 < query.world.archetypes.archetypes@.len()
                && query.state.matches::<ComponentData, NoFilter>(
                query.world.archetypes.archetypes@[id.0 as int],
            ),
        forall|components: Seq<ComponentId>| #[trigger]
            components.contains(query.state.fetch_state)
                ==> query.state.component_access.admits(components),
    ensures
        query.found(entity) is Ok <==> query.world.values(entity) is Some && query.world.values(
            entity,
        )->0.contains_key(query.state.fetch_state),
        query.found(entity) matches Ok(value) ==> value == query.world.values(
            entity,
        )->0[query.state.fetch_state],
{
    let world = *query.world;
    let id = query.state.fetch_state;
    if query.found(entity) is Ok {
        component_query_fetches_the_value(query, entity);
    }
    if world.entities@.location_of(entity) is Some {
        world.live_entity_is_stored(entity);
        values_are_those_in_the_row(world, entity, id);
        let at = world.entities@.location_of(entity)->0.archetype_id;
        assert(query.state.has_matched(at) <==> query.state.matches::<ComponentData, NoFilter>(
            world.archetype(at.0 as int),
        ));
    }
}

/// A query that is filtered by a component, once it has looked at all archetypes, matches exactly
/// the entities that have the component.
pub proof fn filtered_query_finds_its_entities<'w, 's>(
    query: UnsafeQuery<'w, 's, EntityData, With>,
    entity: Entity,
)
    requires
        query.wf(),
        forall|id: ArchetypeId| #[trigger]
            query.state.has_matched(id) <==> id.0 < query.world.archetypes.archetypes@.len()
                && query.state.matches::<EntityData, With>(
                query.world.archetypes.archetypes@[id.0 as int],
            ),
        forall|components: Seq<ComponentId>| #[trigger]
            components.contains(query.state.filter_state)
                ==> query.state.component_access.admits(components),
    ensures
        query.found(entity) == Ok::<Entity, QueryEntityError>(entity) <==> query.world.values(
            entity,
        ) is Some && query.world.values(entity)->0.contains_key(query.state.filter_state),
        query.found(entity) is Ok ==> query.found(entity)->Ok_0 == entity,
{
    let world = *query.world;
    let id = query.state.filter_state;
    if query.found(entity) is Ok {
        entity_query_fetches_the_entity(query, entity);
    }
    if world.entities@.location_of(entity) is Some {
        world.live_entity_is_stored(entity);
        values_are_those_in_the_row(world, entity, id);
        let at = world.entities@.location_of(entity)->0.archetype_id;
        assert(query.state.has_matched(at) <==> query.state.matches::<EntityData, With>(
            world.archetype(at.0 as int),
        ));
    }
}

/// Two filters together let pass what both of them let pass.
pub proof fn both_filters_have_to_agree<F: QueryFilter, G: QueryFilter>(
    state: (F::State, G::State),
    components: Seq<ComponentId>,
    place: Place,
    ticks: Ticks,
)
    ensures
        Both::<F, G>::matches(state, components) <==> F::matches(state.0, components)
            && G::matches(state.1, components),
        Both::<F, G>::keeps(
            state,
            Both::<F, G>::fetch_of(state, *place.archetype, *place.table, ticks),
            place,
        ) <==> F::keeps(
            state.0,
            F::fetch_of(state.0, *place.archetype, *place.table, ticks),
            place,
        ) && G::keeps(
            state.1,
            G::fetch_of(state.1, *place.archetype, *place.table, ticks),
            place,
        ),
{
}

/// A query made from two others matches the entities of the archetypes that both of them match, as
/// far as its own filter keeps them.
pub proof fn joined_query_finds_common_entities<
    'w,
    D: QueryData,
    F: QueryFilter,
    E: QueryData,
    G: QueryFilter,
    N: QueryData,
    M: QueryFilter,
>(
    one: UnsafeQuery<'w, '_, D, F>,
    other: UnsafeQuery<'w, '_, E, G>,
    lens: QueryLens<'w, N, M>,
    query: UnsafeQuery<'w, '_, N, M>,
    entity: Entity,
)
    requires
        one.wf(),
        other.wf(),
        lens.wf(),
        query.wf(),
        other.world == one.world,
        lens.world == one.world,
        query.world == lens.world,
        *query.state == lens.state,
        lens.state.matched_ids@ == one.state.matched_ids@.filter(
            |id: ArchetypeId| other.state.has_matched(id),
        ),
    ensures
        query.found(entity) is Ok <==> {
            &&& one.world.entities@.location_of(entity) is Some
            &&& ({
                let location = one.world.entities@.location_of(entity)->0;
                &&& one.state.matched_ids@.contains(location.archetype_id)
                &&& other.state.matched_ids@.contains(location.archetype_id)
                &&& query.keeps_at(
                    location.archetype_id.0 as int,
                    location.table_row.0 as int,
                )
            })
        },
{
    if one.world.entities@.location_of(entity) is Some {
        let id = one.world.entities@.location_of(entity)->0.archetype_id;
        let shared = |id: ArchetypeId| other.state.has_matched(id);
        let ids = one.state.matched_ids@;
        filtered_ids(ids, shared, id);
        listed_is_matched(one.state, id);
        listed_is_matched(other.state, id);
        listed_is_matched(&lens.state, id);
    }
}

proof fn listed_is_matched<S, T>(state: &crate::query::state::QueryState<S, T>, id: ArchetypeId)
    requires
        state.wf(),
    ensures
        state.matched_ids@.contains(id) <==> state.has_matched(id),
{
    if state.matched_ids@.contains(id) {
        let n = choose|n: int| 0 <= n < state.matched_ids@.len() && state.matched_ids@[n] == id;
        assert(state.has_matched(state.matched_ids@[n]));
    }
}

proof fn filtered_ids(ids: Seq<ArchetypeId>, kept: spec_fn(ArchetypeId) -> bool, id: ArchetypeId)
    ensures
        ids.filter(kept).contains(id) <==> ids.contains(id) && kept(id),
    decreases ids.len(),
{
    reveal(Seq::filter);
    let filtered = ids.filter(kept);
    if ids.len() > 0 {
        let rest = ids.drop_last();
        let before = rest.filter(kept);
        filtered_ids(rest, kept, id);
        if ids.contains(id) {
            let i = choose|i: int| 0 <= i < ids.len() && ids[i] == id;
            if i < rest.len() {
                assert(rest[i] == id);
            }
        }
        if rest.contains(id) {
            let i = choose|i: int| 0 <= i < rest.len() && rest[i] == id;
            assert(ids[i] == id);
        }
        if before.contains(id) {
            let i = choose|i: int| 0 <= i < before.len() && before[i] == id;
            assert(filtered[i] == id);
        }
        if kept(ids.last()) {
            assert(filtered[filtered.len() - 1] == ids.last());
            assert(ids[ids.len() - 1] == ids.last());
            if filtered.contains(id) {
                let i = choose|i: int| 0 <= i < filtered.len() && filtered[i] == id;
                if i < before.len() {
                    assert(before[i] == id);
                }
            }
        }
    }
}

/// A query goes through its archetypes in the order in which they were found to match, and through
/// each of them from the first row to the last.
pub proof fn rows_come_in_order<'w, 's, D: QueryData, F: QueryFilter>(
    query: UnsafeQuery<'w, 's, D, F>,
    a: int,
    b: int,
)
    requires
        0 <= a < b < query.rows().len(),
    ensures
        query.entities().len() == query.rows().len(),
        query.entities()[a] == query.world.tables.tables@[query.rows()[a].0].entities@[
            query.rows()[a].1
        ],
        exists|n: int, m: int|
            {
                &&& 0 <= n <= m < query.state.matched_ids@.len()
                &&& (#[trigger] query.state.matched_ids@[n]).0 == query.rows()[a].0
                &&& (#[trigger] query.state.matched_ids@[m]).0 == query.rows()[b].0
                &&& n == m ==> query.rows()[a].1 < query.rows()[b].1
            },
{
    rows_of_archetypes_in_order(query, query.state.matched_ids@, a, b);
}

proof fn rows_of_archetypes_in_order<D: QueryData, F: QueryFilter>(
    query: UnsafeQuery<D, F>,
    ids: Seq<ArchetypeId>,
    a: int,
    b: int,
)
    requires
        0 <= a < b < query.rows_in(ids).len(),
    ensures
        exists|n: int, m: int|
            {
                &&& 0 <= n <= m < ids.len()
                &&& (#[trigger] ids[n]).0 == query.rows_in(ids)[a].0
                &&& (#[trigger] ids[m]).0 == query.rows_in(ids)[b].0
                &&& n == m ==> query.rows_in(ids)[a].1 < query.rows_in(ids)[b].1
            },
    decreases ids.len(),
{
    let rest = ids.drop_last();
    let before = query.rows_in(rest);
    let i = ids.last().0 as int;
    let end = query.world.table(i).entities@.len() as int;
    let last = ids.len() - 1;
    if b < before.len() {
        rows_of_archetypes_in_order(query, rest, a, b);
        let (n, m) = choose|n: int, m: int|
            {
                &&& 0 <= n <= m < rest.len()
                &&& (#[trigger] rest[n]).0 == before[a].0
                &&& (#[trigger] rest[m]).0 == before[b].0
                &&& n == m ==> before[a].1 < before[b].1
            };
        assert(ids[n] == rest[n] && ids[m] == rest[m]);
    } else {
        kept_row_in_order(query, i, end, b - before.len(), b - before.len());
        assert(ids[last].0 == query.rows_in(ids)[b].0);
        if a < before.len() {
            row_of_an_archetype(query, rest, a);
            let n = choose|n: int| 0 <= n < rest.len() && (#[trigger] rest[n]).0 == before[a].0;
            assert(ids[n] == rest[n]);
        } else {
            kept_row_in_order(query, i, end, a - before.len(), b - before.len());
            assert(ids[last].0 == query.rows_in(ids)[a].0);
        }
    }
}

proof fn row_of_an_archetype<D: QueryData, F: QueryFilter>(
    query: UnsafeQuery<D, F>,
    ids: Seq<ArchetypeId>,
    a: int,
)
    requires
        0 <= a < query.rows_in(ids).len(),
    ensures
        exists|n: int|
            0 <= n < ids.len() && (#[trigger] ids[n]).0 == query.rows_in(ids)[a].0,
    decreases ids.len(),
{
    let rest = ids.drop_last();
    let before = query.rows_in(rest);
    let i = ids.last().0 as int;
    if a < before.len() {
        row_of_an_archetype(query, rest, a);
        let n = choose|n: int| 0 <= n < rest.len() && (#[trigger] rest[n]).0 == before[a].0;
        assert(ids[n] == rest[n]);
    } else {
        let end = query.world.table(i).entities@.len() as int;
        kept_row_in_order(query, i, end, a - before.len(), a - before.len());
        assert(ids[ids.len() - 1].0 == query.rows_in(ids)[a].0);
    }
}

proof fn kept_row_in_order<D: QueryData, F: QueryFilter>(
    query: UnsafeQuery<D, F>,
    i: int,
    end: int,
    a: int,
    b: int,
)
    requires
        0 <= a <= b < query.kept_rows(i, end).len(),
    ensures
        query.kept_rows(i, end)[a].0 == i,
        query.kept_rows(i, end)[b].0 == i,
        query.kept_rows(i, end)[b].1 < end,
        a < b ==> query.kept_rows(i, end)[a].1 < query.kept_rows(i, end)[b].1,
    decreases end,
{
    if end > 0 {
        let before = query.kept_rows(i, end - 1);
        if b < before.len() {
            kept_row_in_order(query, i, end - 1, a, b);
        } else if a < before.len() {
            kept_row_in_order(query, i, end - 1, a, a);
        }
    }
}

/// An archetype matches a query exactly if it has what the data fetches, the filter lets it pass,
/// and it has the components that the access of the query demands.
pub proof fn archetype_has_to_suit_the_query<D: QueryData, F: QueryFilter>(
    state: crate::query::state::QueryState<D::State, F::State>,
    archetype: crate::archetype::Archetype,
)
    ensures
        state.matches::<D, F>(archetype) <==> {
            &&& D::matches(state.fetch_state, archetype.components@)
            &&& F::matches(state.filter_state, archetype.components@)
            &&& exists|i: int|
                0 <= i < state.component_access.filter_sets@.len() && (
                #[trigger] state.component_access.filter_sets@[i]).admits(archetype.components@)
        },
{
}

/// An archetype has been found to match exactly if it is listed, and no archetype is listed twice.
pub proof fn matched_archetypes_are_listed<S, T>(
    state: crate::query::state::QueryState<S, T>,
    id: ArchetypeId,
    i: int,
    j: int,
)
    requires
        state.wf(),
    ensures
        state.has_matched(id) <==> exists|n: int|
            0 <= n < state.matched_ids@.len() && state.matched_ids@[n] == id,
        0 <= i < j < state.matched_ids@.len() ==> state.matched_ids@[i] != state.matched_ids@[j],
{
    if exists|n: int| 0 <= n < state.matched_ids@.len() && state.matched_ids@[n] == id {
        let n = choose|n: int| 0 <= n < state.matched_ids@.len() && state.matched_ids@[n] == id;
        assert(state.has_matched(state.matched_ids@[n]));
    }
    if state.has_matched(id) {
        assert(state.matched_ids@.contains(id));
    }
}

/// A query that fetches nothing matches what the query that it was made from matches.
pub proof fn query_for_nothing_matches_the_same<D: QueryData>(
    state: D::State,
    components: Seq<ComponentId>,
)
    ensures
        crate::query::data::NopWorldQuery::<D>::matches(state, components) <==> D::matches(
            state,
            components,
        ),
{
}

/// A query without a filter keeps every entity, a filter by a component keeps the entities that
/// have it, and data that is the entity itself is there for every entity.
pub proof fn plain_filters_look_at_components(
    id: ComponentId,
    components: Seq<ComponentId>,
    place: Place,
)
    ensures
        NoFilter::matches((), components),
        NoFilter::keeps((), (), place),
        EntityData::matches((), components),
        With::matches(id, components) <==> exists|i: int|
            0 <= i < components.len() && components[i] == id,
        With::keeps(id, (), place),
        ComponentData::matches(id, components) <==> exists|i: int|
            0 <= i < components.len() && components[i] == id,
{
}

} // verus!
