//! Queries that promise nothing about who else accesses what they match.

use vstd::prelude::*;

use crate::entity::entities::EntityDoesNotExistError;
use crate::entity::location::{ArchetypeId, TableRow};
use crate::entity::Entity;
use crate::query::data::{NopWorldQuery, Place, QueryData, QueryFilter, ReadOnlyVersion, Ticks};
use crate::query::state::QueryState;
use crate::world::storages::Storages;

verus! {

/// Why a query has nothing for an entity.
#[derive(Clone, Copy, Debug)]
pub enum QueryEntityError {
    /// The entity does not exist.
    EntityDoesNotExist(EntityDoesNotExistError),
    /// The query does not match the entity, which belongs to the given archetype.
    QueryDoesNotMatch(Entity, ArchetypeId),
}

/// A query that promises nothing about who else accesses what it matches.
pub struct UnsafeQuery<'w, 's, D: QueryData, F: QueryFilter> {
    /// What is stored in the world.
    pub world: &'w Storages,
    /// The state of the query.
    pub state: &'s QueryState<D::State, F::State>,
    /// The last run and this run.
    pub ticks: Ticks,
}

/// A query with access to all that it matches.
pub struct Query<'w, 's, D: QueryData, F: QueryFilter> {
    /// The query that promises nothing.
    pub inner: UnsafeQuery<'w, 's, D, F>,
}

impl<'w, 's, D: QueryData, F: QueryFilter> Query<'w, 's, D, F> {
    /// Returns a query for the same entities that promises nothing.
    pub fn as_unsafe_query(&self) -> (query: UnsafeQuery<'w, 's, D, F>)
        ensures
            query == self.inner,
    {
        self.inner
    }

    /// Turns the query into one that promises nothing.
    pub fn into_unsafe_query(self) -> (query: UnsafeQuery<'w, 's, D, F>)
        ensures
            query == self.inner,
    {
        self.inner
    }
}

/// A query with a state of its own, which fetches less than another one.
pub struct QueryLens<'w, D: QueryData, F: QueryFilter> {
    /// What is stored in the world.
    pub world: &'w Storages,
    /// The state of the query.
    pub state: QueryState<D::State, F::State>,
    /// The last run and this run.
    pub ticks: Ticks,
}

/// The place of a row of an archetype.
pub open spec fn place_at<'w>(world: &'w Storages, i: int, row: int) -> Place<'w> {
    Place {
        archetype: &world.archetype(i),
        table: &world.table(i),
        entity: world.table(i).entities@[row],
        row: TableRow(row as u32),
    }
}

impl<'w, 's, D: QueryData, F: QueryFilter> Clone for UnsafeQuery<'w, 's, D, F> {
    fn clone(&self) -> (query: Self)
        ensures
            query == *self,
    {
        UnsafeQuery { world: self.world, state: self.state, ticks: self.ticks }
    }
}

impl<'w, 's, D: QueryData, F: QueryFilter> Copy for UnsafeQuery<'w, 's, D, F> {

}

impl<'w, 's, D: QueryData, F: QueryFilter> UnsafeQuery<'w, 's, D, F> {
    /// Whether the state of the query was made for the world.
    pub open(crate) spec fn wf(self) -> bool {
        &&& self.world.wf()
        &&& self.state.wf()
        &&& self.state.belongs::<D>(*self.world)
    }

    /// Whether the filter keeps the entity in a row of an archetype.
    pub open spec fn keeps_at(self, i: int, row: int) -> bool {
        F::keeps(
            self.state.filter_state,
            F::fetch_of(
                self.state.filter_state,
                self.world.archetype(i),
                self.world.table(i),
                self.ticks,
            ),
            place_at(self.world, i, row),
        )
    }

    /// What is fetched for the entity in a row of an archetype.
    pub open spec fn item_at(self, i: int, row: int) -> D::Item {
        D::item(
            self.state.fetch_state,
            D::fetch_of(
                self.state.fetch_state,
                self.world.archetype(i),
                self.world.table(i),
                self.ticks,
            ),
            place_at(self.world, i, row),
        )
    }

    /// What the query has for an entity.
    pub open(crate) spec fn found(self, entity: Entity) -> Result<D::Item, QueryEntityError> {
        match self.world.entities@.location_of(entity) {
            None => Err(
                QueryEntityError::EntityDoesNotExist(
                    EntityDoesNotExistError {
                        entity,
                        details: crate::entity::entities::EntityDoesNotExistDetails {
                            location: self.world.entities@.spawned_or_despawned_by(entity),
                        },
                    },
                ),
            ),
            Some(location) => {
                let i = location.archetype_id.0 as int;
                let row = location.table_row.0 as int;
                if self.state.has_matched(location.archetype_id) && self.keeps_at(i, row) {
                    Ok(self.item_at(i, row))
                } else {
                    Err(QueryEntityError::QueryDoesNotMatch(entity, location.archetype_id))
                }
            },
        }
    }

    /// The rows of an archetype, up to a number, that the filter keeps.
    pub open spec fn kept_rows(self, i: int, end: int) -> Seq<(int, int)>
        decreases end,
    {
        if end <= 0 {
            Seq::empty()
        } else if self.keeps_at(i, end - 1) {
            self.kept_rows(i, end - 1).push((i, end - 1))
        } else {
            self.kept_rows(i, end - 1)
        }
    }

    /// The rows of some archetypes that the filter keeps, the archetypes in turn.
    pub open spec fn rows_in(self, ids: Seq<ArchetypeId>) -> Seq<(int, int)>
        decreases ids.len(),
    {
        if ids.len() == 0 {
            Seq::empty()
        } else {
            self.rows_in(ids.drop_last()) + self.kept_rows(
                ids.last().0 as int,
                self.world.table(ids.last().0 as int).entities@.len() as int,
            )
        }
    }

    /// The rows that the query matches.
    pub open spec fn rows(self) -> Seq<(int, int)> {
        self.rows_in(self.state.matched_ids@)
    }

    /// The entities that the query matches.
    pub open spec fn entities(self) -> Seq<Entity> {
        self.rows().map_values(|at: (int, int)| self.world.table(at.0).entities@[at.1])
    }

    /// What is fetched for the entities that the query matches.
    pub open spec fn items(self) -> Seq<D::Item> {
        self.rows().map_values(|at: (int, int)| self.item_at(at.0, at.1))
    }

    /// Creates a query. The state has to have been made for the world.
    pub fn new(
        world: &'w Storages,
        state: &'s QueryState<D::State, F::State>,
        ticks: Ticks,
    ) -> (query: Self)
        ensures
            query.world == world,
            query.state == state,
            query.ticks == ticks,
    {
        UnsafeQuery { world, state, ticks }
    }

    /// Makes a query with access to all that it matches from this one.
    pub fn query(&self) -> (query: Query<'w, 's, D, F>)
        ensures
            query.inner == *self,
    {
        Query { inner: *self }
    }

    /// Returns a query for the same entities that fetches nothing.
    pub fn as_nop(&self) -> (query: UnsafeQuery<'w, 's, NopWorldQuery<D>, F>)
        requires
            self.wf(),
        ensures
            query.wf(),
            query.world == self.world,
            query.state == self.state,
            query.ticks == self.ticks,
            query.rows() == self.rows(),
    {
        let query = UnsafeQuery::<NopWorldQuery<D>, F>::new(self.world, self.state, self.ticks);
        proof {
            same_rows(*self, query, self.state.matched_ids@);
        }
        query
    }

    /// Returns a query for the same entities that fetches the same without the right to
    /// write it.
    pub fn as_readonly<R: ReadOnlyVersion<D>>(&self) -> (query: UnsafeQuery<'w, 's, R, F>)
        requires
            self.wf(),
        ensures
            query.wf(),
            query.world == self.world,
            query.state == self.state,
            query.ticks == self.ticks,
            query.rows() == self.rows(),
    {
        let query = UnsafeQuery::<R, F>::new(self.world, self.state, self.ticks);
        proof {
            assert forall|id: ArchetypeId| #[trigger] self.state.has_matched(id) implies R::matches(
                self.state.fetch_state,
                self.world.archetype(id.0 as int).components@,
            ) by {
                R::matches_the_same(
                    self.state.fetch_state,
                    self.world.archetype(id.0 as int).components@,
                );
            }
            same_rows(*self, query, self.state.matched_ids@);
        }
        query
    }

    /// Returns what is fetched for an entity, or why there is nothing.
    pub fn get(&self, entity: Entity) -> (item: Result<D::Item, QueryEntityError>)
        requires
            self.wf(),
        ensures
            item == self.found(entity),
    {
        let location = match self.world.entities.get(entity) {
            Some(location) => location,
            None => {
                return Err(
                    QueryEntityError::EntityDoesNotExist(
                        EntityDoesNotExistError::new(entity, &self.world.entities),
                    ),
                );
            },
        };
        if !self.state.contains_archetype(location.archetype_id) {
            return Err(QueryEntityError::QueryDoesNotMatch(entity, location.archetype_id));
        }
        proof {
            self.world.live_entity_is_stored(entity);
        }
        let archetype = &self.world.archetypes.archetypes[location.archetype_id.index()];
        let table = &self.world.tables.tables[location.table_id.0 as usize];
        let fetch = D::set_archetype(&self.state.fetch_state, archetype, table, self.ticks);
        let filter = F::set_archetype(&self.state.filter_state, archetype, table, self.ticks);
        let place = Place { archetype, table, entity, row: location.table_row };
        assert(place == place_at(
            self.world,
            location.archetype_id.0 as int,
            location.table_row.0 as int,
        ));
        if F::filter_fetch(&self.state.filter_state, &filter, place, self.ticks) {
            Ok(D::fetch(&self.state.fetch_state, &fetch, place, self.ticks))
        } else {
            Err(QueryEntityError::QueryDoesNotMatch(entity, location.archetype_id))
        }
    }

    /// Returns whether the query matches an entity.
    pub fn contains(&self, entity: Entity) -> (contains: bool)
        requires
            self.wf(),
        ensures
            contains == (self.found(entity) is Ok),
    {
        let nop = self.as_nop();
        assert(nop.found(entity) is Ok == self.found(entity) is Ok);
        nop.get(entity).is_ok()
    }

    /// Returns what is fetched for all entities that the query matches, each of them
    /// once.
    pub fn iter(&self) -> (items: Vec<D::Item>)
        requires
            self.wf(),
        ensures
            items@ == self.items(),
    {
        let mut items: Vec<D::Item> = Vec::new();
        let mut n: usize = 0;
        let ghost item = |at: (int, int)| self.item_at(at.0, at.1);
        let ids = &self.state.matched_ids;
        assert(self.rows_in(ids@.take(0)).map_values(item) =~= Seq::empty());
        while n < ids.len()
            invariant
                self.wf(),
                n <= ids@.len(),
                *ids == self.state.matched_ids,
                item == |at: (int, int)| self.item_at(at.0, at.1),
                items@ == self.rows_in(ids@.take(n as int)).map_values(item),
            decreases ids@.len() - n,
        {
            let id = ids[n];
            let mut found = self.iter_archetype(id);
            proof {
                let before = self.rows_in(ids@.take(n as int));
                let rows = self.kept_rows(
                    id.0 as int,
                    self.world.table(id.0 as int).entities@.len() as int,
                );
                assert(ids@.take(n + 1).drop_last() =~= ids@.take(n as int));
                assert((before + rows).map_values(item) =~= before.map_values(item)
                    + rows.map_values(item));
            }
            items.append(&mut found);
            n = n + 1;
        }
        assert(ids@.take(n as int) =~= ids@);
        items
    }

    /// Returns what is fetched for all entities of an archetype that the filter keeps.
    fn iter_archetype(&self, id: ArchetypeId) -> (items: Vec<D::Item>)
        requires
            self.wf(),
            self.state.matched_ids@.contains(id),
        ensures
            items@ == self.kept_rows(
                id.0 as int,
                self.world.table(id.0 as int).entities@.len() as int,
            ).map_values(|at: (int, int)| self.item_at(at.0, at.1)),
    {
        proof {
            assert(self.state.has_matched(id));
        }
        let ghost i = id.0 as int;
        let ghost item = |at: (int, int)| self.item_at(at.0, at.1);
        let archetype = &self.world.archetypes.archetypes[id.index()];
        let table = &self.world.tables.tables[id.index()];
        assert(*archetype == self.world.archetype(i));
        assert(*table == self.world.table(i));
        let fetch = D::set_archetype(&self.state.fetch_state, archetype, table, self.ticks);
        let filter = F::set_archetype(&self.state.filter_state, archetype, table, self.ticks);
        let mut items: Vec<D::Item> = Vec::new();
        let mut row: usize = 0;
        assert(self.kept_rows(i, 0).map_values(item) =~= Seq::empty());
        while row < table.entities.len()
            invariant
                self.wf(),
                D::matches(self.state.fetch_state, self.world.archetype(i).components@),
                0 <= i < self.world.tables.tables@.len(),
                *archetype == self.world.archetype(i),
                *table == self.world.table(i),
                fetch == D::fetch_of(self.state.fetch_state, *archetype, *table, self.ticks),
                filter == F::fetch_of(self.state.filter_state, *archetype, *table, self.ticks),
                item == |at: (int, int)| self.item_at(at.0, at.1),
                row <= table.entities@.len(),
                items@ == self.kept_rows(i, row as int).map_values(item),
            decreases table.entities@.len() - row,
        {
            let place = Place {
                archetype,
                table,
                entity: table.entities[row],
                row: TableRow(row as u32),
            };
            assert(place == place_at(self.world, i, row as int));
            let ghost before = self.kept_rows(i, row as int);
            if F::filter_fetch(&self.state.filter_state, &filter, place, self.ticks) {
                items.push(D::fetch(&self.state.fetch_state, &fetch, place, self.ticks));
                assert(before.push((i, row as int)).map_values(item) =~= before.map_values(
                    item,
                ).push(self.item_at(i, row as int)));
            }
            row = row + 1;
        }
        items
    }

    /// Returns whether the query matches no entity.
    pub fn is_empty(&self) -> (empty: bool)
        requires
            self.wf(),
        ensures
            empty == (self.items().len() == 0),
    {
        let nop = self.as_nop();
        nop.iter().len() == 0
    }

    /// Returns the number of entities that the query matches. If the filter keeps all
    /// entities with the right components, no entity is looked at.
    pub fn count(&self) -> (count: usize)
        requires
            self.wf(),
        ensures
            count == self.items().len(),
    {
        proof {
            crate::query::laws::matches_are_bounded(*self);
            assert(self.world.entities.meta.len() == self.world.entities@.meta.len());
        }
        if F::is_archetypal() {
            let mut count: usize = 0;
            let mut n: usize = 0;
            let ids = &self.state.matched_ids;
            while n < ids.len()
                invariant
                    self.wf(),
                    keeps_all_rows::<F>(),
                    self.items().len() <= usize::MAX,
                    n <= ids@.len(),
                    *ids == self.state.matched_ids,
                    count == self.rows_in(ids@.take(n as int)).len(),
                decreases ids@.len() - n,
            {
                let id = ids[n];
                proof {
                    assert(self.state.has_matched(id));
                    assert(ids@.take(n + 1).drop_last() =~= ids@.take(n as int));
                    all_rows_are_kept(
                        *self,
                        id,
                        self.world.table(id.0 as int).entities@.len() as int,
                    );
                    prefix_has_fewer_rows(*self, ids@, n + 1);
                }
                count = count + self.world.tables.tables[id.index()].entities.len();
                n = n + 1;
            }
            assert(ids@.take(n as int) =~= ids@);
            count
        } else {
            self.as_nop().iter().len()
        }
    }
}

/// Whether a filter sorts out no entity by its row.
pub open spec fn keeps_all_rows<F: QueryFilter>() -> bool {
    forall|state: F::State, place: Place, ticks: Ticks|
        place.wf() ==> #[trigger] F::keeps(
            state,
            F::fetch_of(state, *place.archetype, *place.table, ticks),
            place,
        )
}

/// A query that fetches other data for the same state matches the same rows.
proof fn same_rows<D: QueryData, E: QueryData<State = D::State>, F: QueryFilter>(
    query: UnsafeQuery<D, F>,
    other: UnsafeQuery<E, F>,
    ids: Seq<ArchetypeId>,
)
    requires
        other.world == query.world,
        other.state == query.state,
        other.ticks == query.ticks,
    ensures
        other.rows_in(ids) == query.rows_in(ids),
    decreases ids.len(),
{
    if ids.len() > 0 {
        same_rows(query, other, ids.drop_last());
        same_kept_rows(
            query,
            other,
            ids.last().0 as int,
            query.world.table(ids.last().0 as int).entities@.len() as int,
        );
    }
}

proof fn same_kept_rows<D: QueryData, E: QueryData<State = D::State>, F: QueryFilter>(
    query: UnsafeQuery<D, F>,
    other: UnsafeQuery<E, F>,
    i: int,
    end: int,
)
    requires
        other.world == query.world,
        other.state == query.state,
        other.ticks == query.ticks,
    ensures
        other.kept_rows(i, end) == query.kept_rows(i, end),
    decreases end,
{
    if end > 0 {
        same_kept_rows(query, other, i, end - 1);
    }
}

/// A filter that keeps all entities with the right components keeps all rows of an
/// archetype that matches.
proof fn all_rows_are_kept<D: QueryData, F: QueryFilter>(
    query: UnsafeQuery<D, F>,
    id: ArchetypeId,
    end: int,
)
    requires
        query.wf(),
        keeps_all_rows::<F>(),
        query.state.has_matched(id),
        0 <= end <= query.world.table(id.0 as int).entities@.len(),
    ensures
        query.kept_rows(id.0 as int, end).len() == end,
    decreases end,
{
    if end > 0 {
        let i = id.0 as int;
        all_rows_are_kept(query, id, end - 1);
        assert(query.world.table(i).wf(query.world.archetype(i).components@));
        assert(place_at(query.world, i, end - 1).wf());
    }
}

/// The first archetypes have no more rows than all archetypes.
proof fn prefix_has_fewer_rows<D: QueryData, F: QueryFilter>(
    query: UnsafeQuery<D, F>,
    ids: Seq<ArchetypeId>,
    n: int,
)
    requires
        0 <= n <= ids.len(),
    ensures
        query.rows_in(ids.take(n)).len() <= query.rows_in(ids).len(),
    decreases ids.len(),
{
    if n == ids.len() {
        assert(ids.take(n) =~= ids);
    } else {
        prefix_has_fewer_rows(query, ids.drop_last(), n);
        assert(ids.drop_last().take(n) =~= ids.take(n));
    }
}

} // verus!
