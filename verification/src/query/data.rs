//! What queries fetch and how they filter.

use std::marker::PhantomData;
use vstd::prelude::*;

use crate::archetype::Archetype;
use crate::component::{contains_id, ComponentId};
use crate::entity::location::TableRow;
use crate::entity::Entity;
use crate::storage::Table;

verus! {

/// The row of an entity in the table of its archetype.
#[derive(Clone, Copy)]
pub struct Place<'w> {
    /// The archetype.
    pub archetype: &'w Archetype,
    /// The table.
    pub table: &'w Table,
    /// The entity.
    pub entity: Entity,
    /// The row.
    pub row: TableRow,
}

impl<'w> Place<'w> {
    /// Whether the entity stands in the row of the table of the archetype.
    pub open spec fn wf(self) -> bool {
        &&& self.table.wf(self.archetype.components@)
        &&& self.row.0 < self.table.entities@.len()
        &&& self.table.entities@[self.row.0 as int] == self.entity
    }
}

/// When a query looks at what has changed: since the last run up to this run.
#[derive(Clone, Copy, Debug, PartialEq, Eq, Structural)]
pub struct Ticks {
    /// The tick of the last run.
    pub last_run: u32,
    /// The tick of this run.
    pub this_run: u32,
}

/// What a query fetches for an entity that it matches.
pub trait QueryData: Sized {
    /// What is kept for a query, such as the ids of components.
    type State;

    /// What is found out once for all rows of a table.
    type Fetch;

    /// What is fetched for an entity.
    type Item;

    /// Whether entities with the given components have what is fetched.
    open spec fn matches(state: Self::State, components: Seq<ComponentId>) -> bool {
        arbitrary()
    }

    /// What is found out about a table.
    open spec fn fetch_of(
        state: Self::State,
        archetype: Archetype,
        table: Table,
        ticks: Ticks,
    ) -> Self::Fetch {
        arbitrary()
    }

    /// What is fetched for the entity in a place.
    open spec fn item(state: Self::State, fetch: Self::Fetch, place: Place) -> Self::Item {
        arbitrary()
    }

    /// Returns whether entities with the given components have what is fetched.
    fn matches_component_set(state: &Self::State, components: &Vec<ComponentId>) -> (matches: bool)
        ensures
            matches == Self::matches(*state, components@),
    ;

    /// Finds out about the table of an archetype that matches.
    fn set_archetype(
        state: &Self::State,
        archetype: &Archetype,
        table: &Table,
        ticks: Ticks,
    ) -> (fetch: Self::Fetch)
        requires
            Self::matches(*state, archetype.components@),
            table.wf(archetype.components@),
        ensures
            fetch == Self::fetch_of(*state, *archetype, *table, ticks),
    ;

    /// Fetches what there is for the entity in a place. The table has been found out
    /// about.
    fn fetch(state: &Self::State, fetch: &Self::Fetch, place: Place, ticks: Ticks) -> (item:
        Self::Item)
        requires
            Self::matches(*state, place.archetype.components@),
            place.wf(),
            *fetch == Self::fetch_of(*state, *place.archetype, *place.table, ticks),
        ensures
            item == Self::item(*state, *fetch, place),
    ;
}

/// Marks data that fetches the same as other data, without the right to write it.
pub trait ReadOnlyVersion<D: QueryData>: QueryData<State = D::State> {
    /// Entities have what is fetched if they have what the other data fetches.
    proof fn matches_the_same(state: D::State, components: Seq<ComponentId>)
        ensures
            Self::matches(state, components) == D::matches(state, components),
    ;
}

/// Which of the entities with the right components a query keeps.
pub trait QueryFilter: Sized {
    /// What is kept for a query, such as the ids of components.
    type State;

    /// What is found out once for all rows of a table.
    type Fetch;

    /// Whether entities with the given components may be kept.
    open spec fn matches(state: Self::State, components: Seq<ComponentId>) -> bool {
        arbitrary()
    }

    /// What is found out about a table.
    open spec fn fetch_of(
        state: Self::State,
        archetype: Archetype,
        table: Table,
        ticks: Ticks,
    ) -> Self::Fetch {
        arbitrary()
    }

    /// Whether the entity in a place is kept.
    open spec fn keeps(state: Self::State, fetch: Self::Fetch, place: Place) -> bool {
        arbitrary()
    }

    /// Whether the filter only looks at the components of archetypes, and at no single entity.
    open spec fn archetypal() -> bool {
        arbitrary()
    }

    /// Returns whether the filter only looks at the components of archetypes, so that all
    /// entities with components that match are kept.
    fn is_archetypal() -> (archetypal: bool)
        ensures
            archetypal == Self::archetypal(),
            archetypal ==> forall|state: Self::State, place: Place, ticks: Ticks|
                place.wf() ==> #[trigger] Self::keeps(
                    state,
                    Self::fetch_of(state, *place.archetype, *place.table, ticks),
                    place,
                ),
    ;

    /// Returns whether entities with the given components may be kept.
    fn matches_component_set(state: &Self::State, components: &Vec<ComponentId>) -> (matches: bool)
        ensures
            matches == Self::matches(*state, components@),
    ;

    /// Finds out about the table of an archetype.
    fn set_archetype(
        state: &Self::State,
        archetype: &Archetype,
        table: &Table,
        ticks: Ticks,
    ) -> (fetch: Self::Fetch)
        requires
            table.wf(archetype.components@),
        ensures
            fetch == Self::fetch_of(*state, *archetype, *table, ticks),
    ;

    /// Returns whether the entity in a place is kept. The table has been found out about.
    fn filter_fetch(state: &Self::State, fetch: &Self::Fetch, place: Place, ticks: Ticks) -> (kept:
        bool)
        requires
            place.wf(),
            *fetch == Self::fetch_of(*state, *place.archetype, *place.table, ticks),
        ensures
            kept == Self::keeps(*state, *fetch, place),
    ;
}

/// Fetches the entity itself.
pub struct EntityData;

impl QueryData for EntityData {
    type State = ();

    type Fetch = ();

    type Item = Entity;

    open spec fn matches(state: (), components: Seq<ComponentId>) -> bool {
        true
    }

    open spec fn fetch_of(state: (), archetype: Archetype, table: Table, ticks: Ticks) -> () {
        ()
    }

    open spec fn item(state: (), fetch: (), place: Place) -> Entity {
        place.entity
    }

    fn matches_component_set(state: &(), components: &Vec<ComponentId>) -> (matches: bool) {
        true
    }

    fn set_archetype(state: &(), archetype: &Archetype, table: &Table, ticks: Ticks) -> (fetch:
        ()) {
        ()
    }

    fn fetch(state: &(), fetch: &(), place: Place, ticks: Ticks) -> (item: Entity) {
        place.entity
    }
}

impl ReadOnlyVersion<EntityData> for EntityData {
    proof fn matches_the_same(state: (), components: Seq<ComponentId>) {
    }
}

/// Fetches the value of a component.
pub struct ComponentData;

impl QueryData for ComponentData {
    type State = ComponentId;

    type Fetch = usize;

    type Item = u64;

    open spec fn matches(state: ComponentId, components: Seq<ComponentId>) -> bool {
        components.contains(state)
    }

    open spec fn fetch_of(
        state: ComponentId,
        archetype: Archetype,
        table: Table,
        ticks: Ticks,
    ) -> usize {
        table.first_column(state) as usize
    }

    open spec fn item(state: ComponentId, fetch: usize, place: Place) -> u64 {
        place.table.columns@[fetch as int].values@[place.row.0 as int]
    }

    fn matches_component_set(state: &ComponentId, components: &Vec<ComponentId>) -> (matches:
        bool) {
        contains_id(components, *state)
    }

    fn set_archetype(
        state: &ComponentId,
        archetype: &Archetype,
        table: &Table,
        ticks: Ticks,
    ) -> (fetch: usize) {
        match table.find_column(*state) {
            Some(column) => {
                proof {
                    table.first_column_is(*state, column as int);
                }
                column
            },
            None => {
                proof {
                    let c = choose|c: int|
                        0 <= c < archetype.components@.len() && archetype.components@[c] == *state;
                    assert(table.is_column(c, *state));
                }
                0
            },
        }
    }

    fn fetch(state: &ComponentId, fetch: &usize, place: Place, ticks: Ticks) -> (item: u64) {
        proof {
            let c = choose|c: int|
                0 <= c < place.archetype.components@.len() && place.archetype.components@[c]
                    == *state;
            place.table.first_column_exists(*state, c);
        }
        place.table.columns[*fetch].values[place.row.0 as usize]
    }
}

impl ReadOnlyVersion<ComponentData> for ComponentData {
    proof fn matches_the_same(state: ComponentId, components: Seq<ComponentId>) {
    }
}

/// Fetches nothing, from the entities that other data is fetched for.
pub struct NopWorldQuery<D>(PhantomData<D>);

impl<D: QueryData> QueryData for NopWorldQuery<D> {
    type State = D::State;

    type Fetch = ();

    type Item = ();

    open spec fn matches(state: D::State, components: Seq<ComponentId>) -> bool {
        D::matches(state, components)
    }

    open spec fn fetch_of(
        state: D::State,
        archetype: Archetype,
        table: Table,
        ticks: Ticks,
    ) -> () {
        ()
    }

    open spec fn item(state: D::State, fetch: (), place: Place) -> () {
        ()
    }

    fn matches_component_set(state: &D::State, components: &Vec<ComponentId>) -> (matches: bool) {
        D::matches_component_set(state, components)
    }

    fn set_archetype(
        state: &D::State,
        archetype: &Archetype,
        table: &Table,
        ticks: Ticks,
    ) -> (fetch: ()) {
        ()
    }

    fn fetch(state: &D::State, fetch: &(), place: Place, ticks: Ticks) -> (item: ()) {
        ()
    }
}

/// Keeps all entities.
pub struct NoFilter;

impl QueryFilter for NoFilter {
    type State = ();

    type Fetch = ();

    open spec fn matches(state: (), components: Seq<ComponentId>) -> bool {
        true
    }

    open spec fn fetch_of(state: (), archetype: Archetype, table: Table, ticks: Ticks) -> () {
        ()
    }

    open spec fn keeps(state: (), fetch: (), place: Place) -> bool {
        true
    }

    open spec fn archetypal() -> bool {
        true
    }

    fn is_archetypal() -> (archetypal: bool) {
        true
    }

    fn matches_component_set(state: &(), components: &Vec<ComponentId>) -> (matches: bool) {
        true
    }

    fn set_archetype(state: &(), archetype: &Archetype, table: &Table, ticks: Ticks) -> (fetch:
        ()) {
        ()
    }

    fn filter_fetch(state: &(), fetch: &(), place: Place, ticks: Ticks) -> (kept: bool) {
        true
    }
}

/// Keeps the entities that have a component.
pub struct With;

impl QueryFilter for With {
    type State = ComponentId;

    type Fetch = ();

    open spec fn matches(state: ComponentId, components: Seq<ComponentId>) -> bool {
        components.contains(state)
    }

    open spec fn fetch_of(
        state: ComponentId,
        archetype: Archetype,
        table: Table,
        ticks: Ticks,
    ) -> () {
        ()
    }

    open spec fn keeps(state: ComponentId, fetch: (), place: Place) -> bool {
        true
    }

    open spec fn archetypal() -> bool {
        true
    }

    fn is_archetypal() -> (archetypal: bool) {
        true
    }

    fn matches_component_set(state: &ComponentId, components: &Vec<ComponentId>) -> (matches:
        bool) {
        contains_id(components, *state)
    }

    fn set_archetype(
        state: &ComponentId,
        archetype: &Archetype,
        table: &Table,
        ticks: Ticks,
    ) -> (fetch: ()) {
        ()
    }

    fn filter_fetch(state: &ComponentId, fetch: &(), place: Place, ticks: Ticks) -> (kept: bool) {
        true
    }
}

/// Keeps the entities that two filters keep.
pub struct Both<F, G>(PhantomData<F>, PhantomData<G>);

impl<F: QueryFilter, G: QueryFilter> QueryFilter for Both<F, G> {
    type State = (F::State, G::State);

    type Fetch = (F::Fetch, G::Fetch);

    open spec fn matches(state: (F::State, G::State), components: Seq<ComponentId>) -> bool {
        F::matches(state.0, components) && G::matches(state.1, components)
    }

    open spec fn fetch_of(
        state: (F::State, G::State),
        archetype: Archetype,
        table: Table,
        ticks: Ticks,
    ) -> (F::Fetch, G::Fetch) {
        (
            F::fetch_of(state.0, archetype, table, ticks),
            G::fetch_of(state.1, archetype, table, ticks),
        )
    }

    open spec fn keeps(
        state: (F::State, G::State),
        fetch: (F::Fetch, G::Fetch),
        place: Place,
    ) -> bool {
        F::keeps(state.0, fetch.0, place) && G::keeps(state.1, fetch.1, place)
    }

    open spec fn archetypal() -> bool {
        F::archetypal() && G::archetypal()
    }

    fn is_archetypal() -> (archetypal: bool) {
        F::is_archetypal() && G::is_archetypal()
    }

    fn matches_component_set(
        state: &(F::State, G::State),
        components: &Vec<ComponentId>,
    ) -> (matches: bool) {
        F::matches_component_set(&state.0, components) && G::matches_component_set(
            &state.1,
            components,
        )
    }

    fn set_archetype(
        state: &(F::State, G::State),
        archetype: &Archetype,
        table: &Table,
        ticks: Ticks,
    ) -> (fetch: (F::Fetch, G::Fetch)) {
        (
            F::set_archetype(&state.0, archetype, table, ticks),
            G::set_archetype(&state.1, archetype, table, ticks),
        )
    }

    fn filter_fetch(
        state: &(F::State, G::State),
        fetch: &(F::Fetch, G::Fetch),
        place: Place,
        ticks: Ticks,
    ) -> (kept: bool) {
        F::filter_fetch(&state.0, &fetch.0, place, ticks) && G::filter_fetch(
            &state.1,
            &fetch.1,
            place,
            ticks,
        )
    }
}

} // verus!
