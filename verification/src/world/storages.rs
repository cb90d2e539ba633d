//! The entities of a world and what is stored of them.

use std::sync::Arc;
use vstd::prelude::*;

use crate::archetype::{Archetype, ArchetypeFlags, Archetypes};
use crate::component::{contains_id, find_component, Component, ComponentId};
use crate::entity::allocator::{AllocatorState, ENTITY_BLOCK};
use crate::entity::entities::{Entities, EntitiesState};
use crate::entity::location::{ArchetypeId, ArchetypeRow, EntityLocation, TableId, TableRow};
use crate::entity::Entity;
use crate::observer::archetype_observers::ArchetypeObservers;
use crate::storage::{Table, Tables};

verus! {

broadcast use crate::entity::generation::group_generation;

/// The entities of a world, their archetypes and their tables.
///
/// Every component is stored in tables, so that each archetype has a table of its own.
pub struct Storages {
    /// The entities.
    pub entities: Entities,
    /// The archetypes.
    pub archetypes: Archetypes,
    /// The tables, in the order of the archetypes.
    pub tables: Tables,
}

/// The location in a row of an archetype.
pub open spec fn location_at(archetype: int, row: int) -> EntityLocation {
    EntityLocation {
        archetype_id: ArchetypeId(archetype as u32),
        archetype_row: ArchetypeRow(row as u32),
        table_id: TableId(archetype as u32),
        table_row: TableRow(row as u32),
    }
}

/// Whether no component is given twice.
pub open spec fn distinct_ids(ids: Seq<ComponentId>) -> bool {
    forall|i: int, j: int| 0 <= i < j < ids.len() ==> #[trigger] ids[i] != #[trigger] ids[j]
}

impl Storages {
    /// The archetype with an index.
    pub open spec fn archetype(self, i: int) -> Archetype {
        self.archetypes.archetypes@[i]
    }

    /// The table with an index.
    pub open spec fn table(self, i: int) -> Table {
        self.tables.tables@[i]
    }

    /// Whether there is a row with an index in the table with an index.
    pub open spec fn has_row(self, i: int, row: int) -> bool {
        0 <= i < self.tables.tables@.len() && 0 <= row < self.table(i).entities@.len()
    }

    /// Whether every archetype has a table with columns for its components.
    pub open spec fn tables_fit(self) -> bool {
        &&& self.archetypes.wf()
        &&& self.tables.tables@.len() == self.archetypes.archetypes@.len()
        &&& forall|i: int|
            #![trigger self.archetype(i)]
            #![trigger self.table(i)]
            0 <= i < self.tables.tables@.len() ==> {
                &&& self.archetype(i).table_id.0 == i
                &&& self.table(i).wf(self.archetype(i).components@)
                &&& distinct_ids(self.archetype(i).components@)
                &&& self.table(i).entities@.len() <= u32::MAX
            }
    }

    /// Whether the entity in a row is alive and has that row as its location.
    pub open(crate) spec fn row_is_live(self, i: int, row: int) -> bool {
        let entity = self.table(i).entities@[row];
        &&& entity.wf()
        &&& entity.index_spec() < self.entities@.meta.len()
        &&& self.entities@.meta[entity.index_spec() as int].generation == entity.generation_spec()
        &&& self.entities@.meta[entity.index_spec() as int].location == location_at(i, row)
    }

    /// Whether the entities in all rows are alive and have those rows as their locations.
    pub open(crate) spec fn rows_are_live(self) -> bool {
        forall|i: int, row: int| #[trigger]
            self.has_row(i, row) ==> self.row_is_live(i, row)
    }

    /// Whether the entity with an index, if it is alive, stands in the row of its
    /// location.
    pub open(crate) spec fn index_is_stored(self, index: int) -> bool {
        let meta = self.entities@.meta[index];
        let location = meta.location;
        location.valid() ==> {
            &&& self.has_row(location.archetype_id.0 as int, location.table_row.0 as int)
            &&& location == location_at(
                location.archetype_id.0 as int,
                location.table_row.0 as int,
            )
            &&& self.table(location.archetype_id.0 as int).entities@[location.table_row.0 as int]
                == crate::entity::entities::entity_with(index as u32, meta.generation)
        }
    }

    /// Whether all live entities stand in the rows of their locations.
    pub open(crate) spec fn live_are_stored(self) -> bool {
        forall|index: int|
            0 <= index < self.entities@.meta.len() ==> #[trigger] self.index_is_stored(index)
    }

    /// Whether the indices of all live entities have been handed out, and the entities that
    /// wait to be reserved agree with the metadata.
    pub open(crate) spec fn live_are_used(self) -> bool {
        &&& self.entities@.consistent()
        &&& self.entities@.allocator.distinct()
        &&& 0 <= self.entities@.allocator.next <= u32::MAX
        &&& forall|index: u32|
            (#[trigger] self.entities@.meta_of(index)).location.valid()
                ==> self.entities@.allocator.in_use(index)
    }

    /// Whether tables, archetypes and the locations of entities agree.
    pub open(crate) spec fn wf(self) -> bool {
        &&& self.entities.wf()
        &&& self.live_are_used()
        &&& self.tables_fit()
        &&& self.rows_are_live()
        &&& self.live_are_stored()
    }

    /// The archetype and the row in which an entity stands, if it is alive.
    pub open(crate) spec fn row_of(self, entity: Entity) -> Option<(int, int)> {
        match self.entities@.location_of(entity) {
            Some(location) => Some(
                (location.archetype_id.0 as int, location.table_row.0 as int),
            ),
            None => None,
        }
    }

    /// A live entity stands in its row.
    pub(crate) proof fn live_entity_is_stored(self, entity: Entity)
        requires
            self.wf(),
            self.entities@.location_of(entity) is Some,
        ensures
            ({
                let location = self.entities@.location_of(entity)->0;
                let i = location.archetype_id.0 as int;
                let row = location.table_row.0 as int;
                &&& self.has_row(i, row)
                &&& location == location_at(i, row)
                &&& self.table(i).entities@[row] == entity
                &&& self.table(i).wf(self.archetype(i).components@)
            }),
    {
        let index = entity.index_spec() as int;
        assert(self.index_is_stored(index));
    }

    /// The entity in a row is alive, and it is stored there.
    pub(crate) proof fn stored_entity_is_live(self, i: int, row: int)
        requires
            self.wf(),
            self.has_row(i, row),
        ensures
            self.entities@.location_of(self.table(i).entities@[row]) == Some(location_at(i, row)),
            self.table(i).entities@[row].wf(),
            i < u32::MAX,
            row < u32::MAX,
    {
        assert(self.row_is_live(i, row));
        assert(self.table(i).entities@.len() <= u32::MAX);
    }
}

impl Storages {
    /// The values of the components of an entity, if it is alive.
    pub open(crate) spec fn values(self, entity: Entity) -> Option<Map<ComponentId, u64>> {
        match self.row_of(entity) {
            Some((i, row)) => Some(crate::component::values_of(self.table(i).row(row))),
            None => None,
        }
    }

    /// Whether the values of all entities but one are the same as in other storages.
    pub open(crate) spec fn others_same(self, other: Storages, entity: Entity) -> bool {
        forall|e: Entity| e.wf() && e != entity ==> #[trigger] self.values(e) == other.values(e)
    }

    /// Whether an archetype is for entities with the given components.
    pub open spec fn fits(self, i: int, components: Seq<Component>) -> bool {
        &&& 0 <= i < self.archetypes.archetypes@.len()
        &&& forall|id: ComponentId|
            self.archetype(i).components@.contains(id)
                <==> #[trigger] crate::component::has_component(components, id)
    }

    /// Whether an entity may be given a location: it has been reserved, and it is not stored.
    pub open(crate) spec fn is_unstored(self, entity: Entity) -> bool {
        &&& entity.wf()
        &&& self.entities@.allocator.in_use(entity.index_spec())
        &&& self.entities@.meta_of(entity.index_spec()).generation == entity.generation_spec()
        &&& !self.entities@.meta_of(entity.index_spec()).location.valid()
    }

    /// Creates storages without entities.
    pub fn new() -> (storages: Self)
        ensures
            storages.wf(),
            storages.archetypes.archetypes@.len() == 0,
            storages.tables.tables@.len() == 0,
            storages.entities@ == (EntitiesState {
                meta: Seq::empty(),
                allocator: AllocatorState::new_spec(),
                track_location: false,
            }),
            forall|entity: Entity| storages.values(entity) is None,
    {
        let storages = Storages {
            entities: Entities::new(),
            archetypes: Archetypes { archetypes: Vec::new() },
            tables: Tables { tables: Vec::new() },
        };
        proof {
            new_entities_are_consistent(storages.entities@);
        }
        storages
    }

    /// Returns the archetype for the given components, if there is one.
    pub fn find_archetype(&self, components: &Vec<Component>) -> (archetype: Option<usize>)
        requires
            self.wf(),
        ensures
            archetype matches Some(i) ==> self.fits(i as int, components@),
            archetype is None ==> forall|i: int| !self.fits(i, components@),
    {
        let mut i: usize = 0;
        while i < self.archetypes.archetypes.len()
            invariant
                self.wf(),
                i <= self.archetypes.archetypes@.len(),
                forall|k: int| 0 <= k < i ==> !self.fits(k, components@),
            decreases self.archetypes.archetypes@.len() - i,
        {
            let ids = &self.archetypes.archetypes[i].components;
            assert(ids@ == self.archetype(i as int).components@);
            if same_ids(ids, components) {
                return Some(i);
            }
            i = i + 1;
        }
        None
    }

    /// Adds an archetype for the given components.
    pub fn add_archetype(
        &mut self,
        components: &Vec<Component>,
        flags: ArchetypeFlags,
        observers: Arc<ArchetypeObservers>,
    ) -> (archetype: usize)
        requires
            old(self).wf(),
            crate::component::distinct_components(components@),
            old(self).archetypes.archetypes@.len() + 1 < u32::MAX,
        ensures
            final(self).wf(),
            archetype == old(self).archetypes.archetypes@.len(),
            final(self).fits(archetype as int, components@),
            final(self).archetypes.archetypes@.len() == old(self).archetypes.archetypes@.len() + 1,
            final(self).archetypes.archetypes@.drop_last() == old(self).archetypes.archetypes@,
            final(self).archetypes.archetypes@.last().flags == flags,
            final(self).archetypes.archetypes@.last().observers == observers,
            final(self).archetypes.archetypes@.last().components@ == crate::storage::ids_of(
                components@,
            ),
            final(self).tables.tables@.drop_last() == old(self).tables.tables@,
            final(self).entities == old(self).entities,
            forall|entity: Entity| #[trigger] final(self).values(entity) == old(self).values(entity),
    {
        let i: usize = self.archetypes.archetypes.len();
        let ids = list_ids(components);
        let table = Table::new(components);
        let archetype = Archetype {
            id: ArchetypeId(i as u32),
            table_id: TableId(i as u32),
            components: ids,
            flags,
            observers,
        };
        self.archetypes.archetypes.push(archetype);
        self.tables.tables.push(table);
        proof {
            let before = *old(self);
            assert(archetype.components@ =~= crate::storage::ids_of(components@));
            assert forall|k: int| 0 <= k < i implies self.archetype(k) == before.archetype(k)
                && self.table(k) == before.table(k) by {}
            assert forall|a: int, r: int| #[trigger] self.has_row(a, r) implies before.has_row(
                a,
                r,
            ) && self.row_is_live(a, r) by {
                assert(a != i);
                assert(before.has_row(a, r));
                assert(before.row_is_live(a, r));
            }
            assert forall|index: int|
                0 <= index < self.entities@.meta.len() implies #[trigger] self.index_is_stored(
                index,
            ) by {
                assert(before.index_is_stored(index));
            }
            assert forall|k: int| 0 <= k < self.tables.tables@.len() implies {
                &&& (#[trigger] self.archetype(k)).table_id.0 == k
                &&& self.table(k).wf(self.archetype(k).components@)
                &&& distinct_ids(self.archetype(k).components@)
                &&& self.table(k).entities@.len() <= u32::MAX
            } by {
                if k < i {
                    assert(before.archetype(k).table_id.0 == k);
                }
            }
            assert forall|id: ComponentId|
                self.archetype(i as int).components@.contains(id)
                    <==> #[trigger] crate::component::has_component(components@, id) by {
                let all = self.archetype(i as int).components@;
                if all.contains(id) {
                    let c = choose|c: int| 0 <= c < all.len() && all[c] == id;
                    assert(components@[c].id == id);
                }
                if crate::component::has_component(components@, id) {
                    let c = crate::component::position_of(components@, id);
                    assert(all[c] == id);
                }
            }
            assert forall|entity: Entity| #[trigger] self.values(entity) == before.values(
                entity,
            ) by {
                if before.entities@.location_of(entity) is Some {
                    before.live_entity_is_stored(entity);
                }
            }
            assert(self.archetypes.archetypes@.drop_last() =~= before.archetypes.archetypes@);
            assert(self.tables.tables@.drop_last() =~= before.tables.tables@);
        }
        i
    }

    /// Stores an entity in an archetype for its components.
    pub fn push_row(&mut self, i: usize, entity: Entity, components: &Vec<Component>)
        requires
            old(self).wf(),
            old(self).is_unstored(entity),
            crate::component::distinct_components(components@),
            old(self).fits(i as int, components@),
        ensures
            final(self).wf(),
            final(self).values(entity) == Some(crate::component::values_of(components@)),
            final(self).others_same(*old(self), entity),
            final(self).archetypes == old(self).archetypes,
            final(self).entities@.allocator == old(self).entities@.allocator,
            final(self).entities@.live() == old(self).entities@.live() + 1,
            final(self).entities@.location_of(entity) == Some(
                location_at(i as int, old(self).table(i as int).entities@.len() as int),
            ),
            final(self).tables.tables@.len() == old(self).tables.tables@.len(),
            final(self).table(i as int).entities@ == old(self).table(i as int).entities@.push(
                entity,
            ),
            forall|r: int|
                0 <= r < old(self).table(i as int).entities@.len() ==> #[trigger] final(self).table(
                    i as int,
                ).row(r) == old(self).table(i as int).row(r),
            forall|k: int|
                0 <= k < old(self).tables.tables@.len() && k != i ==> #[trigger] final(self).table(
                    k,
                ) == old(self).table(k),
    {
        let ghost before = *self;
        let ghost at = i as int;
        let ghost ids = self.archetype(at).components@;
        let ghost table = self.table(at);
        let ghost row = table.entities@.len() as int;
        proof {
            row_ids(table, ids);
            before.room_for_one_more(at, entity);
            assert forall|c: int| 0 <= c < table.columns@.len() implies
                crate::component::has_component(
                components@,
                (#[trigger] table.columns@[c]).component,
            ) by {
                assert(ids[c] == table.columns@[c].component);
                assert(ids.contains(ids[c]));
            }
        }
        let length: usize = self.tables.tables[i].entities.len();
        self.tables.tables[i].push(entity, components);
        let location = EntityLocation {
            archetype_id: ArchetypeId(i as u32),
            archetype_row: ArchetypeRow(length as u32),
            table_id: TableId(i as u32),
            table_row: TableRow(length as u32),
        };
        assert(location == location_at(at, row));
        self.entities.set(entity.index(), location);
        proof {
            let after = *self;
            before.pushed_row_is_wf(after, at, entity, location);
            let new = after.table(at).row(row);
            assert(after.entities@.location_of(entity) == Some(location));
            assert(after.row_of(entity) == Some((at, row)));
            row_components_are(after.table(at), ids, row);
            assert forall|k: int| 0 <= k < components@.len() implies crate::component::has_component(
                new,
                (#[trigger] components@[k]).id,
            ) by {
                assert(crate::component::has_component(components@, components@[k].id));
                let c = choose|c: int| 0 <= c < ids.len() && ids[c] == components@[k].id;
                assert(new[c].id == ids[c]);
            }
            crate::component::same_values(new, components@);
            assert forall|e: Entity| e.wf() && e != entity implies #[trigger] after.values(e)
                == before.values(e) by {
                before.other_location_is_same(after, entity, e, location);
                if before.entities@.location_of(e) is Some {
                    before.live_entity_is_stored(e);
                }
            }
        }
    }
}

/// Metadata without entities is consistent.
proof fn new_entities_are_consistent(state: EntitiesState)
    requires
        state.meta.len() == 0,
        state.allocator.local.len() == 0,
        state.allocator.shared.len() == 0,
        state.allocator.next == 0,
    ensures
        state.consistent(),
        state.allocator.distinct(),
{
}

/// Returns whether some ids are those of some components.
fn same_ids(ids: &Vec<ComponentId>, components: &Vec<Component>) -> (same: bool)
    ensures
        same == (forall|id: ComponentId|
            ids@.contains(id) <==> #[trigger] crate::component::has_component(components@, id)),
{
    let mut c: usize = 0;
    while c < ids.len()
        invariant
            c <= ids@.len(),
            forall|k: int|
                0 <= k < c ==> crate::component::has_component(components@, #[trigger] ids@[k]),
        decreases ids@.len() - c,
    {
        if find_component(components, ids[c]).is_none() {
            assert(ids@.contains(ids@[c as int]));
            return false;
        }
        c = c + 1;
    }
    let mut k: usize = 0;
    while k < components.len()
        invariant
            k <= components@.len(),
            forall|n: int| 0 <= n < k ==> ids@.contains((#[trigger] components@[n]).id),
        decreases components@.len() - k,
    {
        if !contains_id(ids, components[k].id) {
            assert(crate::component::has_component(components@, components@[k as int].id));
            return false;
        }
        k = k + 1;
    }
    proof {
        assert forall|id: ComponentId|
            ids@.contains(id) <==> #[trigger] crate::component::has_component(components@, id) by {
            if ids@.contains(id) {
                let n = choose|n: int| 0 <= n < ids@.len() && ids@[n] == id;
                assert(crate::component::has_component(components@, ids@[n]));
            }
            if crate::component::has_component(components@, id) {
                let n = crate::component::position_of(components@, id);
                assert(ids@.contains(components@[n].id));
            }
        }
    }
    true
}

/// Returns the ids of some components.
fn list_ids(components: &Vec<Component>) -> (ids: Vec<ComponentId>)
    ensures
        ids@ == crate::storage::ids_of(components@),
        crate::component::distinct_components(components@) ==> distinct_ids(ids@),
{
    let mut ids: Vec<ComponentId> = Vec::new();
    let mut i: usize = 0;
    while i < components.len()
        invariant
            i <= components@.len(),
            ids@ == crate::storage::ids_of(components@).take(i as int),
        decreases components@.len() - i,
    {
        ids.push(components[i].id);
        assert(ids@ =~= crate::storage::ids_of(components@).take(i + 1));
        i = i + 1;
    }
    assert(ids@ =~= crate::storage::ids_of(components@));
    proof {
        if crate::component::distinct_components(components@) {
            assert forall|a: int, b: int| 0 <= a < b < ids@.len() implies #[trigger] ids@[a]
                != #[trigger] ids@[b] by {
                assert(components@[a].id != components@[b].id);
            }
        }
    }
    ids
}

/// The columns of a table are in the order of its components.
proof fn row_ids(table: Table, components: Seq<ComponentId>)
    requires
        table.wf(components),
    ensures
        crate::storage::ids_of(table.row(0)) == components,
{
    assert(crate::storage::ids_of(table.row(0)) =~= components);
}

/// The components in a row are those of the table.
proof fn row_components_are(table: Table, components: Seq<ComponentId>, row: int)
    requires
        table.wf(components),
        distinct_ids(components),
    ensures
        table.row(row).len() == components.len(),
        forall|c: int| 0 <= c < components.len() ==> (#[trigger] table.row(row)[c]).id == components[c],
        crate::component::distinct_components(table.row(row)),
{
    let all = table.row(row);
    assert forall|c: int| 0 <= c < components.len() implies (#[trigger] all[c]).id
        == components[c] by {
        assert(table.columns@[c].component == components[c]);
    }
    assert forall|a: int, b: int| 0 <= a < b < all.len() implies (#[trigger] all[a]).id != (
    #[trigger] all[b]).id by {
        assert(components[a] != components[b]);
    }
}

impl Storages {
    /// There is room in a table for an entity that is not stored, and it can be counted.
    proof fn room_for_one_more(self, at: int, entity: Entity)
        requires
            self.wf(),
            self.is_unstored(entity),
            0 <= at < self.tables.tables@.len(),
        ensures
            self.table(at).entities@.len() + 1 <= u32::MAX,
            self.entities@.live() < u32::MAX,
            entity.index_spec() < u32::MAX,
    {
        let next = self.entities@.allocator.next;
        let stored = self.table(at).entities@;
        let all = stored.push(entity);
        let numbers = all.map_values(|e: Entity| e.index_spec() as int);
        assert forall|r: int| 0 <= r < stored.len() implies {
            let e = #[trigger] stored[r];
            &&& e.index_spec() < next
            &&& e.index_spec() != entity.index_spec()
        } by {
            assert(self.has_row(at, r));
            assert(self.row_is_live(at, r));
            let index = stored[r].index_spec();
            assert(self.entities@.meta_of(index).location.valid());
            assert(self.entities@.allocator.in_use(index));
        }
        assert forall|a: int, b: int|
            0 <= a < numbers.len() && 0 <= b < numbers.len() && a != b implies numbers[a]
            != numbers[b] by {
            if a < stored.len() && b < stored.len() {
                assert(self.has_row(at, a) && self.has_row(at, b));
                self.stored_entity_is_live(at, a);
                self.stored_entity_is_live(at, b);
                assert(self.row_is_live(at, a) && self.row_is_live(at, b));
                if numbers[a] == numbers[b] {
                    assert(location_at(at, a) == location_at(at, b));
                    assert(location_at(at, a).table_row.0 == a);
                    assert(location_at(at, b).table_row.0 == b);
                }
            } else if a < stored.len() {
                assert(stored[a].index_spec() != entity.index_spec());
            } else {
                assert(stored[b].index_spec() != entity.index_spec());
            }
        }
        assert forall|a: int| 0 <= a < numbers.len() implies 0 <= #[trigger] numbers[a] < next by {
            if a < stored.len() {
                assert(stored[a].index_spec() < next);
            }
        }
        crate::query::laws::distinct_numbers_are_few(numbers, next);
        assert forall|i: int|
            0 <= i < self.entities@.meta.len() && (
            #[trigger] self.entities@.meta[i]).location.valid() implies i < next by {
            assert(self.entities@.meta_of(i as u32).location.valid());
        }
        crate::entity::entities::live_are_few(
            self.entities@.meta,
            next,
            entity.index_spec() as int,
        );
    }

    /// Setting the location of an entity leaves those of others as they are.
    proof fn other_location_is_same(
        self,
        after: Storages,
        entity: Entity,
        other: Entity,
        location: EntityLocation,
    )
        requires
            self.is_unstored(entity),
            after.entities@ == self.entities@.after_set(entity.index_spec(), location),
            other.wf(),
            other != entity,
        ensures
            after.entities@.location_of(other) == self.entities@.location_of(other),
    {
    }

    /// Storages in which an entity has been added in a row are well-formed.
    proof fn pushed_row_is_wf(
        self,
        after: Storages,
        at: int,
        entity: Entity,
        location: EntityLocation,
    )
        requires
            self.wf(),
            self.is_unstored(entity),
            0 <= at < self.tables.tables@.len(),
            self.table(at).entities@.len() + 1 <= u32::MAX,
            location == location_at(at, self.table(at).entities@.len() as int),
            after.archetypes == self.archetypes,
            after.tables.tables@.len() == self.tables.tables@.len(),
            forall|k: int|
                0 <= k < self.tables.tables@.len() && k != at ==> #[trigger] after.table(k)
                    == self.table(k),
            after.table(at).entities@ == self.table(at).entities@.push(entity),
            after.table(at).wf(self.archetype(at).components@),
            after.entities.wf(),
            after.entities@ == self.entities@.after_set(entity.index_spec(), location),
        ensures
            after.wf(),
            after.entities@.live() == self.entities@.live() + 1,
    {
        let row = self.table(at).entities@.len() as int;
        let index = entity.index_spec();
        crate::entity::laws::set_keeps_consistency(self.entities@, index, location);
        assert(location.valid());
        assert forall|k: int| 0 <= k < after.tables.tables@.len() implies {
            &&& (#[trigger] after.archetype(k)).table_id.0 == k
            &&& after.table(k).wf(after.archetype(k).components@)
            &&& distinct_ids(after.archetype(k).components@)
            &&& after.table(k).entities@.len() <= u32::MAX
        } by {
            assert(self.archetype(k).table_id.0 == k);
        }
        assert forall|i: int, r: int| #[trigger] after.has_row(i, r) implies after.row_is_live(
            i,
            r,
        ) by {
            if i == at && r == row {
                assert(after.table(at).entities@[row] == entity);
            } else {
                assert(self.has_row(i, r));
                assert(self.row_is_live(i, r));
                let other = self.table(i).entities@[r];
                assert(after.table(i).entities@[r] == other);
                assert(self.entities@.meta_of(other.index_spec()).location.valid()) by {
                    self.stored_entity_is_live(i, r);
                }
                assert(other.index_spec() != index);
            }
        }
        assert forall|n: int|
            0 <= n < after.entities@.meta.len() implies #[trigger] after.index_is_stored(n) by {
            if n == index {
                assert(after.has_row(at, row));
            } else if n < self.entities@.meta.len() {
                assert(self.index_is_stored(n));
                let old_location = self.entities@.meta[n].location;
                if old_location.valid() {
                    let i = old_location.archetype_id.0 as int;
                    let r = old_location.table_row.0 as int;
                    assert(self.has_row(i, r));
                    assert(after.has_row(i, r));
                    assert(after.table(i).entities@[r] == self.table(i).entities@[r]);
                }
            }
        }
        assert forall|n: u32|
            (#[trigger] after.entities@.meta_of(n)).location.valid() implies
            after.entities@.allocator.in_use(n) by {
            if n != index {
                assert(self.entities@.meta_of(n).location.valid());
            }
        }
        crate::entity::entities::live_after_set(self.entities@, index, location);
    }
}

impl Storages {
    /// Whether an entity can be reserved: there is one to reuse, or an index to allocate.
    pub open(crate) spec fn has_room(self) -> bool {
        forall|slot: int|
            self.entities@.allocator.has_slot(slot) && #[trigger] self.entities@.allocator.at_hand(
                slot,
            ) is None ==> self.entities@.allocator.has_room(1)
    }

    /// Reserves an entity that is not stored yet.
    pub fn reserve(&mut self) -> (entity: Entity)
        requires
            old(self).wf(),
            old(self).has_room(),
        ensures
            final(self).wf(),
            final(self).is_unstored(entity),
            old(self).values(entity) is None,
            final(self).archetypes == old(self).archetypes,
            final(self).tables == old(self).tables,
            final(self).entities@.live() == old(self).entities@.live(),
            final(self).entities@.allocator.next <= old(self).entities@.allocator.next + 1
                + ENTITY_BLOCK,
            forall|e: Entity| #[trigger] final(self).values(e) == old(self).values(e),
            exists|slot: int|
                {
                    &&& #[trigger] old(self).entities@.allocator.has_slot(slot)
                    &&& entity == old(self).entities@.allocator.reserved(slot)
                    &&& final(self).entities@ == (EntitiesState {
                        allocator: old(self).entities@.allocator.after_reserve(slot),
                        ..old(self).entities@
                    })
                },
    {
        let entity = self.entities.reserve_entity();
        proof {
            use_type_invariant(&entity);
            let before = *old(self);
            let state = before.entities@;
            let slot = choose|slot: int|
                {
                    &&& #[trigger] state.allocator.has_slot(slot)
                    &&& entity == state.allocator.reserved(slot)
                    &&& self.entities@ == (EntitiesState {
                        allocator: state.allocator.after_reserve(slot),
                        ..state
                    })
                };
            crate::entity::laws::reserved_entity_is_contained(state, slot);
            crate::entity::allocator::reserved_entity_is_unique(state.allocator, slot);
            assert forall|n: u32|
                (#[trigger] self.entities@.meta_of(n)).location.valid() implies
                self.entities@.allocator.in_use(n) by {
                assert(state.meta_of(n).location.valid());
                assert(state.allocator.in_use(n));
            }
            assert forall|i: int, r: int| #[trigger] self.has_row(i, r) implies self.row_is_live(
                i,
                r,
            ) by {
                assert(before.has_row(i, r));
                assert(before.row_is_live(i, r));
            }
            assert forall|n: int|
                0 <= n < self.entities@.meta.len() implies #[trigger] self.index_is_stored(n) by {
                assert(before.index_is_stored(n));
            }
            assert forall|k: int| 0 <= k < self.tables.tables@.len() implies {
                &&& (#[trigger] self.archetype(k)).table_id.0 == k
                &&& self.table(k).wf(self.archetype(k).components@)
                &&& distinct_ids(self.archetype(k).components@)
                &&& self.table(k).entities@.len() <= u32::MAX
            } by {
                assert(before.archetype(k).table_id.0 == k);
            }
            assert forall|e: Entity| #[trigger] self.values(e) == before.values(e) by {}
            assert(self.entities@.location_of(entity) is None);
        }
        entity
    }

    /// Takes an entity that is stored out of its archetype, and returns its components.
    pub fn take_row(&mut self, entity: Entity) -> (components: Vec<Component>)
        requires
            old(self).wf(),
            old(self).values(entity) is Some,
        ensures
            final(self).wf(),
            final(self).is_unstored(entity),
            crate::component::distinct_components(components@),
            old(self).values(entity) == Some(crate::component::values_of(components@)),
            final(self).others_same(*old(self), entity),
            final(self).archetypes == old(self).archetypes,
            final(self).entities@.allocator == old(self).entities@.allocator,
            final(self).entities@.live() == old(self).entities@.live() - 1,
            final(self).tables.tables@.len() == old(self).tables.tables@.len(),
            ({
                let (at, row) = old(self).row_of(entity)->0;
                let entities = old(self).table(at).entities@;
                &&& components@ == old(self).table(at).row(row)
                &&& final(self).table(at).entities@ == entities.update(
                    row,
                    entities.last(),
                ).drop_last()
                &&& forall|k: int|
                    0 <= k < old(self).tables.tables@.len() && k != at
                        ==> #[trigger] final(self).table(k) == old(self).table(k)
            }),
    {
        proof {
            use_type_invariant(&entity);
        }
        let ghost before = *self;
        match self.entities.get(entity) {
            Some(location) => {
                let i: usize = location.archetype_id.index();
                let row: usize = location.table_row.0 as usize;
                let ghost at = i as int;
                let ghost ids = before.archetype(at).components@;
                proof {
                    before.live_entity_is_stored(entity);
                    row_ids(before.table(at), ids);
                    row_components_are(before.table(at), ids, row as int);
                    before.stored_entity_is_live(at, row as int);
                }
                let components = self.tables.tables[i].swap_remove(row);
                let ghost last = before.table(at).entities@.len() - 1;
                if row < self.tables.tables[i].entities.len() {
                    let moved = self.tables.tables[i].entities[row];
                    proof {
                        assert(moved == before.table(at).entities@[last]);
                        assert(before.has_row(at, last));
                        before.stored_entity_is_live(at, last);
                        crate::entity::entities::live_after_reset(
                            before.entities@,
                            moved.index_spec(),
                            location,
                        );
                    }
                    self.entities.set(moved.index(), location);
                }
                let ghost mid = self.entities@;
                proof {
                    before.moved_row_is_placed(mid, at, row as int, entity);
                    crate::entity::entities::live_after_reset(
                        mid,
                        entity.index_spec(),
                        EntityLocation::invalid(),
                    );
                }
                self.entities.set(entity.index(), EntityLocation::invalid());
                proof {
                    let after = *self;
                    before.removed_row_is_wf(after, at, row as int, entity);
                    assert forall|e: Entity| e.wf() && e != entity implies #[trigger] after.values(
                        e,
                    ) == before.values(e) by {
                        before.removed_row_keeps_values(after, at, row as int, entity, e);
                    }
                }
                components
            },
            None => Vec::new(),
        }
    }

    /// Takes out all entities.
    pub fn clear_entities(&mut self)
        requires
            old(self).wf(),
        ensures
            final(self).wf(),
            final(self).entities@.live() == 0,
            final(self).archetypes == old(self).archetypes,
            old(self).entities@.may_clear_to(final(self).entities@),
            final(self).entities@.allocator.next == old(self).entities@.allocator.next,
            forall|entity: Entity| final(self).values(entity) is None,
            forall|i: int, row: int| !#[trigger] final(self).has_row(i, row),
    {
        let ghost before = *self;
        let mut i: usize = 0;
        while i < self.tables.tables.len()
            invariant
                before.wf(),
                self.archetypes == before.archetypes,
                self.entities == before.entities,
                i <= self.tables.tables@.len(),
                self.tables.tables@.len() == before.tables.tables@.len(),
                forall|k: int|
                    i <= k < self.tables.tables@.len() ==> #[trigger] self.table(k)
                        == before.table(k),
                forall|k: int|
                    0 <= k < i ==> (#[trigger] self.table(k)).entities@.len() == 0 && self.table(
                        k,
                    ).wf(before.archetype(k).components@),
            decreases self.tables.tables@.len() - i,
        {
            let ghost start = *self;
            proof {
                assert(before.archetype(i as int).table_id.0 == i);
                assert(start.table(i as int) == before.table(i as int));
                row_ids(self.table(i as int), before.archetype(i as int).components@);
            }
            self.tables.tables[i].clear();
            proof {
                assert forall|k: int|
                    i + 1 <= k < self.tables.tables@.len() implies #[trigger] self.table(k)
                    == before.table(k) by {
                    assert(start.table(k) == before.table(k));
                }
                assert forall|k: int| 0 <= k < i + 1 implies (
                #[trigger] self.table(k)).entities@.len() == 0 && self.table(k).wf(
                    before.archetype(k).components@,
                ) by {
                    if k < i {
                        assert(start.table(k).entities@.len() == 0);
                    }
                }
            }
            i = i + 1;
        }
        let ghost emptied = *self;
        self.entities.clear();
        proof {
            let state = before.entities@;
            let end = state.meta.len() as int;
            let slots = choose|slots: Seq<int>|
                {
                    &&& #[trigger] state.allocator.slots_fit(slots, state.freed_entities(end))
                    &&& self.entities@ == state.cleared(slots, end)
                };
            assert forall|n: int| 0 <= n < state.meta.len() implies (
            #[trigger] state.meta[n]).wf() && (state.meta[n].location.valid()
                ==> state.allocator.in_use(n as u32)) by {
                assert(state.meta_of(n as u32) == state.meta[n]);
            }
            crate::entity::laws::clear_keeps_consistency(state, slots, end);
            assert forall|n: u32| !(#[trigger] self.entities@.meta_of(n)).location.valid() by {}
            assert forall|k: int| 0 <= k < self.tables.tables@.len() implies {
                &&& (#[trigger] self.archetype(k)).table_id.0 == k
                &&& self.table(k).wf(self.archetype(k).components@)
                &&& distinct_ids(self.archetype(k).components@)
                &&& self.table(k).entities@.len() <= u32::MAX
            } by {
                assert(before.archetype(k).table_id.0 == k);
                assert(emptied.table(k).entities@.len() == 0);
                assert(self.table(k) == emptied.table(k));
            }
            assert forall|k: int, r: int| !(#[trigger] self.has_row(k, r)) by {
                if 0 <= k < self.tables.tables@.len() {
                    assert(emptied.table(k).entities@.len() == 0);
                    assert(self.table(k) == emptied.table(k));
                }
            }
            assert forall|n: int|
                0 <= n < self.entities@.meta.len() implies #[trigger] self.index_is_stored(n) by {
                assert(!self.entities@.meta_of(n as u32).location.valid());
            }
        }
    }

    /// The metadata after the last row of a table has been moved to another row, from which
    /// an entity is taken out.
    pub open(crate) spec fn entities_after_move(self, at: int, row: int) -> EntitiesState {
        let last = self.table(at).entities@.len() - 1;
        if row < last {
            self.entities@.after_set(
                self.table(at).entities@[last].index_spec(),
                location_at(at, row),
            )
        } else {
            self.entities@
        }
    }

    proof fn moved_row_is_placed(self, mid: EntitiesState, at: int, row: int, entity: Entity)
        requires
            self.wf(),
            self.has_row(at, row),
            self.table(at).entities@[row] == entity,
            mid == self.entities_after_move(at, row),
        ensures
            entity.index_spec() < mid.meta.len(),
            mid.meta[entity.index_spec() as int] == self.entities@.meta[entity.index_spec() as int],
            mid.meta[entity.index_spec() as int].location.valid(),
            mid.live() == self.entities@.live(),
            entity.index_spec() < u32::MAX,
    {
        let last = self.table(at).entities@.len() - 1;
        self.stored_entity_is_live(at, row);
        assert(self.row_is_live(at, row));
        assert(self.entities@.meta_of(entity.index_spec()).location.valid());
        assert(self.entities@.allocator.in_use(entity.index_spec()));
        if row < last {
            assert(self.has_row(at, last));
            self.stored_entity_is_live(at, last);
            assert(self.row_is_live(at, last));
            let moved = self.table(at).entities@[last];
            if moved.index_spec() == entity.index_spec() {
                assert(location_at(at, row) == location_at(at, last));
                assert(location_at(at, row).table_row.0 == row);
                assert(location_at(at, last).table_row.0 == last);
            }
            crate::entity::entities::live_after_reset(
                self.entities@,
                moved.index_spec(),
                location_at(at, row),
            );
        }
    }

    proof fn removed_row_is_wf(self, after: Storages, at: int, row: int, entity: Entity)
        requires
            self.wf(),
            self.has_row(at, row),
            self.table(at).entities@[row] == entity,
            after.archetypes == self.archetypes,
            after.tables.tables@.len() == self.tables.tables@.len(),
            forall|k: int|
                0 <= k < self.tables.tables@.len() && k != at ==> #[trigger] after.table(k)
                    == self.table(k),
            after.table(at).entities@ == self.table(at).entities@.update(
                row,
                self.table(at).entities@.last(),
            ).drop_last(),
            after.table(at).wf(self.archetype(at).components@),
            after.entities.wf(),
            after.entities@ == self.entities_after_move(at, row).after_set(
                entity.index_spec(),
                EntityLocation::invalid(),
            ),
        ensures
            after.wf(),
            after.is_unstored(entity),
    {
        let last = self.table(at).entities@.len() - 1;
        let index = entity.index_spec();
        let mid = self.entities_after_move(at, row);
        self.moved_row_is_placed(mid, at, row, entity);
        self.stored_entity_is_live(at, row);
        assert(self.row_is_live(at, row));
        assert(self.entities@.meta_of(index).location.valid());
        let moved = self.table(at).entities@[last];
        assert(self.has_row(at, last));
        self.stored_entity_is_live(at, last);
        assert(self.row_is_live(at, last));
        assert(self.entities@.meta_of(moved.index_spec()).location.valid());
        if row < last {
            crate::entity::laws::set_keeps_consistency(
                self.entities@,
                moved.index_spec(),
                location_at(at, row),
            );
        }
        crate::entity::laws::set_keeps_consistency(mid, index, EntityLocation::invalid());
        assert forall|k: int| 0 <= k < after.tables.tables@.len() implies {
            &&& (#[trigger] after.archetype(k)).table_id.0 == k
            &&& after.table(k).wf(after.archetype(k).components@)
            &&& distinct_ids(after.archetype(k).components@)
            &&& after.table(k).entities@.len() <= u32::MAX
        } by {
            assert(self.archetype(k).table_id.0 == k);
        }
        assert forall|i: int, r: int| #[trigger] after.has_row(i, r) implies after.row_is_live(
            i,
            r,
        ) by {
            let from = if i == at && r == row {
                last
            } else {
                r
            };
            assert(self.has_row(i, from));
            assert(self.row_is_live(i, from));
            self.stored_entity_is_live(i, from);
            let other = self.table(i).entities@[from];
            assert(after.table(i).entities@[r] == other);
            if other.index_spec() == index {
                assert(location_at(i, from) == location_at(at, row));
                assert(location_at(i, from).table_row.0 == from);
                assert(location_at(at, row).table_row.0 == row);
                assert(location_at(i, from).archetype_id.0 == i);
                assert(location_at(at, row).archetype_id.0 == at);
            }
            if row < last && other.index_spec() == moved.index_spec() {
                assert(location_at(i, from) == location_at(at, last));
                assert(location_at(i, from).table_row.0 == from);
                assert(location_at(at, last).table_row.0 == last);
                assert(location_at(i, from).archetype_id.0 == i);
                assert(location_at(at, last).archetype_id.0 == at);
            }
        }
        assert forall|n: int|
            0 <= n < after.entities@.meta.len() implies #[trigger] after.index_is_stored(n) by {
            assert(self.index_is_stored(n));
            let location = self.entities@.meta[n].location;
            if n == index {
            } else if row < last && n == moved.index_spec() {
                assert(after.has_row(at, row));
                assert(after.table(at).entities@[row] == moved);
            } else if location.valid() {
                let i = location.archetype_id.0 as int;
                let r = location.table_row.0 as int;
                assert(self.has_row(i, r));
                let other = self.table(i).entities@[r];
                assert(other.index_spec() == n);
                assert(!(i == at && r == row));
                if i == at && r == last {
                    assert(other == moved);
                }
                assert(after.has_row(i, r));
                assert(after.table(i).entities@[r] == other);
            }
        }
        assert forall|n: u32|
            (#[trigger] after.entities@.meta_of(n)).location.valid() implies
            after.entities@.allocator.in_use(n) by {
            assert(self.entities@.meta_of(n).location.valid());
        }
    }

    proof fn removed_row_keeps_values(
        self,
        after: Storages,
        at: int,
        row: int,
        entity: Entity,
        other: Entity,
    )
        requires
            self.wf(),
            after.wf(),
            self.has_row(at, row),
            self.table(at).entities@[row] == entity,
            after.tables.tables@.len() == self.tables.tables@.len(),
            forall|k: int|
                0 <= k < self.tables.tables@.len() && k != at ==> #[trigger] after.table(k)
                    == self.table(k),
            after.table(at).entities@ == self.table(at).entities@.update(
                row,
                self.table(at).entities@.last(),
            ).drop_last(),
            forall|r: int|
                0 <= r < after.table(at).entities@.len() ==> #[trigger] after.table(at).row(r)
                    == self.table(at).row(
                    if r == row {
                        self.table(at).entities@.len() - 1
                    } else {
                        r
                    },
                ),
            after.entities@ == self.entities_after_move(at, row).after_set(
                entity.index_spec(),
                EntityLocation::invalid(),
            ),
            other.wf(),
            other != entity,
        ensures
            after.values(other) == self.values(other),
    {
        let last = self.table(at).entities@.len() - 1;
        let mid = self.entities_after_move(at, row);
        self.moved_row_is_placed(mid, at, row, entity);
        assert(self.row_is_live(at, row));
        assert(self.has_row(at, last));
        assert(self.row_is_live(at, last));
        self.stored_entity_is_live(at, last);
        self.stored_entity_is_live(at, row);
        if self.entities@.location_of(other) is Some {
            self.live_entity_is_stored(other);
            let location = self.entities@.location_of(other)->0;
            let i = location.archetype_id.0 as int;
            let r = location.table_row.0 as int;
            assert(other.index_spec() != entity.index_spec());
            if i == at && r == last {
                assert(other == self.table(at).entities@[last]);
                assert(row < last);
                assert(after.entities@.location_of(other) == Some(location_at(at, row)));
                assert(after.table(at).row(row) == self.table(at).row(last));
            } else {
                if row < last && other.index_spec() == self.table(
                    at,
                ).entities@[last].index_spec() {
                    assert(other == self.table(at).entities@[last]);
                }
                assert(after.entities@.location_of(other) == Some(location));
                if i == at {
                    assert(r != row);
                    assert(after.table(at).row(r) == self.table(at).row(r));
                }
            }
        } else {
            assert(after.entities@.location_of(other) is None);
        }
    }
}

} // verus!
