//! Where the components of entities are stored.

use vstd::prelude::*;

use crate::component::{find_component, Component, ComponentId};
use crate::entity::location::TableId;
use crate::entity::Entity;

verus! {

/// The ids of some components.
pub open spec fn ids_of(components: Seq<Component>) -> Seq<ComponentId> {
    components.map_values(|component: Component| component.id)
}

/// The values of one component of the entities of a table.
pub struct Column {
    /// The component.
    pub component: ComponentId,
    /// The value of each row.
    pub values: Vec<u64>,
}

/// The entities of an archetype, a row for each, and the values of their components.
pub struct Table {
    /// The entity of each row.
    pub entities: Vec<Entity>,
    /// A column for each component.
    pub columns: Vec<Column>,
}

impl Table {
    /// Whether there is a column for each of the given components, with a value in each
    /// row.
    pub open spec fn wf(self, components: Seq<ComponentId>) -> bool {
        &&& self.columns@.len() == components.len()
        &&& forall|c: int|
            #![trigger self.columns@[c]]
            #![trigger components[c]]
            0 <= c < components.len() ==> self.columns@[c].component == components[c]
                && self.columns@[c].values@.len() == self.entities@.len()
    }

    /// Whether a column is that of a component.
    pub open spec fn is_column(self, c: int, id: ComponentId) -> bool {
        0 <= c < self.columns@.len() && self.columns@[c].component == id
    }

    /// Whether a column is the first one of a component.
    pub open spec fn is_first_column(self, c: int, id: ComponentId) -> bool {
        self.is_column(c, id) && forall|d: int| 0 <= d < c ==> !self.is_column(d, id)
    }

    /// The first column of a component.
    pub open spec fn first_column(self, id: ComponentId) -> int {
        choose|c: int| self.is_first_column(c, id)
    }

    /// There is only one first column of a component.
    pub proof fn first_column_is(self, id: ComponentId, c: int)
        requires
            self.is_first_column(c, id),
        ensures
            self.first_column(id) == c,
    {
        let first = self.first_column(id);
        if first < c {
            assert(!self.is_column(first, id));
        } else if c < first {
            assert(!self.is_column(c, id));
        }
    }

    /// If a component has a column, it has a first one.
    pub proof fn first_column_exists(self, id: ComponentId, c: int)
        requires
            self.is_column(c, id),
        ensures
            self.is_first_column(self.first_column(id), id),
            self.first_column(id) <= c,
        decreases c,
    {
        if exists|d: int| 0 <= d < c && self.is_column(d, id) {
            let d = choose|d: int| 0 <= d < c && self.is_column(d, id);
            self.first_column_exists(id, d);
        } else {
            assert(self.is_first_column(c, id));
            self.first_column_is(id, c);
        }
    }

    /// The components in a row.
    pub open spec fn row(self, row: int) -> Seq<Component> {
        Seq::new(
            self.columns@.len(),
            |c: int|
                Component {
                    id: self.columns@[c].component,
                    value: self.columns@[c].values@[row],
                },
        )
    }

    /// Creates a table without rows, with a column for each of the given components.
    pub fn new(components: &Vec<Component>) -> (table: Self)
        ensures
            table.entities@.len() == 0,
            table.wf(ids_of(components@)),
    {
        let mut columns: Vec<Column> = Vec::new();
        let mut c: usize = 0;
        while c < components.len()
            invariant
                c <= components@.len(),
                columns@.len() == c,
                forall|k: int|
                    0 <= k < c ==> (#[trigger] columns@[k]).component == components@[k].id
                        && columns@[k].values@.len() == 0,
            decreases components@.len() - c,
        {
            columns.push(Column { component: components[c].id, values: Vec::new() });
            c = c + 1;
        }
        Table { entities: Vec::new(), columns }
    }

    /// Adds a row with the given components, which are those of the table in any order.
    pub fn push(&mut self, entity: Entity, components: &Vec<Component>)
        requires
            old(self).wf(ids_of(old(self).row(0))),
            forall|c: int|
                0 <= c < old(self).columns@.len() ==> crate::component::has_component(
                    components@,
                    (#[trigger] old(self).columns@[c]).component,
                ),
        ensures
            final(self).entities@ == old(self).entities@.push(entity),
            final(self).wf(ids_of(old(self).row(0))),
            forall|r: int|
                0 <= r < old(self).entities@.len() ==> #[trigger] final(self).row(r) == old(
                    self,
                ).row(r),
            forall|c: int|
                0 <= c < old(self).columns@.len() ==> components@.contains(
                    #[trigger] final(self).row(old(self).entities@.len() as int)[c],
                ),
    {
        let ghost start = *self;
        let ghost len = self.entities@.len() as int;
        self.entities.push(entity);
        let mut c: usize = 0;
        while c < self.columns.len()
            invariant
                start.wf(ids_of(start.row(0))),
                len == start.entities@.len(),
                c <= self.columns@.len(),
                self.columns@.len() == start.columns@.len(),
                self.entities@ == start.entities@.push(entity),
                forall|k: int|
                    0 <= k < start.columns@.len() ==> crate::component::has_component(
                        components@,
                        (#[trigger] start.columns@[k]).component,
                    ),
                forall|k: int|
                    c <= k < start.columns@.len() ==> #[trigger] self.columns@[k]
                        == start.columns@[k],
                forall|k: int|
                    0 <= k < c ==> {
                        &&& (#[trigger] self.columns@[k]).component == start.columns@[k].component
                        &&& self.columns@[k].values@.len() == len + 1
                        &&& self.columns@[k].values@.take(len) == start.columns@[k].values@
                        &&& components@.contains(
                            Component {
                                id: self.columns@[k].component,
                                value: self.columns@[k].values@[len],
                            },
                        )
                    },
            decreases self.columns@.len() - c,
        {
            let id = self.columns[c].component;
            assert(start.columns@[c as int].values@.len() == len) by {
                assert(ids_of(start.row(0))[c as int] == start.columns@[c as int].component);
            }
            match find_component(components, id) {
                Some(i) => {
                    let value: u64 = components[i].value;
                    let ghost before = self.columns@[c as int].values@;
                    assert(components@[i as int] == (Component { id, value }));
                    self.columns[c].values.push(value);
                    assert(self.columns@[c as int].values@.take(len) =~= before);
                },
                None => {
                    assert(crate::component::has_component(
                        components@,
                        start.columns@[c as int].component,
                    ));
                },
            }
            c = c + 1;
        }
        proof {
            assert forall|r: int| 0 <= r < len implies #[trigger] self.row(r) == start.row(r) by {
                assert forall|k: int| 0 <= k < start.columns@.len() implies self.row(r)[k]
                    == start.row(r)[k] by {
                    assert(self.columns@[k].values@.take(len)[r] == start.columns@[k].values@[r]);
                }
                assert(self.row(r) =~= start.row(r));
            }
        }
    }

    /// Takes out a row. The last row takes its place.
    pub fn swap_remove(&mut self, row: usize) -> (components: Vec<Component>)
        requires
            old(self).wf(ids_of(old(self).row(0))),
            row < old(self).entities@.len(),
        ensures
            components@ == old(self).row(row as int),
            final(self).entities@ == old(self).entities@.update(
                row as int,
                old(self).entities@.last(),
            ).drop_last(),
            final(self).wf(ids_of(old(self).row(0))),
            forall|r: int|
                0 <= r < final(self).entities@.len() ==> #[trigger] final(self).row(r) == old(
                    self,
                ).row(
                    if r == row {
                        old(self).entities@.len() - 1
                    } else {
                        r
                    },
                ),
    {
        let ghost start = *self;
        let ghost len = self.entities@.len() as int;
        let mut components: Vec<Component> = Vec::new();
        self.entities.swap_remove(row);
        let mut c: usize = 0;
        while c < self.columns.len()
            invariant
                start.wf(ids_of(start.row(0))),
                len == start.entities@.len(),
                row < len,
                c <= self.columns@.len(),
                self.columns@.len() == start.columns@.len(),
                self.entities@ == start.entities@.update(
                    row as int,
                    start.entities@.last(),
                ).drop_last(),
                components@ == start.row(row as int).take(c as int),
                forall|k: int|
                    c <= k < start.columns@.len() ==> #[trigger] self.columns@[k]
                        == start.columns@[k],
                forall|k: int|
                    0 <= k < c ==> {
                        &&& (#[trigger] self.columns@[k]).component == start.columns@[k].component
                        &&& self.columns@[k].values@ == start.columns@[k].values@.update(
                            row as int,
                            start.columns@[k].values@.last(),
                        ).drop_last()
                        &&& start.columns@[k].values@.len() == len
                    },
            decreases self.columns@.len() - c,
        {
            let id = self.columns[c].component;
            assert(start.columns@[c as int].values@.len() == len) by {
                assert(ids_of(start.row(0))[c as int] == start.columns@[c as int].component);
            }
            let value: u64 = self.columns[c].values.swap_remove(row);
            components.push(Component { id, value });
            assert(components@ =~= start.row(row as int).take(c + 1));
            c = c + 1;
        }
        assert(start.row(row as int).take(c as int) =~= start.row(row as int));
        proof {
            assert forall|r: int| 0 <= r < len - 1 implies #[trigger] self.row(r) == start.row(
                if r == row {
                    len - 1
                } else {
                    r
                },
            ) by {
                let from = if r == row {
                    len - 1
                } else {
                    r
                };
                assert forall|k: int| 0 <= k < start.columns@.len() implies self.row(r)[k]
                    == start.row(from)[k] by {
                    assert(self.columns@[k].values@[r] == start.columns@[k].values@[from]);
                }
                assert(self.row(r) =~= start.row(from));
            }
        }
        components
    }

    /// Takes out all rows.
    pub fn clear(&mut self)
        requires
            old(self).wf(ids_of(old(self).row(0))),
        ensures
            final(self).entities@.len() == 0,
            final(self).wf(ids_of(old(self).row(0))),
    {
        let ghost start = *self;
        self.entities.clear();
        let mut c: usize = 0;
        while c < self.columns.len()
            invariant
                c <= self.columns@.len(),
                self.columns@.len() == start.columns@.len(),
                self.entities@.len() == 0,
                forall|k: int|
                    0 <= k < start.columns@.len() ==> (#[trigger] self.columns@[k]).component
                        == start.columns@[k].component,
                forall|k: int| 0 <= k < c ==> (#[trigger] self.columns@[k]).values@.len() == 0,
            decreases self.columns@.len() - c,
        {
            self.columns[c].values.clear();
            c = c + 1;
        }
    }

    /// Returns the column of a component, if there is one.
    pub fn find_column(&self, id: ComponentId) -> (column: Option<usize>)
        ensures
            column is Some <==> exists|c: int| self.is_column(c, id),
            column matches Some(c) ==> self.is_first_column(c as int, id),
    {
        let mut c: usize = 0;
        while c < self.columns.len()
            invariant
                c <= self.columns@.len(),
                forall|d: int| 0 <= d < c ==> !self.is_column(d, id),
            decreases self.columns@.len() - c,
        {
            if self.columns[c].component == id {
                assert(self.is_column(c as int, id));
                return Some(c);
            }
            c = c + 1;
        }
        None
    }
}

/// All tables of a world, by their id.
pub struct Tables {
    /// The tables.
    pub tables: Vec<Table>,
}

impl Tables {
    /// Returns the table with an id.
    pub fn get(&self, id: TableId) -> (table: Option<&Table>)
        ensures
            id.0 < self.tables@.len() ==> table == Some(&self.tables@[id.0 as int]),
            id.0 >= self.tables@.len() ==> table is None,
    {
        if (id.0 as usize) < self.tables.len() {
            Some(&self.tables[id.0 as usize])
        } else {
            None
        }
    }
}

/// A row has a component for each column, with the value that the column has in the row.
pub proof fn row_goes_across_the_columns(table: Table, row: int, c: int)
    requires
        0 <= c < table.columns@.len(),
    ensures
        table.row(row).len() == table.columns@.len(),
        table.row(row)[c].id == table.columns@[c].component,
        table.row(row)[c].value == table.columns@[c].values@[row],
{
}

} // verus!
