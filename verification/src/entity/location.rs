//! Where entities are stored, and where in the source they were spawned.

use vstd::prelude::*;
use vstd::string::*;

use crate::text::{decimal_text};

verus! {

/// The id of an archetype.
#[derive(Clone, Copy, Debug, PartialEq, Eq, Structural, Hash, PartialOrd, Ord)]
pub struct ArchetypeId(pub u32);

/// The row of an entity within its archetype.
#[derive(Clone, Copy, Debug, PartialEq, Eq, Structural, Hash, PartialOrd, Ord)]
pub struct ArchetypeRow(pub u32);

/// The id of a table.
#[derive(Clone, Copy, Debug, PartialEq, Eq, Structural, Hash, PartialOrd, Ord)]
pub struct TableId(pub u32);

/// The row of an entity within its table.
#[derive(Clone, Copy, Debug, PartialEq, Eq, Structural, Hash, PartialOrd, Ord)]
pub struct TableRow(pub u32);

impl ArchetypeId {
    /// The id that no archetype has.
    #[verifier::allow_in_spec]
    pub fn invalid() -> Self
        returns
            ArchetypeId(u32::MAX),
    {
        ArchetypeId(u32::MAX)
    }

    /// Creates an id from its index.
    pub fn new(index: u32) -> (id: Self)
        ensures
            id == ArchetypeId(index),
    {
        ArchetypeId(index)
    }

    /// Returns the index of this id.
    pub fn index(self) -> (index: usize)
        ensures
            index == self.0,
    {
        self.0 as usize
    }
}

impl ArchetypeRow {
    /// The row that no entity has.
    #[verifier::allow_in_spec]
    pub fn invalid() -> Self
        returns
            ArchetypeRow(u32::MAX),
    {
        ArchetypeRow(u32::MAX)
    }

    /// Creates a row from its index.
    pub fn new(index: u32) -> (row: Self)
        ensures
            row == ArchetypeRow(index),
    {
        ArchetypeRow(index)
    }
}

impl TableId {
    /// The id that no table has.
    #[verifier::allow_in_spec]
    pub fn invalid() -> Self
        returns
            TableId(u32::MAX),
    {
        TableId(u32::MAX)
    }

    /// Creates an id from its index.
    pub fn from_u32(index: u32) -> (id: Self)
        ensures
            id == TableId(index),
    {
        TableId(index)
    }
}

impl TableRow {
    /// The row that no entity has.
    #[verifier::allow_in_spec]
    pub fn invalid() -> Self
        returns
            TableRow(u32::MAX),
    {
        TableRow(u32::MAX)
    }

    /// Creates a row from its index.
    pub fn from_u32(index: u32) -> (row: Self)
        ensures
            row == TableRow(index),
    {
        TableRow(index)
    }
}

/// The location of an entity in an archetype and in a table.
#[derive(Clone, Copy, Debug, PartialEq, Eq, Structural)]
pub struct EntityLocation {
    /// The archetype that the entity belongs to.
    pub archetype_id: ArchetypeId,
    /// The row of the entity within its archetype.
    pub archetype_row: ArchetypeRow,
    /// The table that the entity belongs to.
    pub table_id: TableId,
    /// The row of the entity within its table.
    pub table_row: TableRow,
}

impl EntityLocation {
    /// The location of an entity that is stored nowhere.
    #[verifier::allow_in_spec]
    pub fn invalid() -> Self
        returns
            (EntityLocation {
                archetype_id: ArchetypeId::invalid(),
                archetype_row: ArchetypeRow::invalid(),
                table_id: TableId::invalid(),
                table_row: TableRow::invalid(),
            }),
    {
        EntityLocation {
            archetype_id: ArchetypeId::invalid(),
            archetype_row: ArchetypeRow::invalid(),
            table_id: TableId::invalid(),
            table_row: TableRow::invalid(),
        }
    }

    /// Whether this is the location of an entity that is stored somewhere.
    pub fn is_valid(&self) -> (valid: bool)
        ensures
            valid == self.valid(),
    {
        self.archetype_id != ArchetypeId::invalid()
    }

    /// Whether this is the location of an entity that is stored somewhere.
    pub open spec fn valid(self) -> bool {
        self.archetype_id != ArchetypeId::invalid()
    }
}

/// A place in the source code.
#[derive(Clone, Copy, Debug, PartialEq, Eq, Hash, PartialOrd, Ord)]
pub struct Location {
    /// The file.
    pub file: &'static str,
    /// The line, counted from 1.
    pub line: u32,
    /// The column, counted from 1.
    pub column: u32,
}

impl Location {
    /// The text form of this place.
    pub open spec fn text_spec(self) -> Seq<char> {
        self.file@ + ":"@ + crate::text::decimal(self.line as int) + ":"@ + crate::text::decimal(
            self.column as int,
        )
    }

    /// Returns the text form: `{file}:{line}:{column}`.
    pub fn to_text(&self) -> (text: String)
        ensures
            text@ == self.text_spec(),
    {
        let mut text = String::from_str(self.file);
        text.append(":");
        text.append(decimal_text(self.line as u64).as_str());
        text.append(":");
        text.append(decimal_text(self.column as u64).as_str());
        text
    }
}

/// A value that is there only where source locations are tracked.
#[derive(Clone, Copy, Debug, PartialEq, Eq, Hash, PartialOrd, Ord)]
pub enum MaybeLocation<T> {
    /// Locations are not tracked.
    Off,
    /// Locations are tracked, and this is the value.
    On(T),
}

impl<T> MaybeLocation<T> {
    /// Turns this into an option that is `None` where locations are not tracked.
    pub fn into_option(self) -> (value: Option<T>)
        ensures
            value == (match self {
                MaybeLocation::Off => None,
                MaybeLocation::On(value) => Some(value),
            }),
    {
        match self {
            MaybeLocation::Off => None,
            MaybeLocation::On(value) => Some(value),
        }
    }
}

/// The text form of a place is the file, the line and the column, with colons between them.
pub proof fn text_tells_the_place(place: Location)
    ensures
        place.text_spec().take(place.file@.len() as int) == place.file@,
        place.text_spec()[place.file@.len() as int] == ':',
        exists|k: int|
            {
                &&& place.file@.len() + 1 < k < place.text_spec().len() - 1
                &&& #[trigger] place.text_spec()[k] == ':'
                &&& crate::text::number(
                    place.text_spec().subrange(place.file@.len() as int + 1, k),
                ) == place.line
                &&& crate::text::number(place.text_spec().skip(k + 1)) == place.column
            },
{
    reveal_strlit(":");
    let text = place.text_spec();
    let line = crate::text::decimal(place.line as int);
    let column = crate::text::decimal(place.column as int);
    crate::text::decimal_stands_for_the_number(place.line as int);
    crate::text::decimal_stands_for_the_number(place.column as int);
    let n = place.file@.len() as int;
    let k = n + 1 + line.len();
    assert(text.take(n) =~= place.file@);
    assert(text[k] == ':');
    assert(text.subrange(n + 1, k) =~= line);
    assert(text.skip(k + 1) =~= column);
}

} // verus!
