//! Entities.
//!
//! An entity is named by an [`Entity`]: an index together with a generation that
//! tells apart the entities that used the index one after another.

pub mod allocator;
pub mod allocator_laws;
pub mod entities;
pub mod generation;
pub mod history;
pub mod laws;
pub mod location;
pub mod state_laws;

use core::cmp::Ordering;
use vstd::prelude::*;
use vstd::string::*;

use crate::entity::generation::Generation;
use crate::identifier::{Identifier, IdentifierError, IdKind, IdentifierMask, HIGH_MASK};
use crate::text::decimal_text;

verus! {

broadcast use crate::entity::generation::group_generation;

/// Lightweight identifier of an entity: an index and a generation.
///
/// Generations are nonzero and fit in 31 bits.
// The generation stands first so that the derived `Ord` compares it first.
#[derive(Clone, Copy, Eq, Ord)]
pub struct Entity {
    pub(crate) generation: Generation,
    pub(crate) index: u32,
}

impl Entity {
    /// Whether the generation is one that an entity can have.
    #[verifier::type_invariant]
    pub open(crate) spec fn wf(self) -> bool {
        1 <= self.generation_spec() <= HIGH_MASK
    }

    /// The index of this entity.
    pub open(crate) spec fn index_spec(self) -> u32 {
        self.index
    }

    /// The generation of this entity.
    pub open(crate) spec fn generation_spec(self) -> u32 {
        self.generation.value()
    }

    /// The packed form of this entity: the generation above the index.
    pub open spec fn bits(self) -> int {
        self.generation_spec() * 0x1_0000_0000 + self.index_spec()
    }

    /// Constructs an entity from an index and a generation.
    pub fn from_raw_and_generation(index: u32, generation: u32) -> (entity: Entity)
        requires
            1 <= generation <= HIGH_MASK,
        ensures
            entity.index_spec() == index,
            entity.generation_spec() == generation,
            entity.wf(),
    {
        Entity { generation: Generation::new(generation), index }
    }

    /// Creates an entity with the given index and a generation of 1.
    pub fn from_raw(index: u32) -> (entity: Entity)
        ensures
            entity == Self::fresh(index),
            entity.index_spec() == index,
            entity.generation_spec() == 1,
            entity.wf(),
    {
        Self::from_raw_and_generation(index, 1)
    }

    /// The entity with the given index and a generation of 1.
    pub open(crate) spec fn fresh(index: u32) -> Entity {
        Entity { generation: Generation::of(1), index }
    }

    /// An entity that may not correspond to an actual entity, to be overwritten
    /// before it is used.
    pub fn placeholder() -> (entity: Entity)
        ensures
            entity == Self::fresh(u32::MAX),
            entity.index_spec() == u32::MAX,
            entity.generation_spec() == 1,
            entity.wf(),
    {
        Self::from_raw(u32::MAX)
    }

    /// Packs this entity into 64 bits.
    pub fn to_bits(self) -> (bits: u64)
        ensures
            bits == self.bits(),
    {
        IdentifierMask::pack_into_u64(self.index, self.generation.get())
    }

    /// Reconstructs an entity from bits that [`Entity::to_bits`] returned.
    pub fn from_bits(bits: u64) -> (entity: Entity)
        requires
            names_entity(bits),
        ensures
            entity.bits() == bits,
            entity.index_spec() == bits % 0x1_0000_0000,
            entity.generation_spec() == bits / 0x1_0000_0000,
            entity.wf(),
    {
        match Self::try_from_bits(bits) {
            Ok(entity) => entity,
            Err(_) => Self::placeholder(),
        }
    }

    /// Reconstructs an entity, or returns the bits if they name none.
    pub fn try_from_bits(bits: u64) -> (entity: Result<Entity, IdentifierError>)
        ensures
            names_entity(bits) ==> entity is Ok,
            entity matches Ok(e) ==> {
                &&& e.bits() == bits
                &&& e.index_spec() == bits % 0x1_0000_0000
                &&& e.generation_spec() == bits / 0x1_0000_0000
                &&& e.wf()
            },
            !names_entity(bits) ==> entity == Err::<Entity, IdentifierError>(
                IdentifierError::InvalidEntityId(bits),
            ),
    {
        if let Ok(id) = Identifier::try_from_bits(bits) {
            if id.kind() == IdKind::Entity {
                return Ok(Entity { generation: Generation::new(id.high()), index: id.low() });
            }
        }
        Err(IdentifierError::InvalidEntityId(bits))
    }

    /// Returns the index. No two live entities share one.
    pub fn index(self) -> (index: u32)
        ensures
            index == self.index_spec(),
    {
        self.index
    }

    /// Returns the generation: how often the index has been in use, this entity
    /// included.
    pub fn generation(self) -> (generation: u32)
        ensures
            generation == self.generation_spec(),
            1 <= generation <= HIGH_MASK,
    {
        proof {
            use_type_invariant(&self);
        }
        IdentifierMask::extract_value_from_high(self.generation.get())
    }

    /// Returns the position of this entity in a sparse array.
    pub fn sparse_set_index(&self) -> (position: usize)
        ensures
            position == self.index_spec(),
    {
        self.index as usize
    }

    /// Returns the first entity at a position of a sparse array. Only the low 32
    /// bits of the position count.
    pub fn get_sparse_set_index(value: usize) -> (entity: Entity)
        ensures
            entity == Self::fresh((value as int % 0x1_0000_0000) as u32),
            entity.index_spec() == value as int % 0x1_0000_0000,
    {
        let low: u32 = IdentifierMask::get_low(value as u64);
        Entity::from_raw(low)
    }

    /// Returns the short form: `{index}v{generation}`, or `PLACEHOLDER`.
    pub fn to_display_text(&self) -> (text: String)
        ensures
            text@ == self.display_spec(),
    {
        proof {
            use_type_invariant(self);
        }
        if *self == Self::placeholder() {
            String::from_str("PLACEHOLDER")
        } else {
            let mut text = decimal_text(self.index() as u64);
            text.append("v");
            text.append(decimal_text(self.generation() as u64).as_str());
            text
        }
    }

    /// Returns the full form: `{index}v{generation}#{bits}`, or `PLACEHOLDER`.
    pub fn to_debug_text(&self) -> (text: String)
        ensures
            text@ == self.debug_spec(),
    {
        proof {
            use_type_invariant(self);
        }
        if *self == Self::placeholder() {
            String::from_str("PLACEHOLDER")
        } else {
            let mut text = self.to_display_text();
            text.append("#");
            text.append(decimal_text(self.to_bits()).as_str());
            text
        }
    }

    /// The short form of this entity.
    pub open spec fn display_spec(self) -> Seq<char> {
        if self == Self::fresh(u32::MAX) {
            "PLACEHOLDER"@
        } else {
            crate::text::decimal(self.index_spec() as int) + "v"@ + crate::text::decimal(
                self.generation_spec() as int,
            )
        }
    }

    /// The full form of this entity.
    pub open spec fn debug_spec(self) -> Seq<char> {
        if self == Self::fresh(u32::MAX) {
            "PLACEHOLDER"@
        } else {
            self.display_spec() + "#"@ + crate::text::decimal(self.bits())
        }
    }
}

/// Whether `bits` are the packed form of an entity: the high segment is nonzero
/// and its top bit is clear.
pub open spec fn names_entity(bits: u64) -> bool {
    0x1_0000_0000 <= bits < 0x8000_0000_0000_0000
}

impl PartialEq for Entity {
    fn eq(&self, other: &Entity) -> (r: bool) {
        self.to_bits() == other.to_bits()
    }
}

impl vstd::std_specs::cmp::PartialEqSpecImpl for Entity {
    open spec fn obeys_eq_spec() -> bool {
        true
    }

    open spec fn eq_spec(&self, other: &Entity) -> bool {
        self.bits() == other.bits()
    }
}

impl PartialOrd for Entity {
    fn partial_cmp(&self, other: &Entity) -> (r: Option<Ordering>) {
        let a: u64 = self.to_bits();
        let b: u64 = other.to_bits();
        if a < b {
            Some(Ordering::Less)
        } else if a == b {
            Some(Ordering::Equal)
        } else {
            Some(Ordering::Greater)
        }
    }
}

impl vstd::std_specs::cmp::PartialOrdSpecImpl for Entity {
    open spec fn obeys_partial_cmp_spec() -> bool {
        true
    }

    open spec fn partial_cmp_spec(&self, other: &Entity) -> Option<Ordering> {
        if self.bits() < other.bits() {
            Some(Ordering::Less)
        } else if self.bits() == other.bits() {
            Some(Ordering::Equal)
        } else {
            Some(Ordering::Greater)
        }
    }
}

impl core::fmt::Debug for Entity {
    /// Writes the full form of this entity.
    fn fmt(&self, f: &mut core::fmt::Formatter<'_>) -> Result<(), core::fmt::Error> {
        f.write_str(self.to_debug_text().as_str())
    }
}

/// `u64::hash` of the standard library: feeds a number to a hasher. Nothing is claimed of what the
/// hasher makes of it.
pub assume_specification<H: core::hash::Hasher>[ <u64 as core::hash::Hash>::hash ](
    value: &u64,
    state: &mut H,
);

impl core::hash::Hash for Entity {
    /// Feeds the packed form of this entity to a hasher.
    fn hash<H: core::hash::Hasher>(&self, state: &mut H) {
        self.to_bits().hash(state);
    }
}

impl TryFrom<Identifier> for Entity {
    type Error = IdentifierError;

    fn try_from(value: Identifier) -> (entity: Result<Entity, IdentifierError>) {
        proof {
            use_type_invariant(&value);
        }
        Self::try_from_bits(value.to_bits())
    }
}

impl vstd::std_specs::convert::TryFromSpecImpl<Identifier> for Entity {
    open(crate) spec fn obeys_try_from_spec() -> bool {
        true
    }

    open(crate) spec fn try_from_spec(value: Identifier) -> Result<Entity, IdentifierError> {
        if value.bits() < 0x8000_0000_0000_0000 {
            Ok(Entity { generation: Generation::of(value.high), index: value.low })
        } else {
            Err(IdentifierError::InvalidEntityId(value.bits() as u64))
        }
    }
}

impl From<Entity> for Identifier {
    fn from(value: Entity) -> (id: Identifier) {
        proof {
            use_type_invariant(&value);
        }
        Identifier::from_bits(value.to_bits())
    }
}

impl vstd::std_specs::convert::FromSpecImpl<Entity> for Identifier {
    open(crate) spec fn obeys_from_spec() -> bool {
        true
    }

    open(crate) spec fn from_spec(value: Entity) -> Identifier {
        Identifier { low: value.index, high: value.generation.value() }
    }
}

/// The multiplier of [`EntityHash`]: its low half is 1, so that the low half of a
/// hash is the index, and its high half spreads the index over the high bits.
pub const UPPER_PHI: u64 = 0x9E37_79B9_0000_0001;

/// The hash of an entity with the given packed form.
#[verifier::opaque]
pub open spec fn hash_of_bits(bits: int) -> int {
    (bits * 0x9E37_79B9_0000_0001) % 0x1_0000_0000_0000_0000
}

/// Hashes entities.
#[derive(Clone, Copy, Debug)]
pub struct EntityHash;

impl EntityHash {
    /// Returns the hash of an entity.
    pub fn hash_one(&self, entity: Entity) -> (hash: u64)
        ensures
            hash == hash_of_bits(entity.bits()),
    {
        proof {
            reveal(hash_of_bits);
        }
        entity.to_bits().wrapping_mul(UPPER_PHI)
    }
}

/// An entity is determined by its packed form, and the packed form of every
/// entity names an entity: unpacking gives back what was packed.
pub proof fn entity_bits_roundtrip(packed: Entity, unpacked: Entity)
    requires
        packed.wf(),
        unpacked.wf(),
    ensures
        0 <= packed.bits() <= u64::MAX,
        names_entity(packed.bits() as u64),
        unpacked.bits() == packed.bits() ==> unpacked == packed,
{
}

/// Entities are equal exactly when they agree on index and generation.
pub proof fn entity_equality(a: Entity, b: Entity)
    ensures
        vstd::std_specs::cmp::PartialEqSpec::eq_spec(&a, &b) <==> a == b,
        a == b <==> a.index_spec() == b.index_spec() && a.generation_spec() == b.generation_spec(),
{
}

/// Entities are ordered by generation, and by index within a generation.
pub proof fn entity_order(a: Entity, b: Entity)
    ensures
        vstd::std_specs::cmp::PartialOrdSpec::partial_cmp_spec(&a, &b) == Some(Ordering::Less)
            <==> a.generation_spec() < b.generation_spec() || (a.generation_spec()
            == b.generation_spec() && a.index_spec() < b.index_spec()),
        vstd::std_specs::cmp::PartialOrdSpec::partial_cmp_spec(&a, &b) == Some(Ordering::Equal)
            <==> a == b,
        vstd::std_specs::cmp::PartialOrdSpec::partial_cmp_spec(&a, &b) is Some,
{
}

/// The low half of a hash is the index, so entities with nearby indices have
/// nearby hashes.
pub proof fn hash_keeps_similar_ids_together(a: Entity, b: Entity)
    ensures
        hash_of_bits(a.bits()) % 0x1_0000_0000 == a.index_spec(),
        (hash_of_bits(b.bits()) - hash_of_bits(a.bits())) % 0x1_0000_0000 == (b.index_spec()
            - a.index_spec()) % 0x1_0000_0000,
{
    hash_low_half(a.bits());
    hash_low_half(b.bits());
    low_half_of_bits(a);
    low_half_of_bits(b);
    difference_of_low_halves(
        hash_of_bits(b.bits()),
        hash_of_bits(a.bits()),
        b.index_spec() as int,
        a.index_spec() as int,
    );
}

/// The low half of a packed entity is the index.
proof fn low_half_of_bits(entity: Entity)
    ensures
        entity.bits() % 0x1_0000_0000 == entity.index_spec(),
{
}

/// The low half of a difference is that of the difference of the low halves.
proof fn difference_of_low_halves(x: int, y: int, low_x: int, low_y: int)
    requires
        x % 0x1_0000_0000 == low_x,
        y % 0x1_0000_0000 == low_y,
    ensures
        (x - y) % 0x1_0000_0000 == (low_x - low_y) % 0x1_0000_0000,
{
    vstd::arithmetic::div_mod::lemma_sub_mod_noop(x, y, 0x1_0000_0000);
}

/// The low half of a hash is the low half of what is hashed.
proof fn hash_low_half(bits: int)
    ensures
        hash_of_bits(bits) % 0x1_0000_0000 == bits % 0x1_0000_0000,
{
    reveal(hash_of_bits);
    let product: int = bits * 0x9E37_79B9_0000_0001;
    let high: int = bits * 0x9E37_79B9;
    assert(product == 0x1_0000_0000 * high + bits);
    vstd::arithmetic::div_mod::lemma_mod_mod(product, 0x1_0000_0000, 0x1_0000_0000);
    vstd::arithmetic::div_mod::lemma_mod_multiples_vanish(high, bits, 0x1_0000_0000);
}

/// Moving by an amount that is not close to a multiple of the range changes the
/// top seven bits.
proof fn top_bits_change(x: int, distance: int)
    requires
        0x0200_0000_0000_0000 <= distance % 0x1_0000_0000_0000_0000 <= 0xFE00_0000_0000_0000,
    ensures
        ((x + distance) % 0x1_0000_0000_0000_0000) / 0x0200_0000_0000_0000 != (x
            % 0x1_0000_0000_0000_0000) / 0x0200_0000_0000_0000,
{
}

/// Two entities of one generation whose indices differ in a single bit differ in
/// the top seven bits of their hashes.
pub proof fn hash_bitflip_affects_high_bits(a: Entity, b: Entity, bit: u32)
    requires
        bit < 32,
        a.generation_spec() == b.generation_spec(),
        b.index_spec() == a.index_spec() ^ (1u32 << bit),
    ensures
        hash_of_bits(a.bits()) / 0x0200_0000_0000_0000 != hash_of_bits(b.bits())
            / 0x0200_0000_0000_0000,
{
    reveal(hash_of_bits);
    let i: u32 = a.index_spec();
    let j: u32 = b.index_spec();
    let step: u32 = 1u32 << bit;
    assert(j == i + step || i == j + step) by (bit_vector)
        requires
            step == 1u32 << bit,
            j == i ^ step,
            bit < 32,
    ;
    let spread: u128 = (step * 0x9E37_79B9_0000_0001) as u128;
    assert(0x0200_0000_0000_0000 <= spread % 0x1_0000_0000_0000_0000 <= 0xFE00_0000_0000_0000)
        by (bit_vector)
        requires
            spread == step * 0x9E37_79B9_0000_0001u64,
            step == 1u32 << bit,
            bit < 32,
    ;
    if j == i + step {
        assert(b.bits() * 0x9E37_79B9_0000_0001 == a.bits() * 0x9E37_79B9_0000_0001 + spread);
        top_bits_change(a.bits() * 0x9E37_79B9_0000_0001, spread as int);
    } else {
        assert(a.bits() * 0x9E37_79B9_0000_0001 == b.bits() * 0x9E37_79B9_0000_0001 + spread);
        top_bits_change(b.bits() * 0x9E37_79B9_0000_0001, spread as int);
    }
}

/// The short form of an entity is its index, a `v`, and its generation. The full form goes on with
/// a `#` and its packed form.
pub proof fn texts_tell_the_parts(entity: Entity)
    requires
        entity != Entity::fresh(u32::MAX),
    ensures
        exists|k: int|
            {
                &&& 0 < k < entity.display_spec().len() - 1
                &&& #[trigger] entity.display_spec()[k] == 'v'
                &&& crate::text::number(entity.display_spec().take(k)) == entity.index_spec()
                &&& crate::text::number(entity.display_spec().skip(k + 1))
                    == entity.generation_spec()
            },
        ({
            let n = entity.display_spec().len() as int;
            &&& entity.debug_spec().len() > n + 1
            &&& entity.debug_spec().take(n) == entity.display_spec()
            &&& entity.debug_spec()[n] == '#'
            &&& crate::text::number(entity.debug_spec().skip(n + 1)) == entity.bits()
        }),
{
    reveal_strlit("v");
    reveal_strlit("#");
    let index = crate::text::decimal(entity.index_spec() as int);
    let generation = crate::text::decimal(entity.generation_spec() as int);
    let bits = crate::text::decimal(entity.bits());
    crate::text::decimal_stands_for_the_number(entity.index_spec() as int);
    crate::text::decimal_stands_for_the_number(entity.generation_spec() as int);
    crate::text::decimal_stands_for_the_number(entity.bits());
    let text = entity.display_spec();
    let k = index.len() as int;
    assert(text[k] == 'v');
    assert(text.take(k) =~= index);
    assert(text.skip(k + 1) =~= generation);
    let full = entity.debug_spec();
    assert(full.take(text.len() as int) =~= text);
    assert(full.skip(text.len() as int + 1) =~= bits);
}

/// The entity that stands for none has a name in place of its parts.
pub proof fn placeholder_is_named(entity: Entity)
    requires
        entity == Entity::fresh(u32::MAX),
    ensures
        entity.index_spec() == u32::MAX,
        entity.generation_spec() == 1,
        entity.display_spec() == "PLACEHOLDER"@,
        entity.debug_spec() == "PLACEHOLDER"@,
{
}

/// The hash of the next packed form is larger by a fixed amount, as far as 64 bits go.
pub proof fn hashes_are_spread_evenly(bits: int)
    requires
        0 <= bits,
    ensures
        hash_of_bits(0) == 0,
        hash_of_bits(bits + 1) == (hash_of_bits(bits) + 0x9E37_79B9_0000_0001)
            % 0x1_0000_0000_0000_0000,
{
    reveal(hash_of_bits);
    let product: int = bits * 0x9E37_79B9_0000_0001;
    assert((bits + 1) * 0x9E37_79B9_0000_0001 == product + 0x9E37_79B9_0000_0001);
    vstd::arithmetic::div_mod::lemma_add_mod_noop(
        product,
        0x9E37_79B9_0000_0001,
        0x1_0000_0000_0000_0000,
    );
}

/// The high half of the packed form of an entity is its generation, and the low half is its index.
/// Bits are the packed form of an entity exactly if their high half is a generation that an entity
/// can have.
pub proof fn packed_form_has_two_halves(entity: Entity, bits: u64)
    requires
        entity.wf(),
    ensures
        entity.bits() / 0x1_0000_0000 == entity.generation_spec(),
        entity.bits() % 0x1_0000_0000 == entity.index_spec(),
        names_entity(bits) <==> 1 <= bits / 0x1_0000_0000 <= 0x7FFF_FFFF,
        entity.bits() == bits ==> names_entity(bits),
{
}

/// An identifier that is made from an entity has the same packed form, and the entity can be made
/// from it again. An identifier that is not one of an entity is refused, with its packed form.
pub proof fn entities_are_identifiers(entity: Entity, id: Identifier)
    requires
        entity.wf(),
        id.wf(),
    ensures
        ({
            let made = <Identifier as vstd::std_specs::convert::FromSpec<Entity>>::from_spec(
                entity,
            );
            let back = <Entity as vstd::std_specs::convert::TryFromSpec<Identifier>>::try_from_spec(
                made,
            );
            let tried = <Entity as vstd::std_specs::convert::TryFromSpec<Identifier>>::try_from_spec(
                id,
            );
            &&& made.bits() == entity.bits()
            &&& back is Ok && back->Ok_0 == entity
            &&& tried is Ok <==> id.bits() / 0x1_0000_0000 <= 0x7FFF_FFFF
            &&& tried is Ok ==> tried->Ok_0.bits() == id.bits()
            &&& tried is Err ==> tried->Err_0 == IdentifierError::InvalidEntityId(id.bits() as u64)
        }),
{
}

} // verus!
