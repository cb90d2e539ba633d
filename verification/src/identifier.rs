//! Packed 64-bit identifiers.
//!
//! An [`Identifier`] is made of a low 32-bit segment and a nonzero high 32-bit
//! segment. The top bit of the high segment tells the kind of the identifier,
//! the remaining 31 bits hold a value.

use vstd::prelude::*;

verus! {

/// The bits of the high segment that hold a value.
pub const HIGH_MASK: u32 = 0x7FFF_FFFF;

/// What an [`Identifier`] identifies.
#[derive(Clone, Copy, Debug, PartialEq, Eq, Structural)]
pub enum IdKind {
    /// An entity.
    Entity,
    /// Anything that is not an entity.
    Placeholder,
}

/// Why a value is not an identifier.
#[derive(Clone, Copy, Debug, PartialEq, Eq, Structural)]
pub enum IdentifierError {
    /// The high segment is zero.
    InvalidIdentifier,
    /// The bits do not form an entity.
    InvalidEntityId(u64),
}

/// The generation that is `offset` steps after `generation`.
///
/// Generations run through `1..=HIGH_MASK` and start again at 1. Only the value
/// bits of `offset` count.
pub open spec fn generation_after(generation: int, offset: int) -> int {
    (generation - 1 + offset % 0x8000_0000) % 0x7FFF_FFFF + 1
}

/// Bit-level operations on packed identifiers.
pub struct IdentifierMask;

impl IdentifierMask {
    /// Returns the low segment of a packed identifier.
    pub fn get_low(value: u64) -> (low: u32)
        ensures
            low == value % 0x1_0000_0000,
    {
        let low: u32 = #[verifier::truncate] (value as u32);
        assert(low == value % 0x1_0000_0000) by (bit_vector)
            requires
                low == value as u32,
        ;
        low
    }

    /// Returns the high segment of a packed identifier.
    pub fn get_high(value: u64) -> (high: u32)
        ensures
            high == value / 0x1_0000_0000,
    {
        assert(value >> 32 == value / 0x1_0000_0000) by (bit_vector);
        (value >> 32) as u32
    }

    /// Packs two segments into one value.
    pub fn pack_into_u64(low: u32, high: u32) -> (bits: u64)
        ensures
            bits == high * 0x1_0000_0000 + low,
    {
        let h: u64 = high as u64;
        let l: u64 = low as u64;
        assert((h << 32) | l == h * 0x1_0000_0000 + l) by (bit_vector)
            requires
                h <= 0xFFFF_FFFF,
                l <= 0xFFFF_FFFF,
        ;
        (h << 32) | l
    }

    /// Returns the value bits of a high segment, without the kind.
    pub fn extract_value_from_high(high: u32) -> (value: u32)
        ensures
            value == high % 0x8000_0000,
    {
        assert(high & 0x7FFF_FFFF == high % 0x8000_0000) by (bit_vector);
        high & HIGH_MASK
    }

    /// Returns the kind that a high segment carries.
    pub fn extract_kind_from_high(high: u32) -> (kind: IdKind)
        ensures
            kind == (if high >= 0x8000_0000 { IdKind::Placeholder } else { IdKind::Entity }),
    {
        let kind_mask: u32 = 0x8000_0000;
        assert((high & 0x8000_0000 == 0x8000_0000) <==> high >= 0x8000_0000) by (bit_vector);
        if high & kind_mask == kind_mask {
            IdKind::Placeholder
        } else {
            IdKind::Entity
        }
    }

    /// Offsets a generation, wrapping to 1 instead of 0.
    pub fn inc_masked_high_by(lhs: u32, rhs: u32) -> (generation: u32)
        requires
            1 <= lhs <= HIGH_MASK,
        ensures
            generation == generation_after(lhs as int, rhs as int),
            1 <= generation <= HIGH_MASK,
    {
        assert(lhs & 0x7FFF_FFFF == lhs) by (bit_vector)
            requires
                lhs <= 0x7FFF_FFFF,
        ;
        assert(rhs & 0x7FFF_FFFF == rhs % 0x8000_0000) by (bit_vector);
        let lo: u32 = (lhs & HIGH_MASK) + (rhs & HIGH_MASK);
        let overflowed: u32 = lo >> 31;
        assert(overflowed == (if lo >= 0x8000_0000 { 1u32 } else { 0u32 })) by (bit_vector)
            requires
                overflowed == lo >> 31,
        ;
        let sum: u32 = lo + overflowed;
        assert(sum & 0x7FFF_FFFF == sum % 0x8000_0000) by (bit_vector);
        sum & HIGH_MASK
    }
}

/// A unique identifier: a low segment and a nonzero high segment.
#[derive(Clone, Copy, Debug, PartialEq, Eq, Structural)]
pub struct Identifier {
    pub(crate) low: u32,
    pub(crate) high: u32,
}

impl Identifier {
    #[verifier::type_invariant]
    pub open(crate) spec fn wf(self) -> bool {
        self.high != 0
    }

    /// The packed form of this identifier.
    pub open(crate) spec fn bits(self) -> int {
        self.high * 0x1_0000_0000 + self.low
    }

    /// Returns the low segment.
    pub fn low(self) -> (low: u32)
        ensures
            low == self.bits() % 0x1_0000_0000,
    {
        self.low
    }

    /// Returns the high segment, kind included.
    pub fn high(self) -> (high: u32)
        ensures
            high == self.bits() / 0x1_0000_0000,
            high != 0,
    {
        proof {
            use_type_invariant(&self);
        }
        self.high
    }

    /// Returns the kind of this identifier.
    pub fn kind(self) -> (kind: IdKind)
        ensures
            kind == (if self.bits() >= 0x8000_0000_0000_0000 {
                IdKind::Placeholder
            } else {
                IdKind::Entity
            }),
    {
        IdentifierMask::extract_kind_from_high(self.high)
    }

    /// Packs this identifier.
    pub fn to_bits(self) -> (bits: u64)
        ensures
            bits == self.bits(),
    {
        IdentifierMask::pack_into_u64(self.low, self.high)
    }

    /// Unpacks an identifier from bits whose high segment is nonzero.
    pub fn from_bits(bits: u64) -> (id: Self)
        requires
            bits >= 0x1_0000_0000,
        ensures
            id.bits() == bits,
    {
        Identifier { low: IdentifierMask::get_low(bits), high: IdentifierMask::get_high(bits) }
    }

    /// Unpacks an identifier, or tells that the high segment is zero.
    pub fn try_from_bits(bits: u64) -> (id: Result<Self, IdentifierError>)
        ensures
            bits >= 0x1_0000_0000 ==> id is Ok && id->Ok_0.bits() == bits,
            bits < 0x1_0000_0000 ==> id == Err::<Self, IdentifierError>(
                IdentifierError::InvalidIdentifier,
            ),
    {
        let high: u32 = IdentifierMask::get_high(bits);
        if high == 0 {
            Err(IdentifierError::InvalidIdentifier)
        } else {
            Ok(Identifier { low: IdentifierMask::get_low(bits), high })
        }
    }
}

/// Stepping a generation by a number of steps and then by more is stepping it by
/// their sum, as long as the sum stays within the value bits.
pub proof fn generation_steps_add(generation: int, first: int, second: int)
    requires
        1 <= generation <= HIGH_MASK,
        0 <= first,
        0 <= second,
        first + second <= HIGH_MASK,
    ensures
        generation_after(generation_after(generation, first), second) == generation_after(
            generation,
            first + second,
        ),
{
    vstd::arithmetic::div_mod::lemma_add_mod_noop_right(second, generation - 1 + first, 0x7FFF_FFFF);
}

/// A generation repeats only after a full cycle: fewer than [`HIGH_MASK`] steps,
/// and at least one, always lead to another generation.
pub proof fn generation_changes(generation: int, steps: int)
    requires
        1 <= generation <= HIGH_MASK,
        1 <= steps < HIGH_MASK,
    ensures
        generation_after(generation, steps) != generation,
        1 <= generation_after(generation, steps) <= HIGH_MASK,
{
}

/// A generation that is so many steps later is larger by as many, unless it is beyond the last one.
/// Then it starts again at 1. Of the number of steps only the low 31 bits count.
pub proof fn generations_count_up(generation: int, steps: int)
    requires
        1 <= generation <= HIGH_MASK,
        0 <= steps <= HIGH_MASK,
    ensures
        generation + steps <= HIGH_MASK ==> generation_after(generation, steps) == generation
            + steps,
        generation + steps > HIGH_MASK ==> generation_after(generation, steps) == generation
            + steps - HIGH_MASK,
        generation_after(generation, steps + 0x8000_0000) == generation_after(generation, steps),
{
}

} // verus!
