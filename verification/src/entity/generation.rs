//! The generations of entities.

use vstd::prelude::*;

use crate::identifier::HIGH_MASK;

verus! {

/// The high seven bits of a generation, with one variant for each value.
///
/// Half of the values of the byte are left for other uses: an optional entity is no larger than
/// an entity.
#[derive(Clone, Copy, PartialEq, Eq, PartialOrd, Ord, Structural)]
pub enum HighBits {
    B0,
    B1,
    B2,
    B3,
    B4,
    B5,
    B6,
    B7,
    B8,
    B9,
    B10,
    B11,
    B12,
    B13,
    B14,
    B15,
    B16,
    B17,
    B18,
    B19,
    B20,
    B21,
    B22,
    B23,
    B24,
    B25,
    B26,
    B27,
    B28,
    B29,
    B30,
    B31,
    B32,
    B33,
    B34,
    B35,
    B36,
    B37,
    B38,
    B39,
    B40,
    B41,
    B42,
    B43,
    B44,
    B45,
    B46,
    B47,
    B48,
    B49,
    B50,
    B51,
    B52,
    B53,
    B54,
    B55,
    B56,
    B57,
    B58,
    B59,
    B60,
    B61,
    B62,
    B63,
    B64,
    B65,
    B66,
    B67,
    B68,
    B69,
    B70,
    B71,
    B72,
    B73,
    B74,
    B75,
    B76,
    B77,
    B78,
    B79,
    B80,
    B81,
    B82,
    B83,
    B84,
    B85,
    B86,
    B87,
    B88,
    B89,
    B90,
    B91,
    B92,
    B93,
    B94,
    B95,
    B96,
    B97,
    B98,
    B99,
    B100,
    B101,
    B102,
    B103,
    B104,
    B105,
    B106,
    B107,
    B108,
    B109,
    B110,
    B111,
    B112,
    B113,
    B114,
    B115,
    B116,
    B117,
    B118,
    B119,
    B120,
    B121,
    B122,
    B123,
    B124,
    B125,
    B126,
    B127,
}

impl HighBits {
    /// The variant with the given value.
    pub open spec fn of(bits: u8) -> HighBits {
        match bits {
            0 => HighBits::B0,
            1 => HighBits::B1,
            2 => HighBits::B2,
            3 => HighBits::B3,
            4 => HighBits::B4,
            5 => HighBits::B5,
            6 => HighBits::B6,
            7 => HighBits::B7,
            8 => HighBits::B8,
            9 => HighBits::B9,
            10 => HighBits::B10,
            11 => HighBits::B11,
            12 => HighBits::B12,
            13 => HighBits::B13,
            14 => HighBits::B14,
            15 => HighBits::B15,
            16 => HighBits::B16,
            17 => HighBits::B17,
            18 => HighBits::B18,
            19 => HighBits::B19,
            20 => HighBits::B20,
            21 => HighBits::B21,
            22 => HighBits::B22,
            23 => HighBits::B23,
            24 => HighBits::B24,
            25 => HighBits::B25,
            26 => HighBits::B26,
            27 => HighBits::B27,
            28 => HighBits::B28,
            29 => HighBits::B29,
            30 => HighBits::B30,
            31 => HighBits::B31,
            32 => HighBits::B32,
            33 => HighBits::B33,
            34 => HighBits::B34,
            35 => HighBits::B35,
            36 => HighBits::B36,
            37 => HighBits::B37,
            38 => HighBits::B38,
            39 => HighBits::B39,
            40 => HighBits::B40,
            41 => HighBits::B41,
            42 => HighBits::B42,
            43 => HighBits::B43,
            44 => HighBits::B44,
            45 => HighBits::B45,
            46 => HighBits::B46,
            47 => HighBits::B47,
            48 => HighBits::B48,
            49 => HighBits::B49,
            50 => HighBits::B50,
            51 => HighBits::B51,
            52 => HighBits::B52,
            53 => HighBits::B53,
            54 => HighBits::B54,
            55 => HighBits::B55,
            56 => HighBits::B56,
            57 => HighBits::B57,
            58 => HighBits::B58,
            59 => HighBits::B59,
            60 => HighBits::B60,
            61 => HighBits::B61,
            62 => HighBits::B62,
            63 => HighBits::B63,
            64 => HighBits::B64,
            65 => HighBits::B65,
            66 => HighBits::B66,
            67 => HighBits::B67,
            68 => HighBits::B68,
            69 => HighBits::B69,
            70 => HighBits::B70,
            71 => HighBits::B71,
            72 => HighBits::B72,
            73 => HighBits::B73,
            74 => HighBits::B74,
            75 => HighBits::B75,
            76 => HighBits::B76,
            77 => HighBits::B77,
            78 => HighBits::B78,
            79 => HighBits::B79,
            80 => HighBits::B80,
            81 => HighBits::B81,
            82 => HighBits::B82,
            83 => HighBits::B83,
            84 => HighBits::B84,
            85 => HighBits::B85,
            86 => HighBits::B86,
            87 => HighBits::B87,
            88 => HighBits::B88,
            89 => HighBits::B89,
            90 => HighBits::B90,
            91 => HighBits::B91,
            92 => HighBits::B92,
            93 => HighBits::B93,
            94 => HighBits::B94,
            95 => HighBits::B95,
            96 => HighBits::B96,
            97 => HighBits::B97,
            98 => HighBits::B98,
            99 => HighBits::B99,
            100 => HighBits::B100,
            101 => HighBits::B101,
            102 => HighBits::B102,
            103 => HighBits::B103,
            104 => HighBits::B104,
            105 => HighBits::B105,
            106 => HighBits::B106,
            107 => HighBits::B107,
            108 => HighBits::B108,
            109 => HighBits::B109,
            110 => HighBits::B110,
            111 => HighBits::B111,
            112 => HighBits::B112,
            113 => HighBits::B113,
            114 => HighBits::B114,
            115 => HighBits::B115,
            116 => HighBits::B116,
            117 => HighBits::B117,
            118 => HighBits::B118,
            119 => HighBits::B119,
            120 => HighBits::B120,
            121 => HighBits::B121,
            122 => HighBits::B122,
            123 => HighBits::B123,
            124 => HighBits::B124,
            125 => HighBits::B125,
            126 => HighBits::B126,
            _ => HighBits::B127,
        }
    }

    /// Returns the variant with the given value.
    pub fn new(bits: u8) -> (high: HighBits)
        ensures
            high == HighBits::of(bits),
    {
        match bits {
            0 => HighBits::B0,
            1 => HighBits::B1,
            2 => HighBits::B2,
            3 => HighBits::B3,
            4 => HighBits::B4,
            5 => HighBits::B5,
            6 => HighBits::B6,
            7 => HighBits::B7,
            8 => HighBits::B8,
            9 => HighBits::B9,
            10 => HighBits::B10,
            11 => HighBits::B11,
            12 => HighBits::B12,
            13 => HighBits::B13,
            14 => HighBits::B14,
            15 => HighBits::B15,
            16 => HighBits::B16,
            17 => HighBits::B17,
            18 => HighBits::B18,
            19 => HighBits::B19,
            20 => HighBits::B20,
            21 => HighBits::B21,
            22 => HighBits::B22,
            23 => HighBits::B23,
            24 => HighBits::B24,
            25 => HighBits::B25,
            26 => HighBits::B26,
            27 => HighBits::B27,
            28 => HighBits::B28,
            29 => HighBits::B29,
            30 => HighBits::B30,
            31 => HighBits::B31,
            32 => HighBits::B32,
            33 => HighBits::B33,
            34 => HighBits::B34,
            35 => HighBits::B35,
            36 => HighBits::B36,
            37 => HighBits::B37,
            38 => HighBits::B38,
            39 => HighBits::B39,
            40 => HighBits::B40,
            41 => HighBits::B41,
            42 => HighBits::B42,
            43 => HighBits::B43,
            44 => HighBits::B44,
            45 => HighBits::B45,
            46 => HighBits::B46,
            47 => HighBits::B47,
            48 => HighBits::B48,
            49 => HighBits::B49,
            50 => HighBits::B50,
            51 => HighBits::B51,
            52 => HighBits::B52,
            53 => HighBits::B53,
            54 => HighBits::B54,
            55 => HighBits::B55,
            56 => HighBits::B56,
            57 => HighBits::B57,
            58 => HighBits::B58,
            59 => HighBits::B59,
            60 => HighBits::B60,
            61 => HighBits::B61,
            62 => HighBits::B62,
            63 => HighBits::B63,
            64 => HighBits::B64,
            65 => HighBits::B65,
            66 => HighBits::B66,
            67 => HighBits::B67,
            68 => HighBits::B68,
            69 => HighBits::B69,
            70 => HighBits::B70,
            71 => HighBits::B71,
            72 => HighBits::B72,
            73 => HighBits::B73,
            74 => HighBits::B74,
            75 => HighBits::B75,
            76 => HighBits::B76,
            77 => HighBits::B77,
            78 => HighBits::B78,
            79 => HighBits::B79,
            80 => HighBits::B80,
            81 => HighBits::B81,
            82 => HighBits::B82,
            83 => HighBits::B83,
            84 => HighBits::B84,
            85 => HighBits::B85,
            86 => HighBits::B86,
            87 => HighBits::B87,
            88 => HighBits::B88,
            89 => HighBits::B89,
            90 => HighBits::B90,
            91 => HighBits::B91,
            92 => HighBits::B92,
            93 => HighBits::B93,
            94 => HighBits::B94,
            95 => HighBits::B95,
            96 => HighBits::B96,
            97 => HighBits::B97,
            98 => HighBits::B98,
            99 => HighBits::B99,
            100 => HighBits::B100,
            101 => HighBits::B101,
            102 => HighBits::B102,
            103 => HighBits::B103,
            104 => HighBits::B104,
            105 => HighBits::B105,
            106 => HighBits::B106,
            107 => HighBits::B107,
            108 => HighBits::B108,
            109 => HighBits::B109,
            110 => HighBits::B110,
            111 => HighBits::B111,
            112 => HighBits::B112,
            113 => HighBits::B113,
            114 => HighBits::B114,
            115 => HighBits::B115,
            116 => HighBits::B116,
            117 => HighBits::B117,
            118 => HighBits::B118,
            119 => HighBits::B119,
            120 => HighBits::B120,
            121 => HighBits::B121,
            122 => HighBits::B122,
            123 => HighBits::B123,
            124 => HighBits::B124,
            125 => HighBits::B125,
            126 => HighBits::B126,
            _ => HighBits::B127,
        }
    }
}

/// Each of the values has a variant, and each variant has a value.
proof fn high_bits_roundtrip(high: HighBits, bits: u8)
    ensures
        high as u8 <= 127,
        HighBits::of(high as u8) == high,
        bits <= 127 ==> HighBits::of(bits) as u8 == bits,
{
}

/// The generation of an entity: a number with 31 bits.
// The high bits stand first so that the derived `Ord` compares them first.
#[derive(Clone, Copy, PartialEq, Eq, PartialOrd, Ord, Structural)]
pub struct Generation {
    pub(crate) high: HighBits,
    pub(crate) middle: u8,
    pub(crate) low: u16,
}

impl Generation {
    /// The number.
    #[verifier::opaque]
    pub open(crate) spec fn value(self) -> u32 {
        ((self.high as u8) * 0x100_0000 + self.middle * 0x1_0000 + self.low) as u32
    }

    /// The generation with the given number.
    #[verifier::opaque]
    pub open(crate) spec fn of(value: u32) -> Generation {
        Generation {
            high: HighBits::of((value / 0x100_0000) as u8),
            middle: (value / 0x1_0000 % 0x100) as u8,
            low: (value % 0x1_0000) as u16,
        }
    }

    /// Returns the generation with the given number.
    pub fn new(value: u32) -> (generation: Generation)
        requires
            value <= HIGH_MASK,
        ensures
            generation == Generation::of(value),
            generation.value() == value,
    {
        proof {
            reveal(Generation::of);
            value_of_generation(value);
        }
        Generation {
            high: HighBits::new((value / 0x100_0000) as u8),
            middle: (value / 0x1_0000 % 0x100) as u8,
            low: (value % 0x1_0000) as u16,
        }
    }

    /// Returns the number.
    pub fn get(self) -> (value: u32)
        ensures
            value == self.value(),
            value <= HIGH_MASK,
    {
        proof {
            reveal(Generation::value);
            high_bits_roundtrip(self.high, 0);
        }
        self.high as u8 as u32 * 0x100_0000 + self.middle as u32 * 0x1_0000 + self.low as u32
    }
}

/// A number with 31 bits is that of its generation.
pub broadcast proof fn value_of_generation(value: u32)
    requires
        value <= HIGH_MASK,
    ensures
        (#[trigger] Generation::of(value)).value() == value,
{
    reveal(Generation::value);
    reveal(Generation::of);
    high_bits_roundtrip(HighBits::B0, (value / 0x100_0000) as u8);
}

/// A generation is determined by its number, which has 31 bits.
pub broadcast proof fn generation_of_value(generation: Generation)
    ensures
        (#[trigger] generation.value()) <= HIGH_MASK,
        Generation::of(generation.value()) == generation,
{
    reveal(Generation::value);
    reveal(Generation::of);
    high_bits_roundtrip(generation.high, 0);
}

pub broadcast group group_generation {
    value_of_generation,
    generation_of_value,
}

} // verus!
