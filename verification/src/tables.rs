//! Capacity tables and layout arithmetic from the QR specification.

use vstd::prelude::*;

use smallvec::SmallVec;

use crate::types::{
    count_bits, ecc_ordinal, version_size, DataMode, ErrorCorrectionLevel, Version,
};

verus! {

/// The 45 characters of alphanumeric mode, in code order.
pub const ALPHANUMERIC_CHARSET: [u8; 45] = [
    48, 49, 50, 51, 52, 53, 54, 55, 56, 57, 65, 66, 67, 68, 69, 70, 71, 72, 73, 74, 75, 76, 77, 78,
    79, 80, 81, 82, 83, 84, 85, 86, 87, 88, 89, 90, 32, 36, 37, 42, 43, 45, 46, 47, 58,
];

/// Error correction codewords in each block, by level ordinal and version.
pub const ECC_CODEWORDS_PER_BLOCK: [[u8; 41]; 4] = [
    [
        0, 7, 10, 15, 20, 26, 18, 20, 24, 30, 18, 20, 24, 26, 30, 22, 24, 28, 30, 28, 28, 28, 28,
        30, 30, 26, 28, 30, 30, 30, 30, 30, 30, 30, 30, 30, 30, 30, 30, 30, 30,
    ],
    [
        0, 10, 16, 26, 18, 24, 16, 18, 22, 22, 26, 30, 22, 22, 24, 24, 28, 28, 26, 26, 26, 26, 28,
        28, 28, 28, 28, 28, 28, 28, 28, 28, 28, 28, 28, 28, 28, 28, 28, 28, 28,
    ],
    [
        0, 13, 22, 18, 26, 18, 24, 18, 22, 20, 24, 28, 26, 24, 20, 30, 24, 28, 28, 26, 30, 28, 30,
        30, 30, 30, 28, 30, 30, 30, 30, 30, 30, 30, 30, 30, 30, 30, 30, 30, 30,
    ],
    [
        0, 17, 28, 22, 16, 22, 28, 26, 26, 24, 28, 24, 28, 22, 24, 24, 30, 28, 28, 26, 28, 30, 24,
        30, 30, 30, 30, 30, 30, 30, 30, 30, 30, 30, 30, 30, 30, 30, 30, 30, 30,
    ],
];

/// Number of error correction blocks, by level ordinal and version.
pub const NUM_ERROR_CORRECTION_BLOCKS: [[u8; 41]; 4] = [
    [
        0, 1, 1, 1, 1, 1, 2, 2, 2, 2, 4, 4, 4, 4, 4, 6, 6, 6, 6, 7, 8, 8, 9, 9, 10, 12, 12, 12, 13,
        14, 15, 16, 17, 18, 19, 19, 20, 21, 22, 24, 25,
    ],
    [
        0, 1, 1, 1, 2, 2, 4, 4, 4, 5, 5, 5, 8, 9, 9, 10, 10, 11, 13, 14, 16, 17, 17, 18, 20, 21,
        23, 25, 26, 28, 29, 31, 33, 35, 37, 38, 40, 43, 45, 47, 49,
    ],
    [
        0, 1, 1, 2, 2, 4, 4, 6, 6, 8, 8, 8, 10, 12, 16, 12, 17, 16, 18, 21, 20, 23, 23, 25, 27, 29,
        34, 34, 35, 38, 40, 43, 45, 48, 51, 53, 56, 59, 62, 65, 68,
    ],
    [
        0, 1, 1, 2, 4, 4, 4, 5, 6, 8, 8, 11, 11, 16, 16, 18, 16, 19, 21, 25, 25, 25, 34, 30, 32,
        35, 37, 40, 42, 45, 48, 51, 54, 57, 60, 63, 66, 70, 74, 77, 81,
    ],
];

/// The alphanumeric code of a byte, if it has one.
pub open spec fn alnum_value(byte: u8) -> Option<u8> {
    if 48 <= byte <= 57 {
        Some((byte - 48) as u8)
    } else if 65 <= byte <= 90 {
        Some((byte - 65 + 10) as u8)
    } else if byte == 32 {
        Some(36)
    } else if byte == 36 {
        Some(37)
    } else if byte == 37 {
        Some(38)
    } else if byte == 42 {
        Some(39)
    } else if byte == 43 {
        Some(40)
    } else if byte == 45 {
        Some(41)
    } else if byte == 46 {
        Some(42)
    } else if byte == 47 {
        Some(43)
    } else if byte == 58 {
        Some(44)
    } else {
        None
    }
}

/// Modules of a version left for data and error correction after the function patterns.
pub open spec fn raw_data_modules(version: nat) -> nat {
    let base = (16 * version + 128) * version + 64;
    if version >= 2 {
        let count = alignment_count(version);
        let alignment = ((25 * count - 10) * count - 55) as nat;
        if version >= 7 {
            (base - alignment - 36) as nat
        } else {
            (base - alignment) as nat
        }
    } else {
        base
    }
}

/// Error correction codewords per block for a level and version.
pub open spec fn ecc_per_block(level: ErrorCorrectionLevel, version: nat) -> nat {
    ECC_CODEWORDS_PER_BLOCK@[ecc_ordinal(level) as int]@[version as int] as nat
}

/// Number of blocks for a level and version.
pub open spec fn block_count(level: ErrorCorrectionLevel, version: nat) -> nat {
    NUM_ERROR_CORRECTION_BLOCKS@[ecc_ordinal(level) as int]@[version as int] as nat
}

/// Data codewords of a version at a level.
pub open spec fn data_codewords(version: nat, level: ErrorCorrectionLevel) -> nat {
    (raw_data_modules(version) / 8 - ecc_per_block(level, version) * block_count(level, version)) as nat
}

/// Bits taken by `len` characters of a mode, without header.
pub open spec fn payload_bits_len(mode: DataMode, len: nat) -> nat {
    match mode {
        DataMode::Numeric => len / 3 * 10 + if len % 3 == 0 {
            0nat
        } else if len % 3 == 1 {
            4nat
        } else {
            7nat
        },
        DataMode::Alphanumeric => len / 2 * 11 + if len % 2 == 1 {
            6nat
        } else {
            0nat
        },
        DataMode::Byte => len * 8,
    }
}

/// Bits of a whole segment: mode indicator, character count and payload.
pub open spec fn segment_bits_len(version: u8, mode: DataMode, len: nat) -> nat {
    4 + count_bits(mode, version) as nat + payload_bits_len(mode, len)
}

/// Number of alignment pattern coordinates of a version (two or more).
pub open spec fn alignment_count(version: nat) -> nat {
    version / 7 + 2
}

/// Distance between consecutive alignment coordinates after the first.
pub open spec fn alignment_step(version: nat) -> nat {
    let count = alignment_count(version);
    if version == 32 {
        26
    } else {
        ((version * 4 + count * 2 + 1) / (count * 2 - 2) as nat) * 2
    }
}

/// The alignment pattern coordinates of a version: 6, then evenly spaced
/// positions ending seven modules before the edge; none for version 1.
pub open spec fn alignment_positions(version: nat) -> Seq<u8> {
    if version <= 1 {
        Seq::empty()
    } else {
        let count = alignment_count(version);
        let last = version * 4 + 10;
        Seq::new(
            count,
            |i: int|
                if i == 0 {
                    6u8
                } else {
                    (last - (count - 1 - i) * alignment_step(version)) as u8
                },
        )
    }
}

/// A short list of coordinates, held in a `SmallVec` with room for seven inline.
#[verifier::external_body]
pub struct AlignmentPositions {
    items: SmallVec<[u8; 7]>,
}

/// What an `AlignmentPositions` holds, in order.
pub uninterp spec fn position_items(v: AlignmentPositions) -> Seq<u8>;

/// `SmallVec::new`: an empty list.
#[verifier::external_body]
fn positions_new() -> (r: AlignmentPositions)
    ensures
        position_items(r) == Seq::<u8>::empty(),
{
    AlignmentPositions { items: SmallVec::new() }
}

/// `SmallVec::push`: appends one item at the end.
#[verifier::external_body]
fn positions_push(v: &mut AlignmentPositions, item: u8)
    ensures
        position_items(*final(v)) == position_items(*old(v)).push(item),
{
    v.items.push(item)
}

/// `SmallVec::len`: the number of items.
#[verifier::external_body]
pub(crate) fn positions_len(v: &AlignmentPositions) -> (r: usize)
    ensures
        r == position_items(*v).len(),
{
    v.items.len()
}

/// Indexing the `SmallVec`: the item at `index`.
#[verifier::external_body]
pub(crate) fn positions_get(v: &AlignmentPositions, index: usize) -> (r: u8)
    requires
        index < position_items(*v).len(),
    ensures
        r == position_items(*v)[index as int],
{
    v.items[index]
}

impl AlignmentPositions {
    /// The coordinates, in order.
    pub fn to_vec(&self) -> (r: Vec<u8>)
        ensures
            r@ == position_items(*self),
    {
        let n = positions_len(self);
        let mut out: Vec<u8> = Vec::new();
        let mut i: usize = 0;
        while i < n
            invariant
                n == position_items(*self).len(),
                i <= n,
                out@ == position_items(*self).subrange(0, i as int),
            decreases n - i,
        {
            out.push(positions_get(self, i));
            i = i + 1;
            assert(out@ =~= position_items(*self).subrange(0, i as int));
        }
        assert(out@ =~= position_items(*self));
        out
    }
}

/// The alphanumeric code of `byte`, or `None` outside the charset.
pub fn alphanumeric_value(byte: u8) -> (r: Option<u8>)
    ensures
        r == alnum_value(byte),
{
    if 48 <= byte && byte <= 57 {
        Some(byte - 48)
    } else if 65 <= byte && byte <= 90 {
        Some(byte - 65 + 10)
    } else if byte == 32 {
        Some(36)
    } else if byte == 36 {
        Some(37)
    } else if byte == 37 {
        Some(38)
    } else if byte == 42 {
        Some(39)
    } else if byte == 43 {
        Some(40)
    } else if byte == 45 {
        Some(41)
    } else if byte == 46 {
        Some(42)
    } else if byte == 47 {
        Some(43)
    } else if byte == 58 {
        Some(44)
    } else {
        None
    }
}

/// The charset byte whose alphanumeric code is `value`.
pub fn alphanumeric_char(value: u8) -> (r: u8)
    requires
        value < 45,
    ensures
        r == ALPHANUMERIC_CHARSET@[value as int],
        alnum_value(r) == Some(value),
{
    ALPHANUMERIC_CHARSET[value as usize]
}

/// Every charset byte maps back to its position, and every coded byte is in the charset.
pub proof fn lemma_alphanumeric_roundtrip(value: u8, byte: u8)
    ensures
        value < 45 ==> alnum_value(ALPHANUMERIC_CHARSET@[value as int]) == Some(value),
        alnum_value(byte) matches Some(v) ==> (v < 45 && ALPHANUMERIC_CHARSET@[v as int] == byte),
{
}

proof fn lemma_alignment_fits(version: nat)
    requires
        2 <= version <= 40,
    ensures
        alignment_count(version) <= 7,
        alignment_count(version) * 2 - 2 >= 2,
        (alignment_count(version) - 2) * alignment_step(version) + 18 <= version * 4 + 10,
        alignment_step(version) >= 12,
        version * 4 + 10 <= 255,
{
    let v = version;
    if v == 2 {
        assert(alignment_count(2) == 2);
        vstd::arithmetic::div_mod::lemma_fundamental_div_mod_converse(13, 2, 6, 1);
        assert(alignment_step(2) == 12);
        assert((alignment_count(2) - 2) * alignment_step(2) + 18 <= 2 * 4 + 10) by (nonlinear_arith)
            requires
                alignment_count(2) == 2,
                alignment_step(2) == 12,
        ;

    } else if v == 3 {
        assert(alignment_count(3) == 2);
        vstd::arithmetic::div_mod::lemma_fundamental_div_mod_converse(17, 2, 8, 1);
        assert(alignment_step(3) == 16);
        assert((alignment_count(3) - 2) * alignment_step(3) + 18 <= 3 * 4 + 10) by (nonlinear_arith)
            requires
                alignment_count(3) == 2,
                alignment_step(3) == 16,
        ;

    } else if v == 4 {
        assert(alignment_count(4) == 2);
        vstd::arithmetic::div_mod::lemma_fundamental_div_mod_converse(21, 2, 10, 1);
        assert(alignment_step(4) == 20);
        assert((alignment_count(4) - 2) * alignment_step(4) + 18 <= 4 * 4 + 10) by (nonlinear_arith)
            requires
                alignment_count(4) == 2,
                alignment_step(4) == 20,
        ;

    } else if v == 5 {
        assert(alignment_count(5) == 2);
        vstd::arithmetic::div_mod::lemma_fundamental_div_mod_converse(25, 2, 12, 1);
        assert(alignment_step(5) == 24);
        assert((alignment_count(5) - 2) * alignment_step(5) + 18 <= 5 * 4 + 10) by (nonlinear_arith)
            requires
                alignment_count(5) == 2,
                alignment_step(5) == 24,
        ;

    } else if v == 6 {
        assert(alignment_count(6) == 2);
        vstd::arithmetic::div_mod::lemma_fundamental_div_mod_converse(29, 2, 14, 1);
        assert(alignment_step(6) == 28);
        assert((alignment_count(6) - 2) * alignment_step(6) + 18 <= 6 * 4 + 10) by (nonlinear_arith)
            requires
                alignment_count(6) == 2,
                alignment_step(6) == 28,
        ;

    } else if v == 7 {
        assert(alignment_count(7) == 3);
        vstd::arithmetic::div_mod::lemma_fundamental_div_mod_converse(35, 4, 8, 3);
        assert(alignment_step(7) == 16);
        assert((alignment_count(7) - 2) * alignment_step(7) + 18 <= 7 * 4 + 10) by (nonlinear_arith)
            requires
                alignment_count(7) == 3,
                alignment_step(7) == 16,
        ;

    } else if v == 8 {
        assert(alignment_count(8) == 3);
        vstd::arithmetic::div_mod::lemma_fundamental_div_mod_converse(39, 4, 9, 3);
        assert(alignment_step(8) == 18);
        assert((alignment_count(8) - 2) * alignment_step(8) + 18 <= 8 * 4 + 10) by (nonlinear_arith)
            requires
                alignment_count(8) == 3,
                alignment_step(8) == 18,
        ;

    } else if v == 9 {
        assert(alignment_count(9) == 3);
        vstd::arithmetic::div_mod::lemma_fundamental_div_mod_converse(43, 4, 10, 3);
        assert(alignment_step(9) == 20);
        assert((alignment_count(9) - 2) * alignment_step(9) + 18 <= 9 * 4 + 10) by (nonlinear_arith)
            requires
                alignment_count(9) == 3,
                alignment_step(9) == 20,
        ;

    } else if v == 10 {
        assert(alignment_count(10) == 3);
        vstd::arithmetic::div_mod::lemma_fundamental_div_mod_converse(47, 4, 11, 3);
        assert(alignment_step(10) == 22);
        assert((alignment_count(10) - 2) * alignment_step(10) + 18 <= 10 * 4 + 10) by (nonlinear_arith)
            requires
                alignment_count(10) == 3,
                alignment_step(10) == 22,
        ;

    } else if v == 11 {
        assert(alignment_count(11) == 3);
        vstd::arithmetic::div_mod::lemma_fundamental_div_mod_converse(51, 4, 12, 3);
        assert(alignment_step(11) == 24);
        assert((alignment_count(11) - 2) * alignment_step(11) + 18 <= 11 * 4 + 10) by (nonlinear_arith)
            requires
                alignment_count(11) == 3,
                alignment_step(11) == 24,
        ;

    } else if v == 12 {
        assert(alignment_count(12) == 3);
        vstd::arithmetic::div_mod::lemma_fundamental_div_mod_converse(55, 4, 13, 3);
        assert(alignment_step(12) == 26);
        assert((alignment_count(12) - 2) * alignment_step(12) + 18 <= 12 * 4 + 10) by (nonlinear_arith)
            requires
                alignment_count(12) == 3,
                alignment_step(12) == 26,
        ;

    } else if v == 13 {
        assert(alignment_count(13) == 3);
        vstd::arithmetic::div_mod::lemma_fundamental_div_mod_converse(59, 4, 14, 3);
        assert(alignment_step(13) == 28);
        assert((alignment_count(13) - 2) * alignment_step(13) + 18 <= 13 * 4 + 10) by (nonlinear_arith)
            requires
                alignment_count(13) == 3,
                alignment_step(13) == 28,
        ;

    } else if v == 14 {
        assert(alignment_count(14) == 4);
        vstd::arithmetic::div_mod::lemma_fundamental_div_mod_converse(65, 6, 10, 5);
        assert(alignment_step(14) == 20);
        assert((alignment_count(14) - 2) * alignment_step(14) + 18 <= 14 * 4 + 10) by (nonlinear_arith)
            requires
                alignment_count(14) == 4,
                alignment_step(14) == 20,
        ;

    } else if v == 15 {
        assert(alignment_count(15) == 4);
        vstd::arithmetic::div_mod::lemma_fundamental_div_mod_converse(69, 6, 11, 3);
        assert(alignment_step(15) == 22);
        assert((alignment_count(15) - 2) * alignment_step(15) + 18 <= 15 * 4 + 10) by (nonlinear_arith)
            requires
                alignment_count(15) == 4,
                alignment_step(15) == 22,
        ;

    } else if v == 16 {
        assert(alignment_count(16) == 4);
        vstd::arithmetic::div_mod::lemma_fundamental_div_mod_converse(73, 6, 12, 1);
        assert(alignment_step(16) == 24);
        assert((alignment_count(16) - 2) * alignment_step(16) + 18 <= 16 * 4 + 10) by (nonlinear_arith)
            requires
                alignment_count(16) == 4,
                alignment_step(16) == 24,
        ;

    } else if v == 17 {
        assert(alignment_count(17) == 4);
        vstd::arithmetic::div_mod::lemma_fundamental_div_mod_converse(77, 6, 12, 5);
        assert(alignment_step(17) == 24);
        assert((alignment_count(17) - 2) * alignment_step(17) + 18 <= 17 * 4 + 10) by (nonlinear_arith)
            requires
                alignment_count(17) == 4,
                alignment_step(17) == 24,
        ;

    } else if v == 18 {
        assert(alignment_count(18) == 4);
        vstd::arithmetic::div_mod::lemma_fundamental_div_mod_converse(81, 6, 13, 3);
        assert(alignment_step(18) == 26);
        assert((alignment_count(18) - 2) * alignment_step(18) + 18 <= 18 * 4 + 10) by (nonlinear_arith)
            requires
                alignment_count(18) == 4,
                alignment_step(18) == 26,
        ;

    } else if v == 19 {
        assert(alignment_count(19) == 4);
        vstd::arithmetic::div_mod::lemma_fundamental_div_mod_converse(85, 6, 14, 1);
        assert(alignment_step(19) == 28);
        assert((alignment_count(19) - 2) * alignment_step(19) + 18 <= 19 * 4 + 10) by (nonlinear_arith)
            requires
                alignment_count(19) == 4,
                alignment_step(19) == 28,
        ;

    } else if v == 20 {
        assert(alignment_count(20) == 4);
        vstd::arithmetic::div_mod::lemma_fundamental_div_mod_converse(89, 6, 14, 5);
        assert(alignment_step(20) == 28);
        assert((alignment_count(20) - 2) * alignment_step(20) + 18 <= 20 * 4 + 10) by (nonlinear_arith)
            requires
                alignment_count(20) == 4,
                alignment_step(20) == 28,
        ;

    } else if v == 21 {
        assert(alignment_count(21) == 5);
        vstd::arithmetic::div_mod::lemma_fundamental_div_mod_converse(95, 8, 11, 7);
        assert(alignment_step(21) == 22);
        assert((alignment_count(21) - 2) * alignment_step(21) + 18 <= 21 * 4 + 10) by (nonlinear_arith)
            requires
                alignment_count(21) == 5,
                alignment_step(21) == 22,
        ;

    } else if v == 22 {
        assert(alignment_count(22) == 5);
        vstd::arithmetic::div_mod::lemma_fundamental_div_mod_converse(99, 8, 12, 3);
        assert(alignment_step(22) == 24);
        assert((alignment_count(22) - 2) * alignment_step(22) + 18 <= 22 * 4 + 10) by (nonlinear_arith)
            requires
                alignment_count(22) == 5,
                alignment_step(22) == 24,
        ;

    } else if v == 23 {
        assert(alignment_count(23) == 5);
        vstd::arithmetic::div_mod::lemma_fundamental_div_mod_converse(103, 8, 12, 7);
        assert(alignment_step(23) == 24);
        assert((alignment_count(23) - 2) * alignment_step(23) + 18 <= 23 * 4 + 10) by (nonlinear_arith)
            requires
                alignment_count(23) == 5,
                alignment_step(23) == 24,
        ;

    } else if v == 24 {
        assert(alignment_count(24) == 5);
        vstd::arithmetic::div_mod::lemma_fundamental_div_mod_converse(107, 8, 13, 3);
        assert(alignment_step(24) == 26);
        assert((alignment_count(24) - 2) * alignment_step(24) + 18 <= 24 * 4 + 10) by (nonlinear_arith)
            requires
                alignment_count(24) == 5,
                alignment_step(24) == 26,
        ;

    } else if v == 25 {
        assert(alignment_count(25) == 5);
        vstd::arithmetic::div_mod::lemma_fundamental_div_mod_converse(111, 8, 13, 7);
        assert(alignment_step(25) == 26);
        assert((alignment_count(25) - 2) * alignment_step(25) + 18 <= 25 * 4 + 10) by (nonlinear_arith)
            requires
                alignment_count(25) == 5,
                alignment_step(25) == 26,
        ;

    } else if v == 26 {
        assert(alignment_count(26) == 5);
        vstd::arithmetic::div_mod::lemma_fundamental_div_mod_converse(115, 8, 14, 3);
        assert(alignment_step(26) == 28);
        assert((alignment_count(26) - 2) * alignment_step(26) + 18 <= 26 * 4 + 10) by (nonlinear_arith)
            requires
                alignment_count(26) == 5,
                alignment_step(26) == 28,
        ;

    } else if v == 27 {
        assert(alignment_count(27) == 5);
        vstd::arithmetic::div_mod::lemma_fundamental_div_mod_converse(119, 8, 14, 7);
        assert(alignment_step(27) == 28);
        assert((alignment_count(27) - 2) * alignment_step(27) + 18 <= 27 * 4 + 10) by (nonlinear_arith)
            requires
                alignment_count(27) == 5,
                alignment_step(27) == 28,
        ;

    } else if v == 28 {
        assert(alignment_count(28) == 6);
        vstd::arithmetic::div_mod::lemma_fundamental_div_mod_converse(125, 10, 12, 5);
        assert(alignment_step(28) == 24);
        assert((alignment_count(28) - 2) * alignment_step(28) + 18 <= 28 * 4 + 10) by (nonlinear_arith)
            requires
                alignment_count(28) == 6,
                alignment_step(28) == 24,
        ;

    } else if v == 29 {
        assert(alignment_count(29) == 6);
        vstd::arithmetic::div_mod::lemma_fundamental_div_mod_converse(129, 10, 12, 9);
        assert(alignment_step(29) == 24);
        assert((alignment_count(29) - 2) * alignment_step(29) + 18 <= 29 * 4 + 10) by (nonlinear_arith)
            requires
                alignment_count(29) == 6,
                alignment_step(29) == 24,
        ;

    } else if v == 30 {
        assert(alignment_count(30) == 6);
        vstd::arithmetic::div_mod::lemma_fundamental_div_mod_converse(133, 10, 13, 3);
        assert(alignment_step(30) == 26);
        assert((alignment_count(30) - 2) * alignment_step(30) + 18 <= 30 * 4 + 10) by (nonlinear_arith)
            requires
                alignment_count(30) == 6,
                alignment_step(30) == 26,
        ;

    } else if v == 31 {
        assert(alignment_count(31) == 6);
        vstd::arithmetic::div_mod::lemma_fundamental_div_mod_converse(137, 10, 13, 7);
        assert(alignment_step(31) == 26);
        assert((alignment_count(31) - 2) * alignment_step(31) + 18 <= 31 * 4 + 10) by (nonlinear_arith)
            requires
                alignment_count(31) == 6,
                alignment_step(31) == 26,
        ;

    } else if v == 32 {
        assert(alignment_count(32) == 6);
        assert(alignment_step(32) == 26);
        assert((alignment_count(32) - 2) * alignment_step(32) + 18 <= 32 * 4 + 10) by (nonlinear_arith)
            requires
                alignment_count(32) == 6,
                alignment_step(32) == 26,
        ;

    } else if v == 33 {
        assert(alignment_count(33) == 6);
        vstd::arithmetic::div_mod::lemma_fundamental_div_mod_converse(145, 10, 14, 5);
        assert(alignment_step(33) == 28);
        assert((alignment_count(33) - 2) * alignment_step(33) + 18 <= 33 * 4 + 10) by (nonlinear_arith)
            requires
                alignment_count(33) == 6,
                alignment_step(33) == 28,
        ;

    } else if v == 34 {
        assert(alignment_count(34) == 6);
        vstd::arithmetic::div_mod::lemma_fundamental_div_mod_converse(149, 10, 14, 9);
        assert(alignment_step(34) == 28);
        assert((alignment_count(34) - 2) * alignment_step(34) + 18 <= 34 * 4 + 10) by (nonlinear_arith)
            requires
                alignment_count(34) == 6,
                alignment_step(34) == 28,
        ;

    } else if v == 35 {
        assert(alignment_count(35) == 7);
        vstd::arithmetic::div_mod::lemma_fundamental_div_mod_converse(155, 12, 12, 11);
        assert(alignment_step(35) == 24);
        assert((alignment_count(35) - 2) * alignment_step(35) + 18 <= 35 * 4 + 10) by (nonlinear_arith)
            requires
                alignment_count(35) == 7,
                alignment_step(35) == 24,
        ;

    } else if v == 36 {
        assert(alignment_count(36) == 7);
        vstd::arithmetic::div_mod::lemma_fundamental_div_mod_converse(159, 12, 13, 3);
        assert(alignment_step(36) == 26);
        assert((alignment_count(36) - 2) * alignment_step(36) + 18 <= 36 * 4 + 10) by (nonlinear_arith)
            requires
                alignment_count(36) == 7,
                alignment_step(36) == 26,
        ;

    } else if v == 37 {
        assert(alignment_count(37) == 7);
        vstd::arithmetic::div_mod::lemma_fundamental_div_mod_converse(163, 12, 13, 7);
        assert(alignment_step(37) == 26);
        assert((alignment_count(37) - 2) * alignment_step(37) + 18 <= 37 * 4 + 10) by (nonlinear_arith)
            requires
                alignment_count(37) == 7,
                alignment_step(37) == 26,
        ;

    } else if v == 38 {
        assert(alignment_count(38) == 7);
        vstd::arithmetic::div_mod::lemma_fundamental_div_mod_converse(167, 12, 13, 11);
        assert(alignment_step(38) == 26);
        assert((alignment_count(38) - 2) * alignment_step(38) + 18 <= 38 * 4 + 10) by (nonlinear_arith)
            requires
                alignment_count(38) == 7,
                alignment_step(38) == 26,
        ;

    } else if v == 39 {
        assert(alignment_count(39) == 7);
        vstd::arithmetic::div_mod::lemma_fundamental_div_mod_converse(171, 12, 14, 3);
        assert(alignment_step(39) == 28);
        assert((alignment_count(39) - 2) * alignment_step(39) + 18 <= 39 * 4 + 10) by (nonlinear_arith)
            requires
                alignment_count(39) == 7,
                alignment_step(39) == 28,
        ;

    } else if v == 40 {
        assert(alignment_count(40) == 7);
        vstd::arithmetic::div_mod::lemma_fundamental_div_mod_converse(175, 12, 14, 7);
        assert(alignment_step(40) == 28);
        assert((alignment_count(40) - 2) * alignment_step(40) + 18 <= 40 * 4 + 10) by (nonlinear_arith)
            requires
                alignment_count(40) == 7,
                alignment_step(40) == 28,
        ;

    }
}

proof fn lemma_raw_bounds(version: nat)
    requires
        1 <= version <= 40,
    ensures
        208 <= raw_data_modules(version) <= 29648,
        version >= 2 ==> ((25 * alignment_count(version) - 10) * alignment_count(version) - 55) + (if version >= 7 { 36int } else { 0int }) <= (16 * version + 128) * version + 64 - 208,
{
    let v = version;
    if v == 1 {
        assert(alignment_count(1) == 2);
        assert(raw_data_modules(1) == 208) by (nonlinear_arith)
            requires
                alignment_count(1) == 2,
        ;
        assert(208 <= raw_data_modules(1) <= 29648);

    } else if v == 2 {
        assert(alignment_count(2) == 2);
        assert(raw_data_modules(2) == 359) by (nonlinear_arith)
            requires
                alignment_count(2) == 2,
        ;
        assert(208 <= raw_data_modules(2) <= 29648);
        assert(((25 * alignment_count(2) - 10) * alignment_count(2) - 55) + (if 2 >= 7 { 36int } else { 0int }) <= (16 * 2 + 128) * 2 + 64 - 208) by (nonlinear_arith)
            requires
                alignment_count(2) == 2,
        ;

    } else if v == 3 {
        assert(alignment_count(3) == 2);
        assert(raw_data_modules(3) == 567) by (nonlinear_arith)
            requires
                alignment_count(3) == 2,
        ;
        assert(208 <= raw_data_modules(3) <= 29648);
        assert(((25 * alignment_count(3) - 10) * alignment_count(3) - 55) + (if 3 >= 7 { 36int } else { 0int }) <= (16 * 3 + 128) * 3 + 64 - 208) by (nonlinear_arith)
            requires
                alignment_count(3) == 2,
        ;

    } else if v == 4 {
        assert(alignment_count(4) == 2);
        assert(raw_data_modules(4) == 807) by (nonlinear_arith)
            requires
                alignment_count(4) == 2,
        ;
        assert(208 <= raw_data_modules(4) <= 29648);
        assert(((25 * alignment_count(4) - 10) * alignment_count(4) - 55) + (if 4 >= 7 { 36int } else { 0int }) <= (16 * 4 + 128) * 4 + 64 - 208) by (nonlinear_arith)
            requires
                alignment_count(4) == 2,
        ;

    } else if v == 5 {
        assert(alignment_count(5) == 2);
        assert(raw_data_modules(5) == 1079) by (nonlinear_arith)
            requires
                alignment_count(5) == 2,
        ;
        assert(208 <= raw_data_modules(5) <= 29648);
        assert(((25 * alignment_count(5) - 10) * alignment_count(5) - 55) + (if 5 >= 7 { 36int } else { 0int }) <= (16 * 5 + 128) * 5 + 64 - 208) by (nonlinear_arith)
            requires
                alignment_count(5) == 2,
        ;

    } else if v == 6 {
        assert(alignment_count(6) == 2);
        assert(raw_data_modules(6) == 1383) by (nonlinear_arith)
            requires
                alignment_count(6) == 2,
        ;
        assert(208 <= raw_data_modules(6) <= 29648);
        assert(((25 * alignment_count(6) - 10) * alignment_count(6) - 55) + (if 6 >= 7 { 36int } else { 0int }) <= (16 * 6 + 128) * 6 + 64 - 208) by (nonlinear_arith)
            requires
                alignment_count(6) == 2,
        ;

    } else if v == 7 {
        assert(alignment_count(7) == 3);
        assert(raw_data_modules(7) == 1568) by (nonlinear_arith)
            requires
                alignment_count(7) == 3,
        ;
        assert(208 <= raw_data_modules(7) <= 29648);
        assert(((25 * alignment_count(7) - 10) * alignment_count(7) - 55) + (if 7 >= 7 { 36int } else { 0int }) <= (16 * 7 + 128) * 7 + 64 - 208) by (nonlinear_arith)
            requires
                alignment_count(7) == 3,
        ;

    } else if v == 8 {
        assert(alignment_count(8) == 3);
        assert(raw_data_modules(8) == 1936) by (nonlinear_arith)
            requires
                alignment_count(8) == 3,
        ;
        assert(208 <= raw_data_modules(8) <= 29648);
        assert(((25 * alignment_count(8) - 10) * alignment_count(8) - 55) + (if 8 >= 7 { 36int } else { 0int }) <= (16 * 8 + 128) * 8 + 64 - 208) by (nonlinear_arith)
            requires
                alignment_count(8) == 3,
        ;

    } else if v == 9 {
        assert(alignment_count(9) == 3);
        assert(raw_data_modules(9) == 2336) by (nonlinear_arith)
            requires
                alignment_count(9) == 3,
        ;
        assert(208 <= raw_data_modules(9) <= 29648);
        assert(((25 * alignment_count(9) - 10) * alignment_count(9) - 55) + (if 9 >= 7 { 36int } else { 0int }) <= (16 * 9 + 128) * 9 + 64 - 208) by (nonlinear_arith)
            requires
                alignment_count(9) == 3,
        ;

    } else if v == 10 {
        assert(alignment_count(10) == 3);
        assert(raw_data_modules(10) == 2768) by (nonlinear_arith)
            requires
                alignment_count(10) == 3,
        ;
        assert(208 <= raw_data_modules(10) <= 29648);
        assert(((25 * alignment_count(10) - 10) * alignment_count(10) - 55) + (if 10 >= 7 { 36int } else { 0int }) <= (16 * 10 + 128) * 10 + 64 - 208) by (nonlinear_arith)
            requires
                alignment_count(10) == 3,
        ;

    } else if v == 11 {
        assert(alignment_count(11) == 3);
        assert(raw_data_modules(11) == 3232) by (nonlinear_arith)
            requires
                alignment_count(11) == 3,
        ;
        assert(208 <= raw_data_modules(11) <= 29648);
        assert(((25 * alignment_count(11) - 10) * alignment_count(11) - 55) + (if 11 >= 7 { 36int } else { 0int }) <= (16 * 11 + 128) * 11 + 64 - 208) by (nonlinear_arith)
            requires
                alignment_count(11) == 3,
        ;

    } else if v == 12 {
        assert(alignment_count(12) == 3);
        assert(raw_data_modules(12) == 3728) by (nonlinear_arith)
            requires
                alignment_count(12) == 3,
        ;
        assert(208 <= raw_data_modules(12) <= 29648);
        assert(((25 * alignment_count(12) - 10) * alignment_count(12) - 55) + (if 12 >= 7 { 36int } else { 0int }) <= (16 * 12 + 128) * 12 + 64 - 208) by (nonlinear_arith)
            requires
                alignment_count(12) == 3,
        ;

    } else if v == 13 {
        assert(alignment_count(13) == 3);
        assert(raw_data_modules(13) == 4256) by (nonlinear_arith)
            requires
                alignment_count(13) == 3,
        ;
        assert(208 <= raw_data_modules(13) <= 29648);
        assert(((25 * alignment_count(13) - 10) * alignment_count(13) - 55) + (if 13 >= 7 { 36int } else { 0int }) <= (16 * 13 + 128) * 13 + 64 - 208) by (nonlinear_arith)
            requires
                alignment_count(13) == 3,
        ;

    } else if v == 14 {
        assert(alignment_count(14) == 4);
        assert(raw_data_modules(14) == 4651) by (nonlinear_arith)
            requires
                alignment_count(14) == 4,
        ;
        assert(208 <= raw_data_modules(14) <= 29648);
        assert(((25 * alignment_count(14) - 10) * alignment_count(14) - 55) + (if 14 >= 7 { 36int } else { 0int }) <= (16 * 14 + 128) * 14 + 64 - 208) by (nonlinear_arith)
            requires
                alignment_count(14) == 4,
        ;

    } else if v == 15 {
        assert(alignment_count(15) == 4);
        assert(raw_data_modules(15) == 5243) by (nonlinear_arith)
            requires
                alignment_count(15) == 4,
        ;
        assert(208 <= raw_data_modules(15) <= 29648);
        assert(((25 * alignment_count(15) - 10) * alignment_count(15) - 55) + (if 15 >= 7 { 36int } else { 0int }) <= (16 * 15 + 128) * 15 + 64 - 208) by (nonlinear_arith)
            requires
                alignment_count(15) == 4,
        ;

    } else if v == 16 {
        assert(alignment_count(16) == 4);
        assert(raw_data_modules(16) == 5867) by (nonlinear_arith)
            requires
                alignment_count(16) == 4,
        ;
        assert(208 <= raw_data_modules(16) <= 29648);
        assert(((25 * alignment_count(16) - 10) * alignment_count(16) - 55) + (if 16 >= 7 { 36int } else { 0int }) <= (16 * 16 + 128) * 16 + 64 - 208) by (nonlinear_arith)
            requires
                alignment_count(16) == 4,
        ;

    } else if v == 17 {
        assert(alignment_count(17) == 4);
        assert(raw_data_modules(17) == 6523) by (nonlinear_arith)
            requires
                alignment_count(17) == 4,
        ;
        assert(208 <= raw_data_modules(17) <= 29648);
        assert(((25 * alignment_count(17) - 10) * alignment_count(17) - 55) + (if 17 >= 7 { 36int } else { 0int }) <= (16 * 17 + 128) * 17 + 64 - 208) by (nonlinear_arith)
            requires
                alignment_count(17) == 4,
        ;

    } else if v == 18 {
        assert(alignment_count(18) == 4);
        assert(raw_data_modules(18) == 7211) by (nonlinear_arith)
            requires
                alignment_count(18) == 4,
        ;
        assert(208 <= raw_data_modules(18) <= 29648);
        assert(((25 * alignment_count(18) - 10) * alignment_count(18) - 55) + (if 18 >= 7 { 36int } else { 0int }) <= (16 * 18 + 128) * 18 + 64 - 208) by (nonlinear_arith)
            requires
                alignment_count(18) == 4,
        ;

    } else if v == 19 {
        assert(alignment_count(19) == 4);
        assert(raw_data_modules(19) == 7931) by (nonlinear_arith)
            requires
                alignment_count(19) == 4,
        ;
        assert(208 <= raw_data_modules(19) <= 29648);
        assert(((25 * alignment_count(19) - 10) * alignment_count(19) - 55) + (if 19 >= 7 { 36int } else { 0int }) <= (16 * 19 + 128) * 19 + 64 - 208) by (nonlinear_arith)
            requires
                alignment_count(19) == 4,
        ;

    } else if v == 20 {
        assert(alignment_count(20) == 4);
        assert(raw_data_modules(20) == 8683) by (nonlinear_arith)
            requires
                alignment_count(20) == 4,
        ;
        assert(208 <= raw_data_modules(20) <= 29648);
        assert(((25 * alignment_count(20) - 10) * alignment_count(20) - 55) + (if 20 >= 7 { 36int } else { 0int }) <= (16 * 20 + 128) * 20 + 64 - 208) by (nonlinear_arith)
            requires
                alignment_count(20) == 4,
        ;

    } else if v == 21 {
        assert(alignment_count(21) == 5);
        assert(raw_data_modules(21) == 9252) by (nonlinear_arith)
            requires
                alignment_count(21) == 5,
        ;
        assert(208 <= raw_data_modules(21) <= 29648);
        assert(((25 * alignment_count(21) - 10) * alignment_count(21) - 55) + (if 21 >= 7 { 36int } else { 0int }) <= (16 * 21 + 128) * 21 + 64 - 208) by (nonlinear_arith)
            requires
                alignment_count(21) == 5,
        ;

    } else if v == 22 {
        assert(alignment_count(22) == 5);
        assert(raw_data_modules(22) == 10068) by (nonlinear_arith)
            requires
                alignment_count(22) == 5,
        ;
        assert(208 <= raw_data_modules(22) <= 29648);
        assert(((25 * alignment_count(22) - 10) * alignment_count(22) - 55) + (if 22 >= 7 { 36int } else { 0int }) <= (16 * 22 + 128) * 22 + 64 - 208) by (nonlinear_arith)
            requires
                alignment_count(22) == 5,
        ;

    } else if v == 23 {
        assert(alignment_count(23) == 5);
        assert(raw_data_modules(23) == 10916) by (nonlinear_arith)
            requires
                alignment_count(23) == 5,
        ;
        assert(208 <= raw_data_modules(23) <= 29648);
        assert(((25 * alignment_count(23) - 10) * alignment_count(23) - 55) + (if 23 >= 7 { 36int } else { 0int }) <= (16 * 23 + 128) * 23 + 64 - 208) by (nonlinear_arith)
            requires
                alignment_count(23) == 5,
        ;

    } else if v == 24 {
        assert(alignment_count(24) == 5);
        assert(raw_data_modules(24) == 11796) by (nonlinear_arith)
            requires
                alignment_count(24) == 5,
        ;
        assert(208 <= raw_data_modules(24) <= 29648);
        assert(((25 * alignment_count(24) - 10) * alignment_count(24) - 55) + (if 24 >= 7 { 36int } else { 0int }) <= (16 * 24 + 128) * 24 + 64 - 208) by (nonlinear_arith)
            requires
                alignment_count(24) == 5,
        ;

    } else if v == 25 {
        assert(alignment_count(25) == 5);
        assert(raw_data_modules(25) == 12708) by (nonlinear_arith)
            requires
                alignment_count(25) == 5,
        ;
        assert(208 <= raw_data_modules(25) <= 29648);
        assert(((25 * alignment_count(25) - 10) * alignment_count(25) - 55) + (if 25 >= 7 { 36int } else { 0int }) <= (16 * 25 + 128) * 25 + 64 - 208) by (nonlinear_arith)
            requires
                alignment_count(25) == 5,
        ;

    } else if v == 26 {
        assert(alignment_count(26) == 5);
        assert(raw_data_modules(26) == 13652) by (nonlinear_arith)
            requires
                alignment_count(26) == 5,
        ;
        assert(208 <= raw_data_modules(26) <= 29648);
        assert(((25 * alignment_count(26) - 10) * alignment_count(26) - 55) + (if 26 >= 7 { 36int } else { 0int }) <= (16 * 26 + 128) * 26 + 64 - 208) by (nonlinear_arith)
            requires
                alignment_count(26) == 5,
        ;

    } else if v == 27 {
        assert(alignment_count(27) == 5);
        assert(raw_data_modules(27) == 14628) by (nonlinear_arith)
            requires
                alignment_count(27) == 5,
        ;
        assert(208 <= raw_data_modules(27) <= 29648);
        assert(((25 * alignment_count(27) - 10) * alignment_count(27) - 55) + (if 27 >= 7 { 36int } else { 0int }) <= (16 * 27 + 128) * 27 + 64 - 208) by (nonlinear_arith)
            requires
                alignment_count(27) == 5,
        ;

    } else if v == 28 {
        assert(alignment_count(28) == 6);
        assert(raw_data_modules(28) == 15371) by (nonlinear_arith)
            requires
                alignment_count(28) == 6,
        ;
        assert(208 <= raw_data_modules(28) <= 29648);
        assert(((25 * alignment_count(28) - 10) * alignment_count(28) - 55) + (if 28 >= 7 { 36int } else { 0int }) <= (16 * 28 + 128) * 28 + 64 - 208) by (nonlinear_arith)
            requires
                alignment_count(28) == 6,
        ;

    } else if v == 29 {
        assert(alignment_count(29) == 6);
        assert(raw_data_modules(29) == 16411) by (nonlinear_arith)
            requires
                alignment_count(29) == 6,
        ;
        assert(208 <= raw_data_modules(29) <= 29648);
        assert(((25 * alignment_count(29) - 10) * alignment_count(29) - 55) + (if 29 >= 7 { 36int } else { 0int }) <= (16 * 29 + 128) * 29 + 64 - 208) by (nonlinear_arith)
            requires
                alignment_count(29) == 6,
        ;

    } else if v == 30 {
        assert(alignment_count(30) == 6);
        assert(raw_data_modules(30) == 17483) by (nonlinear_arith)
            requires
                alignment_count(30) == 6,
        ;
        assert(208 <= raw_data_modules(30) <= 29648);
        assert(((25 * alignment_count(30) - 10) * alignment_count(30) - 55) + (if 30 >= 7 { 36int } else { 0int }) <= (16 * 30 + 128) * 30 + 64 - 208) by (nonlinear_arith)
            requires
                alignment_count(30) == 6,
        ;

    } else if v == 31 {
        assert(alignment_count(31) == 6);
        assert(raw_data_modules(31) == 18587) by (nonlinear_arith)
            requires
                alignment_count(31) == 6,
        ;
        assert(208 <= raw_data_modules(31) <= 29648);
        assert(((25 * alignment_count(31) - 10) * alignment_count(31) - 55) + (if 31 >= 7 { 36int } else { 0int }) <= (16 * 31 + 128) * 31 + 64 - 208) by (nonlinear_arith)
            requires
                alignment_count(31) == 6,
        ;

    } else if v == 32 {
        assert(alignment_count(32) == 6);
        assert(raw_data_modules(32) == 19723) by (nonlinear_arith)
            requires
                alignment_count(32) == 6,
        ;
        assert(208 <= raw_data_modules(32) <= 29648);
        assert(((25 * alignment_count(32) - 10) * alignment_count(32) - 55) + (if 32 >= 7 { 36int } else { 0int }) <= (16 * 32 + 128) * 32 + 64 - 208) by (nonlinear_arith)
            requires
                alignment_count(32) == 6,
        ;

    } else if v == 33 {
        assert(alignment_count(33) == 6);
        assert(raw_data_modules(33) == 20891) by (nonlinear_arith)
            requires
                alignment_count(33) == 6,
        ;
        assert(208 <= raw_data_modules(33) <= 29648);
        assert(((25 * alignment_count(33) - 10) * alignment_count(33) - 55) + (if 33 >= 7 { 36int } else { 0int }) <= (16 * 33 + 128) * 33 + 64 - 208) by (nonlinear_arith)
            requires
                alignment_count(33) == 6,
        ;

    } else if v == 34 {
        assert(alignment_count(34) == 6);
        assert(raw_data_modules(34) == 22091) by (nonlinear_arith)
            requires
                alignment_count(34) == 6,
        ;
        assert(208 <= raw_data_modules(34) <= 29648);
        assert(((25 * alignment_count(34) - 10) * alignment_count(34) - 55) + (if 34 >= 7 { 36int } else { 0int }) <= (16 * 34 + 128) * 34 + 64 - 208) by (nonlinear_arith)
            requires
                alignment_count(34) == 6,
        ;

    } else if v == 35 {
        assert(alignment_count(35) == 7);
        assert(raw_data_modules(35) == 23008) by (nonlinear_arith)
            requires
                alignment_count(35) == 7,
        ;
        assert(208 <= raw_data_modules(35) <= 29648);
        assert(((25 * alignment_count(35) - 10) * alignment_count(35) - 55) + (if 35 >= 7 { 36int } else { 0int }) <= (16 * 35 + 128) * 35 + 64 - 208) by (nonlinear_arith)
            requires
                alignment_count(35) == 7,
        ;

    } else if v == 36 {
        assert(alignment_count(36) == 7);
        assert(raw_data_modules(36) == 24272) by (nonlinear_arith)
            requires
                alignment_count(36) == 7,
        ;
        assert(208 <= raw_data_modules(36) <= 29648);
        assert(((25 * alignment_count(36) - 10) * alignment_count(36) - 55) + (if 36 >= 7 { 36int } else { 0int }) <= (16 * 36 + 128) * 36 + 64 - 208) by (nonlinear_arith)
            requires
                alignment_count(36) == 7,
        ;

    } else if v == 37 {
        assert(alignment_count(37) == 7);
        assert(raw_data_modules(37) == 25568) by (nonlinear_arith)
            requires
                alignment_count(37) == 7,
        ;
        assert(208 <= raw_data_modules(37) <= 29648);
        assert(((25 * alignment_count(37) - 10) * alignment_count(37) - 55) + (if 37 >= 7 { 36int } else { 0int }) <= (16 * 37 + 128) * 37 + 64 - 208) by (nonlinear_arith)
            requires
                alignment_count(37) == 7,
        ;

    } else if v == 38 {
        assert(alignment_count(38) == 7);
        assert(raw_data_modules(38) == 26896) by (nonlinear_arith)
            requires
                alignment_count(38) == 7,
        ;
        assert(208 <= raw_data_modules(38) <= 29648);
        assert(((25 * alignment_count(38) - 10) * alignment_count(38) - 55) + (if 38 >= 7 { 36int } else { 0int }) <= (16 * 38 + 128) * 38 + 64 - 208) by (nonlinear_arith)
            requires
                alignment_count(38) == 7,
        ;

    } else if v == 39 {
        assert(alignment_count(39) == 7);
        assert(raw_data_modules(39) == 28256) by (nonlinear_arith)
            requires
                alignment_count(39) == 7,
        ;
        assert(208 <= raw_data_modules(39) <= 29648);
        assert(((25 * alignment_count(39) - 10) * alignment_count(39) - 55) + (if 39 >= 7 { 36int } else { 0int }) <= (16 * 39 + 128) * 39 + 64 - 208) by (nonlinear_arith)
            requires
                alignment_count(39) == 7,
        ;

    } else if v == 40 {
        assert(alignment_count(40) == 7);
        assert(raw_data_modules(40) == 29648) by (nonlinear_arith)
            requires
                alignment_count(40) == 7,
        ;
        assert(208 <= raw_data_modules(40) <= 29648);
        assert(((25 * alignment_count(40) - 10) * alignment_count(40) - 55) + (if 40 >= 7 { 36int } else { 0int }) <= (16 * 40 + 128) * 40 + 64 - 208) by (nonlinear_arith)
            requires
                alignment_count(40) == 7,
        ;

    }
}

/// Shape facts of the block tables: at least one block, 7 to 30 error correction codewords
/// per block, and room for data in every block.
pub proof fn lemma_tables(level: ErrorCorrectionLevel, version: nat)
    requires
        1 <= version <= 40,
    ensures
        1 <= block_count(level, version),
        7 <= ecc_per_block(level, version) <= 30,
        ecc_per_block(level, version) * block_count(level, version) < raw_data_modules(version) / 8,
        raw_data_modules(version) / 8 < 3707,
        ecc_per_block(level, version) + 1 < raw_data_modules(version) / 8 / block_count(level, version),
{
    let v = version;
    lemma_raw_bounds(version);
    if v == 1 {
        assert(raw_data_modules(1) == 208) by (nonlinear_arith)
            requires
                alignment_count(1) == 2,
        ;
        assert(alignment_count(1) == 2);
        assert(ecc_per_block(ErrorCorrectionLevel::Low, 1) == 7 && block_count(ErrorCorrectionLevel::Low, 1) == 1);
        assert(ecc_per_block(ErrorCorrectionLevel::Low, 1) * block_count(ErrorCorrectionLevel::Low, 1) < raw_data_modules(1) / 8 && ecc_per_block(ErrorCorrectionLevel::Low, 1) + 1 < raw_data_modules(1) / 8 / block_count(ErrorCorrectionLevel::Low, 1) && 1 <= block_count(ErrorCorrectionLevel::Low, 1) && 7 <= ecc_per_block(ErrorCorrectionLevel::Low, 1) <= 30) by (nonlinear_arith)
            requires
                ecc_per_block(ErrorCorrectionLevel::Low, 1) == 7,
                block_count(ErrorCorrectionLevel::Low, 1) == 1,
                raw_data_modules(1) == 208,
        ;
        assert(ecc_per_block(ErrorCorrectionLevel::Medium, 1) == 10 && block_count(ErrorCorrectionLevel::Medium, 1) == 1);
        assert(ecc_per_block(ErrorCorrectionLevel::Medium, 1) * block_count(ErrorCorrectionLevel::Medium, 1) < raw_data_modules(1) / 8 && ecc_per_block(ErrorCorrectionLevel::Medium, 1) + 1 < raw_data_modules(1) / 8 / block_count(ErrorCorrectionLevel::Medium, 1) && 1 <= block_count(ErrorCorrectionLevel::Medium, 1) && 7 <= ecc_per_block(ErrorCorrectionLevel::Medium, 1) <= 30) by (nonlinear_arith)
            requires
                ecc_per_block(ErrorCorrectionLevel::Medium, 1) == 10,
                block_count(ErrorCorrectionLevel::Medium, 1) == 1,
                raw_data_modules(1) == 208,
        ;
        assert(ecc_per_block(ErrorCorrectionLevel::Quartile, 1) == 13 && block_count(ErrorCorrectionLevel::Quartile, 1) == 1);
        assert(ecc_per_block(ErrorCorrectionLevel::Quartile, 1) * block_count(ErrorCorrectionLevel::Quartile, 1) < raw_data_modules(1) / 8 && ecc_per_block(ErrorCorrectionLevel::Quartile, 1) + 1 < raw_data_modules(1) / 8 / block_count(ErrorCorrectionLevel::Quartile, 1) && 1 <= block_count(ErrorCorrectionLevel::Quartile, 1) && 7 <= ecc_per_block(ErrorCorrectionLevel::Quartile, 1) <= 30) by (nonlinear_arith)
            requires
                ecc_per_block(ErrorCorrectionLevel::Quartile, 1) == 13,
                block_count(ErrorCorrectionLevel::Quartile, 1) == 1,
                raw_data_modules(1) == 208,
        ;
        assert(ecc_per_block(ErrorCorrectionLevel::High, 1) == 17 && block_count(ErrorCorrectionLevel::High, 1) == 1);
        assert(ecc_per_block(ErrorCorrectionLevel::High, 1) * block_count(ErrorCorrectionLevel::High, 1) < raw_data_modules(1) / 8 && ecc_per_block(ErrorCorrectionLevel::High, 1) + 1 < raw_data_modules(1) / 8 / block_count(ErrorCorrectionLevel::High, 1) && 1 <= block_count(ErrorCorrectionLevel::High, 1) && 7 <= ecc_per_block(ErrorCorrectionLevel::High, 1) <= 30) by (nonlinear_arith)
            requires
                ecc_per_block(ErrorCorrectionLevel::High, 1) == 17,
                block_count(ErrorCorrectionLevel::High, 1) == 1,
                raw_data_modules(1) == 208,
        ;

    } else if v == 2 {
        assert(raw_data_modules(2) == 359) by (nonlinear_arith)
            requires
                alignment_count(2) == 2,
        ;
        assert(alignment_count(2) == 2);
        assert(ecc_per_block(ErrorCorrectionLevel::Low, 2) == 10 && block_count(ErrorCorrectionLevel::Low, 2) == 1);
        assert(ecc_per_block(ErrorCorrectionLevel::Low, 2) * block_count(ErrorCorrectionLevel::Low, 2) < raw_data_modules(2) / 8 && ecc_per_block(ErrorCorrectionLevel::Low, 2) + 1 < raw_data_modules(2) / 8 / block_count(ErrorCorrectionLevel::Low, 2) && 1 <= block_count(ErrorCorrectionLevel::Low, 2) && 7 <= ecc_per_block(ErrorCorrectionLevel::Low, 2) <= 30) by (nonlinear_arith)
            requires
                ecc_per_block(ErrorCorrectionLevel::Low, 2) == 10,
                block_count(ErrorCorrectionLevel::Low, 2) == 1,
                raw_data_modules(2) == 359,
        ;
        assert(ecc_per_block(ErrorCorrectionLevel::Medium, 2) == 16 && block_count(ErrorCorrectionLevel::Medium, 2) == 1);
        assert(ecc_per_block(ErrorCorrectionLevel::Medium, 2) * block_count(ErrorCorrectionLevel::Medium, 2) < raw_data_modules(2) / 8 && ecc_per_block(ErrorCorrectionLevel::Medium, 2) + 1 < raw_data_modules(2) / 8 / block_count(ErrorCorrectionLevel::Medium, 2) && 1 <= block_count(ErrorCorrectionLevel::Medium, 2) && 7 <= ecc_per_block(ErrorCorrectionLevel::Medium, 2) <= 30) by (nonlinear_arith)
            requires
                ecc_per_block(ErrorCorrectionLevel::Medium, 2) == 16,
                block_count(ErrorCorrectionLevel::Medium, 2) == 1,
                raw_data_modules(2) == 359,
        ;
        assert(ecc_per_block(ErrorCorrectionLevel::Quartile, 2) == 22 && block_count(ErrorCorrectionLevel::Quartile, 2) == 1);
        assert(ecc_per_block(ErrorCorrectionLevel::Quartile, 2) * block_count(ErrorCorrectionLevel::Quartile, 2) < raw_data_modules(2) / 8 && ecc_per_block(ErrorCorrectionLevel::Quartile, 2) + 1 < raw_data_modules(2) / 8 / block_count(ErrorCorrectionLevel::Quartile, 2) && 1 <= block_count(ErrorCorrectionLevel::Quartile, 2) && 7 <= ecc_per_block(ErrorCorrectionLevel::Quartile, 2) <= 30) by (nonlinear_arith)
            requires
                ecc_per_block(ErrorCorrectionLevel::Quartile, 2) == 22,
                block_count(ErrorCorrectionLevel::Quartile, 2) == 1,
                raw_data_modules(2) == 359,
        ;
        assert(ecc_per_block(ErrorCorrectionLevel::High, 2) == 28 && block_count(ErrorCorrectionLevel::High, 2) == 1);
        assert(ecc_per_block(ErrorCorrectionLevel::High, 2) * block_count(ErrorCorrectionLevel::High, 2) < raw_data_modules(2) / 8 && ecc_per_block(ErrorCorrectionLevel::High, 2) + 1 < raw_data_modules(2) / 8 / block_count(ErrorCorrectionLevel::High, 2) && 1 <= block_count(ErrorCorrectionLevel::High, 2) && 7 <= ecc_per_block(ErrorCorrectionLevel::High, 2) <= 30) by (nonlinear_arith)
            requires
                ecc_per_block(ErrorCorrectionLevel::High, 2) == 28,
                block_count(ErrorCorrectionLevel::High, 2) == 1,
                raw_data_modules(2) == 359,
        ;

    } else if v == 3 {
        assert(raw_data_modules(3) == 567) by (nonlinear_arith)
            requires
                alignment_count(3) == 2,
        ;
        assert(alignment_count(3) == 2);
        assert(ecc_per_block(ErrorCorrectionLevel::Low, 3) == 15 && block_count(ErrorCorrectionLevel::Low, 3) == 1);
        assert(ecc_per_block(ErrorCorrectionLevel::Low, 3) * block_count(ErrorCorrectionLevel::Low, 3) < raw_data_modules(3) / 8 && ecc_per_block(ErrorCorrectionLevel::Low, 3) + 1 < raw_data_modules(3) / 8 / block_count(ErrorCorrectionLevel::Low, 3) && 1 <= block_count(ErrorCorrectionLevel::Low, 3) && 7 <= ecc_per_block(ErrorCorrectionLevel::Low, 3) <= 30) by (nonlinear_arith)
            requires
                ecc_per_block(ErrorCorrectionLevel::Low, 3) == 15,
                block_count(ErrorCorrectionLevel::Low, 3) == 1,
                raw_data_modules(3) == 567,
        ;
        assert(ecc_per_block(ErrorCorrectionLevel::Medium, 3) == 26 && block_count(ErrorCorrectionLevel::Medium, 3) == 1);
        assert(ecc_per_block(ErrorCorrectionLevel::Medium, 3) * block_count(ErrorCorrectionLevel::Medium, 3) < raw_data_modules(3) / 8 && ecc_per_block(ErrorCorrectionLevel::Medium, 3) + 1 < raw_data_modules(3) / 8 / block_count(ErrorCorrectionLevel::Medium, 3) && 1 <= block_count(ErrorCorrectionLevel::Medium, 3) && 7 <= ecc_per_block(ErrorCorrectionLevel::Medium, 3) <= 30) by (nonlinear_arith)
            requires
                ecc_per_block(ErrorCorrectionLevel::Medium, 3) == 26,
                block_count(ErrorCorrectionLevel::Medium, 3) == 1,
                raw_data_modules(3) == 567,
        ;
        assert(ecc_per_block(ErrorCorrectionLevel::Quartile, 3) == 18 && block_count(ErrorCorrectionLevel::Quartile, 3) == 2);
        assert(ecc_per_block(ErrorCorrectionLevel::Quartile, 3) * block_count(ErrorCorrectionLevel::Quartile, 3) < raw_data_modules(3) / 8 && ecc_per_block(ErrorCorrectionLevel::Quartile, 3) + 1 < raw_data_modules(3) / 8 / block_count(ErrorCorrectionLevel::Quartile, 3) && 1 <= block_count(ErrorCorrectionLevel::Quartile, 3) && 7 <= ecc_per_block(ErrorCorrectionLevel::Quartile, 3) <= 30) by (nonlinear_arith)
            requires
                ecc_per_block(ErrorCorrectionLevel::Quartile, 3) == 18,
                block_count(ErrorCorrectionLevel::Quartile, 3) == 2,
                raw_data_modules(3) == 567,
        ;
        assert(ecc_per_block(ErrorCorrectionLevel::High, 3) == 22 && block_count(ErrorCorrectionLevel::High, 3) == 2);
        assert(ecc_per_block(ErrorCorrectionLevel::High, 3) * block_count(ErrorCorrectionLevel::High, 3) < raw_data_modules(3) / 8 && ecc_per_block(ErrorCorrectionLevel::High, 3) + 1 < raw_data_modules(3) / 8 / block_count(ErrorCorrectionLevel::High, 3) && 1 <= block_count(ErrorCorrectionLevel::High, 3) && 7 <= ecc_per_block(ErrorCorrectionLevel::High, 3) <= 30) by (nonlinear_arith)
            requires
                ecc_per_block(ErrorCorrectionLevel::High, 3) == 22,
                block_count(ErrorCorrectionLevel::High, 3) == 2,
                raw_data_modules(3) == 567,
        ;

    } else if v == 4 {
        assert(raw_data_modules(4) == 807) by (nonlinear_arith)
            requires
                alignment_count(4) == 2,
        ;
        assert(alignment_count(4) == 2);
        assert(ecc_per_block(ErrorCorrectionLevel::Low, 4) == 20 && block_count(ErrorCorrectionLevel::Low, 4) == 1);
        assert(ecc_per_block(ErrorCorrectionLevel::Low, 4) * block_count(ErrorCorrectionLevel::Low, 4) < raw_data_modules(4) / 8 && ecc_per_block(ErrorCorrectionLevel::Low, 4) + 1 < raw_data_modules(4) / 8 / block_count(ErrorCorrectionLevel::Low, 4) && 1 <= block_count(ErrorCorrectionLevel::Low, 4) && 7 <= ecc_per_block(ErrorCorrectionLevel::Low, 4) <= 30) by (nonlinear_arith)
            requires
                ecc_per_block(ErrorCorrectionLevel::Low, 4) == 20,
                block_count(ErrorCorrectionLevel::Low, 4) == 1,
                raw_data_modules(4) == 807,
        ;
        assert(ecc_per_block(ErrorCorrectionLevel::Medium, 4) == 18 && block_count(ErrorCorrectionLevel::Medium, 4) == 2);
        assert(ecc_per_block(ErrorCorrectionLevel::Medium, 4) * block_count(ErrorCorrectionLevel::Medium, 4) < raw_data_modules(4) / 8 && ecc_per_block(ErrorCorrectionLevel::Medium, 4) + 1 < raw_data_modules(4) / 8 / block_count(ErrorCorrectionLevel::Medium, 4) && 1 <= block_count(ErrorCorrectionLevel::Medium, 4) && 7 <= ecc_per_block(ErrorCorrectionLevel::Medium, 4) <= 30) by (nonlinear_arith)
            requires
                ecc_per_block(ErrorCorrectionLevel::Medium, 4) == 18,
                block_count(ErrorCorrectionLevel::Medium, 4) == 2,
                raw_data_modules(4) == 807,
        ;
        assert(ecc_per_block(ErrorCorrectionLevel::Quartile, 4) == 26 && block_count(ErrorCorrectionLevel::Quartile, 4) == 2);
        assert(ecc_per_block(ErrorCorrectionLevel::Quartile, 4) * block_count(ErrorCorrectionLevel::Quartile, 4) < raw_data_modules(4) / 8 && ecc_per_block(ErrorCorrectionLevel::Quartile, 4) + 1 < raw_data_modules(4) / 8 / block_count(ErrorCorrectionLevel::Quartile, 4) && 1 <= block_count(ErrorCorrectionLevel::Quartile, 4) && 7 <= ecc_per_block(ErrorCorrectionLevel::Quartile, 4) <= 30) by (nonlinear_arith)
            requires
                ecc_per_block(ErrorCorrectionLevel::Quartile, 4) == 26,
                block_count(ErrorCorrectionLevel::Quartile, 4) == 2,
                raw_data_modules(4) == 807,
        ;
        assert(ecc_per_block(ErrorCorrectionLevel::High, 4) == 16 && block_count(ErrorCorrectionLevel::High, 4) == 4);
        assert(ecc_per_block(ErrorCorrectionLevel::High, 4) * block_count(ErrorCorrectionLevel::High, 4) < raw_data_modules(4) / 8 && ecc_per_block(ErrorCorrectionLevel::High, 4) + 1 < raw_data_modules(4) / 8 / block_count(ErrorCorrectionLevel::High, 4) && 1 <= block_count(ErrorCorrectionLevel::High, 4) && 7 <= ecc_per_block(ErrorCorrectionLevel::High, 4) <= 30) by (nonlinear_arith)
            requires
                ecc_per_block(ErrorCorrectionLevel::High, 4) == 16,
                block_count(ErrorCorrectionLevel::High, 4) == 4,
                raw_data_modules(4) == 807,
        ;

    } else if v == 5 {
        assert(raw_data_modules(5) == 1079) by (nonlinear_arith)
            requires
                alignment_count(5) == 2,
        ;
        assert(alignment_count(5) == 2);
        assert(ecc_per_block(ErrorCorrectionLevel::Low, 5) == 26 && block_count(ErrorCorrectionLevel::Low, 5) == 1);
        assert(ecc_per_block(ErrorCorrectionLevel::Low, 5) * block_count(ErrorCorrectionLevel::Low, 5) < raw_data_modules(5) / 8 && ecc_per_block(ErrorCorrectionLevel::Low, 5) + 1 < raw_data_modules(5) / 8 / block_count(ErrorCorrectionLevel::Low, 5) && 1 <= block_count(ErrorCorrectionLevel::Low, 5) && 7 <= ecc_per_block(ErrorCorrectionLevel::Low, 5) <= 30) by (nonlinear_arith)
            requires
                ecc_per_block(ErrorCorrectionLevel::Low, 5) == 26,
                block_count(ErrorCorrectionLevel::Low, 5) == 1,
                raw_data_modules(5) == 1079,
        ;
        assert(ecc_per_block(ErrorCorrectionLevel::Medium, 5) == 24 && block_count(ErrorCorrectionLevel::Medium, 5) == 2);
        assert(ecc_per_block(ErrorCorrectionLevel::Medium, 5) * block_count(ErrorCorrectionLevel::Medium, 5) < raw_data_modules(5) / 8 && ecc_per_block(ErrorCorrectionLevel::Medium, 5) + 1 < raw_data_modules(5) / 8 / block_count(ErrorCorrectionLevel::Medium, 5) && 1 <= block_count(ErrorCorrectionLevel::Medium, 5) && 7 <= ecc_per_block(ErrorCorrectionLevel::Medium, 5) <= 30) by (nonlinear_arith)
            requires
                ecc_per_block(ErrorCorrectionLevel::Medium, 5) == 24,
                block_count(ErrorCorrectionLevel::Medium, 5) == 2,
                raw_data_modules(5) == 1079,
        ;
        assert(ecc_per_block(ErrorCorrectionLevel::Quartile, 5) == 18 && block_count(ErrorCorrectionLevel::Quartile, 5) == 4);
        assert(ecc_per_block(ErrorCorrectionLevel::Quartile, 5) * block_count(ErrorCorrectionLevel::Quartile, 5) < raw_data_modules(5) / 8 && ecc_per_block(ErrorCorrectionLevel::Quartile, 5) + 1 < raw_data_modules(5) / 8 / block_count(ErrorCorrectionLevel::Quartile, 5) && 1 <= block_count(ErrorCorrectionLevel::Quartile, 5) && 7 <= ecc_per_block(ErrorCorrectionLevel::Quartile, 5) <= 30) by (nonlinear_arith)
            requires
                ecc_per_block(ErrorCorrectionLevel::Quartile, 5) == 18,
                block_count(ErrorCorrectionLevel::Quartile, 5) == 4,
                raw_data_modules(5) == 1079,
        ;
        assert(ecc_per_block(ErrorCorrectionLevel::High, 5) == 22 && block_count(ErrorCorrectionLevel::High, 5) == 4);
        assert(ecc_per_block(ErrorCorrectionLevel::High, 5) * block_count(ErrorCorrectionLevel::High, 5) < raw_data_modules(5) / 8 && ecc_per_block(ErrorCorrectionLevel::High, 5) + 1 < raw_data_modules(5) / 8 / block_count(ErrorCorrectionLevel::High, 5) && 1 <= block_count(ErrorCorrectionLevel::High, 5) && 7 <= ecc_per_block(ErrorCorrectionLevel::High, 5) <= 30) by (nonlinear_arith)
            requires
                ecc_per_block(ErrorCorrectionLevel::High, 5) == 22,
                block_count(ErrorCorrectionLevel::High, 5) == 4,
                raw_data_modules(5) == 1079,
        ;

    } else if v == 6 {
        assert(raw_data_modules(6) == 1383) by (nonlinear_arith)
            requires
                alignment_count(6) == 2,
        ;
        assert(alignment_count(6) == 2);
        assert(ecc_per_block(ErrorCorrectionLevel::Low, 6) == 18 && block_count(ErrorCorrectionLevel::Low, 6) == 2);
        assert(ecc_per_block(ErrorCorrectionLevel::Low, 6) * block_count(ErrorCorrectionLevel::Low, 6) < raw_data_modules(6) / 8 && ecc_per_block(ErrorCorrectionLevel::Low, 6) + 1 < raw_data_modules(6) / 8 / block_count(ErrorCorrectionLevel::Low, 6) && 1 <= block_count(ErrorCorrectionLevel::Low, 6) && 7 <= ecc_per_block(ErrorCorrectionLevel::Low, 6) <= 30) by (nonlinear_arith)
            requires
                ecc_per_block(ErrorCorrectionLevel::Low, 6) == 18,
                block_count(ErrorCorrectionLevel::Low, 6) == 2,
                raw_data_modules(6) == 1383,
        ;
        assert(ecc_per_block(ErrorCorrectionLevel::Medium, 6) == 16 && block_count(ErrorCorrectionLevel::Medium, 6) == 4);
        assert(ecc_per_block(ErrorCorrectionLevel::Medium, 6) * block_count(ErrorCorrectionLevel::Medium, 6) < raw_data_modules(6) / 8 && ecc_per_block(ErrorCorrectionLevel::Medium, 6) + 1 < raw_data_modules(6) / 8 / block_count(ErrorCorrectionLevel::Medium, 6) && 1 <= block_count(ErrorCorrectionLevel::Medium, 6) && 7 <= ecc_per_block(ErrorCorrectionLevel::Medium, 6) <= 30) by (nonlinear_arith)
            requires
                ecc_per_block(ErrorCorrectionLevel::Medium, 6) == 16,
                block_count(ErrorCorrectionLevel::Medium, 6) == 4,
                raw_data_modules(6) == 1383,
        ;
        assert(ecc_per_block(ErrorCorrectionLevel::Quartile, 6) == 24 && block_count(ErrorCorrectionLevel::Quartile, 6) == 4);
        assert(ecc_per_block(ErrorCorrectionLevel::Quartile, 6) * block_count(ErrorCorrectionLevel::Quartile, 6) < raw_data_modules(6) / 8 && ecc_per_block(ErrorCorrectionLevel::Quartile, 6) + 1 < raw_data_modules(6) / 8 / block_count(ErrorCorrectionLevel::Quartile, 6) && 1 <= block_count(ErrorCorrectionLevel::Quartile, 6) && 7 <= ecc_per_block(ErrorCorrectionLevel::Quartile, 6) <= 30) by (nonlinear_arith)
            requires
                ecc_per_block(ErrorCorrectionLevel::Quartile, 6) == 24,
                block_count(ErrorCorrectionLevel::Quartile, 6) == 4,
                raw_data_modules(6) == 1383,
        ;
        assert(ecc_per_block(ErrorCorrectionLevel::High, 6) == 28 && block_count(ErrorCorrectionLevel::High, 6) == 4);
        assert(ecc_per_block(ErrorCorrectionLevel::High, 6) * block_count(ErrorCorrectionLevel::High, 6) < raw_data_modules(6) / 8 && ecc_per_block(ErrorCorrectionLevel::High, 6) + 1 < raw_data_modules(6) / 8 / block_count(ErrorCorrectionLevel::High, 6) && 1 <= block_count(ErrorCorrectionLevel::High, 6) && 7 <= ecc_per_block(ErrorCorrectionLevel::High, 6) <= 30) by (nonlinear_arith)
            requires
                ecc_per_block(ErrorCorrectionLevel::High, 6) == 28,
                block_count(ErrorCorrectionLevel::High, 6) == 4,
                raw_data_modules(6) == 1383,
        ;

    } else if v == 7 {
        assert(raw_data_modules(7) == 1568) by (nonlinear_arith)
            requires
                alignment_count(7) == 3,
        ;
        assert(alignment_count(7) == 3);
        assert(ecc_per_block(ErrorCorrectionLevel::Low, 7) == 20 && block_count(ErrorCorrectionLevel::Low, 7) == 2);
        assert(ecc_per_block(ErrorCorrectionLevel::Low, 7) * block_count(ErrorCorrectionLevel::Low, 7) < raw_data_modules(7) / 8 && ecc_per_block(ErrorCorrectionLevel::Low, 7) + 1 < raw_data_modules(7) / 8 / block_count(ErrorCorrectionLevel::Low, 7) && 1 <= block_count(ErrorCorrectionLevel::Low, 7) && 7 <= ecc_per_block(ErrorCorrectionLevel::Low, 7) <= 30) by (nonlinear_arith)
            requires
                ecc_per_block(ErrorCorrectionLevel::Low, 7) == 20,
                block_count(ErrorCorrectionLevel::Low, 7) == 2,
                raw_data_modules(7) == 1568,
        ;
        assert(ecc_per_block(ErrorCorrectionLevel::Medium, 7) == 18 && block_count(ErrorCorrectionLevel::Medium, 7) == 4);
        assert(ecc_per_block(ErrorCorrectionLevel::Medium, 7) * block_count(ErrorCorrectionLevel::Medium, 7) < raw_data_modules(7) / 8 && ecc_per_block(ErrorCorrectionLevel::Medium, 7) + 1 < raw_data_modules(7) / 8 / block_count(ErrorCorrectionLevel::Medium, 7) && 1 <= block_count(ErrorCorrectionLevel::Medium, 7) && 7 <= ecc_per_block(ErrorCorrectionLevel::Medium, 7) <= 30) by (nonlinear_arith)
            requires
                ecc_per_block(ErrorCorrectionLevel::Medium, 7) == 18,
                block_count(ErrorCorrectionLevel::Medium, 7) == 4,
                raw_data_modules(7) == 1568,
        ;
        assert(ecc_per_block(ErrorCorrectionLevel::Quartile, 7) == 18 && block_count(ErrorCorrectionLevel::Quartile, 7) == 6);
        assert(ecc_per_block(ErrorCorrectionLevel::Quartile, 7) * block_count(ErrorCorrectionLevel::Quartile, 7) < raw_data_modules(7) / 8 && ecc_per_block(ErrorCorrectionLevel::Quartile, 7) + 1 < raw_data_modules(7) / 8 / block_count(ErrorCorrectionLevel::Quartile, 7) && 1 <= block_count(ErrorCorrectionLevel::Quartile, 7) && 7 <= ecc_per_block(ErrorCorrectionLevel::Quartile, 7) <= 30) by (nonlinear_arith)
            requires
                ecc_per_block(ErrorCorrectionLevel::Quartile, 7) == 18,
                block_count(ErrorCorrectionLevel::Quartile, 7) == 6,
                raw_data_modules(7) == 1568,
        ;
        assert(ecc_per_block(ErrorCorrectionLevel::High, 7) == 26 && block_count(ErrorCorrectionLevel::High, 7) == 5);
        assert(ecc_per_block(ErrorCorrectionLevel::High, 7) * block_count(ErrorCorrectionLevel::High, 7) < raw_data_modules(7) / 8 && ecc_per_block(ErrorCorrectionLevel::High, 7) + 1 < raw_data_modules(7) / 8 / block_count(ErrorCorrectionLevel::High, 7) && 1 <= block_count(ErrorCorrectionLevel::High, 7) && 7 <= ecc_per_block(ErrorCorrectionLevel::High, 7) <= 30) by (nonlinear_arith)
            requires
                ecc_per_block(ErrorCorrectionLevel::High, 7) == 26,
                block_count(ErrorCorrectionLevel::High, 7) == 5,
                raw_data_modules(7) == 1568,
        ;

    } else if v == 8 {
        assert(raw_data_modules(8) == 1936) by (nonlinear_arith)
            requires
                alignment_count(8) == 3,
        ;
        assert(alignment_count(8) == 3);
        assert(ecc_per_block(ErrorCorrectionLevel::Low, 8) == 24 && block_count(ErrorCorrectionLevel::Low, 8) == 2);
        assert(ecc_per_block(ErrorCorrectionLevel::Low, 8) * block_count(ErrorCorrectionLevel::Low, 8) < raw_data_modules(8) / 8 && ecc_per_block(ErrorCorrectionLevel::Low, 8) + 1 < raw_data_modules(8) / 8 / block_count(ErrorCorrectionLevel::Low, 8) && 1 <= block_count(ErrorCorrectionLevel::Low, 8) && 7 <= ecc_per_block(ErrorCorrectionLevel::Low, 8) <= 30) by (nonlinear_arith)
            requires
                ecc_per_block(ErrorCorrectionLevel::Low, 8) == 24,
                block_count(ErrorCorrectionLevel::Low, 8) == 2,
                raw_data_modules(8) == 1936,
        ;
        assert(ecc_per_block(ErrorCorrectionLevel::Medium, 8) == 22 && block_count(ErrorCorrectionLevel::Medium, 8) == 4);
        assert(ecc_per_block(ErrorCorrectionLevel::Medium, 8) * block_count(ErrorCorrectionLevel::Medium, 8) < raw_data_modules(8) / 8 && ecc_per_block(ErrorCorrectionLevel::Medium, 8) + 1 < raw_data_modules(8) / 8 / block_count(ErrorCorrectionLevel::Medium, 8) && 1 <= block_count(ErrorCorrectionLevel::Medium, 8) && 7 <= ecc_per_block(ErrorCorrectionLevel::Medium, 8) <= 30) by (nonlinear_arith)
            requires
                ecc_per_block(ErrorCorrectionLevel::Medium, 8) == 22,
                block_count(ErrorCorrectionLevel::Medium, 8) == 4,
                raw_data_modules(8) == 1936,
        ;
        assert(ecc_per_block(ErrorCorrectionLevel::Quartile, 8) == 22 && block_count(ErrorCorrectionLevel::Quartile, 8) == 6);
        assert(ecc_per_block(ErrorCorrectionLevel::Quartile, 8) * block_count(ErrorCorrectionLevel::Quartile, 8) < raw_data_modules(8) / 8 && ecc_per_block(ErrorCorrectionLevel::Quartile, 8) + 1 < raw_data_modules(8) / 8 / block_count(ErrorCorrectionLevel::Quartile, 8) && 1 <= block_count(ErrorCorrectionLevel::Quartile, 8) && 7 <= ecc_per_block(ErrorCorrectionLevel::Quartile, 8) <= 30) by (nonlinear_arith)
            requires
                ecc_per_block(ErrorCorrectionLevel::Quartile, 8) == 22,
                block_count(ErrorCorrectionLevel::Quartile, 8) == 6,
                raw_data_modules(8) == 1936,
        ;
        assert(ecc_per_block(ErrorCorrectionLevel::High, 8) == 26 && block_count(ErrorCorrectionLevel::High, 8) == 6);
        assert(ecc_per_block(ErrorCorrectionLevel::High, 8) * block_count(ErrorCorrectionLevel::High, 8) < raw_data_modules(8) / 8 && ecc_per_block(ErrorCorrectionLevel::High, 8) + 1 < raw_data_modules(8) / 8 / block_count(ErrorCorrectionLevel::High, 8) && 1 <= block_count(ErrorCorrectionLevel::High, 8) && 7 <= ecc_per_block(ErrorCorrectionLevel::High, 8) <= 30) by (nonlinear_arith)
            requires
                ecc_per_block(ErrorCorrectionLevel::High, 8) == 26,
                block_count(ErrorCorrectionLevel::High, 8) == 6,
                raw_data_modules(8) == 1936,
        ;

    } else if v == 9 {
        assert(raw_data_modules(9) == 2336) by (nonlinear_arith)
            requires
                alignment_count(9) == 3,
        ;
        assert(alignment_count(9) == 3);
        assert(ecc_per_block(ErrorCorrectionLevel::Low, 9) == 30 && block_count(ErrorCorrectionLevel::Low, 9) == 2);
        assert(ecc_per_block(ErrorCorrectionLevel::Low, 9) * block_count(ErrorCorrectionLevel::Low, 9) < raw_data_modules(9) / 8 && ecc_per_block(ErrorCorrectionLevel::Low, 9) + 1 < raw_data_modules(9) / 8 / block_count(ErrorCorrectionLevel::Low, 9) && 1 <= block_count(ErrorCorrectionLevel::Low, 9) && 7 <= ecc_per_block(ErrorCorrectionLevel::Low, 9) <= 30) by (nonlinear_arith)
            requires
                ecc_per_block(ErrorCorrectionLevel::Low, 9) == 30,
                block_count(ErrorCorrectionLevel::Low, 9) == 2,
                raw_data_modules(9) == 2336,
        ;
        assert(ecc_per_block(ErrorCorrectionLevel::Medium, 9) == 22 && block_count(ErrorCorrectionLevel::Medium, 9) == 5);
        assert(ecc_per_block(ErrorCorrectionLevel::Medium, 9) * block_count(ErrorCorrectionLevel::Medium, 9) < raw_data_modules(9) / 8 && ecc_per_block(ErrorCorrectionLevel::Medium, 9) + 1 < raw_data_modules(9) / 8 / block_count(ErrorCorrectionLevel::Medium, 9) && 1 <= block_count(ErrorCorrectionLevel::Medium, 9) && 7 <= ecc_per_block(ErrorCorrectionLevel::Medium, 9) <= 30) by (nonlinear_arith)
            requires
                ecc_per_block(ErrorCorrectionLevel::Medium, 9) == 22,
                block_count(ErrorCorrectionLevel::Medium, 9) == 5,
                raw_data_modules(9) == 2336,
        ;
        assert(ecc_per_block(ErrorCorrectionLevel::Quartile, 9) == 20 && block_count(ErrorCorrectionLevel::Quartile, 9) == 8);
        assert(ecc_per_block(ErrorCorrectionLevel::Quartile, 9) * block_count(ErrorCorrectionLevel::Quartile, 9) < raw_data_modules(9) / 8 && ecc_per_block(ErrorCorrectionLevel::Quartile, 9) + 1 < raw_data_modules(9) / 8 / block_count(ErrorCorrectionLevel::Quartile, 9) && 1 <= block_count(ErrorCorrectionLevel::Quartile, 9) && 7 <= ecc_per_block(ErrorCorrectionLevel::Quartile, 9) <= 30) by (nonlinear_arith)
            requires
                ecc_per_block(ErrorCorrectionLevel::Quartile, 9) == 20,
                block_count(ErrorCorrectionLevel::Quartile, 9) == 8,
                raw_data_modules(9) == 2336,
        ;
        assert(ecc_per_block(ErrorCorrectionLevel::High, 9) == 24 && block_count(ErrorCorrectionLevel::High, 9) == 8);
        assert(ecc_per_block(ErrorCorrectionLevel::High, 9) * block_count(ErrorCorrectionLevel::High, 9) < raw_data_modules(9) / 8 && ecc_per_block(ErrorCorrectionLevel::High, 9) + 1 < raw_data_modules(9) / 8 / block_count(ErrorCorrectionLevel::High, 9) && 1 <= block_count(ErrorCorrectionLevel::High, 9) && 7 <= ecc_per_block(ErrorCorrectionLevel::High, 9) <= 30) by (nonlinear_arith)
            requires
                ecc_per_block(ErrorCorrectionLevel::High, 9) == 24,
                block_count(ErrorCorrectionLevel::High, 9) == 8,
                raw_data_modules(9) == 2336,
        ;

    } else if v == 10 {
        assert(raw_data_modules(10) == 2768) by (nonlinear_arith)
            requires
                alignment_count(10) == 3,
        ;
        assert(alignment_count(10) == 3);
        assert(ecc_per_block(ErrorCorrectionLevel::Low, 10) == 18 && block_count(ErrorCorrectionLevel::Low, 10) == 4);
        assert(ecc_per_block(ErrorCorrectionLevel::Low, 10) * block_count(ErrorCorrectionLevel::Low, 10) < raw_data_modules(10) / 8 && ecc_per_block(ErrorCorrectionLevel::Low, 10) + 1 < raw_data_modules(10) / 8 / block_count(ErrorCorrectionLevel::Low, 10) && 1 <= block_count(ErrorCorrectionLevel::Low, 10) && 7 <= ecc_per_block(ErrorCorrectionLevel::Low, 10) <= 30) by (nonlinear_arith)
            requires
                ecc_per_block(ErrorCorrectionLevel::Low, 10) == 18,
                block_count(ErrorCorrectionLevel::Low, 10) == 4,
                raw_data_modules(10) == 2768,
        ;
        assert(ecc_per_block(ErrorCorrectionLevel::Medium, 10) == 26 && block_count(ErrorCorrectionLevel::Medium, 10) == 5);
        assert(ecc_per_block(ErrorCorrectionLevel::Medium, 10) * block_count(ErrorCorrectionLevel::Medium, 10) < raw_data_modules(10) / 8 && ecc_per_block(ErrorCorrectionLevel::Medium, 10) + 1 < raw_data_modules(10) / 8 / block_count(ErrorCorrectionLevel::Medium, 10) && 1 <= block_count(ErrorCorrectionLevel::Medium, 10) && 7 <= ecc_per_block(ErrorCorrectionLevel::Medium, 10) <= 30) by (nonlinear_arith)
            requires
                ecc_per_block(ErrorCorrectionLevel::Medium, 10) == 26,
                block_count(ErrorCorrectionLevel::Medium, 10) == 5,
                raw_data_modules(10) == 2768,
        ;
        assert(ecc_per_block(ErrorCorrectionLevel::Quartile, 10) == 24 && block_count(ErrorCorrectionLevel::Quartile, 10) == 8);
        assert(ecc_per_block(ErrorCorrectionLevel::Quartile, 10) * block_count(ErrorCorrectionLevel::Quartile, 10) < raw_data_modules(10) / 8 && ecc_per_block(ErrorCorrectionLevel::Quartile, 10) + 1 < raw_data_modules(10) / 8 / block_count(ErrorCorrectionLevel::Quartile, 10) && 1 <= block_count(ErrorCorrectionLevel::Quartile, 10) && 7 <= ecc_per_block(ErrorCorrectionLevel::Quartile, 10) <= 30) by (nonlinear_arith)
            requires
                ecc_per_block(ErrorCorrectionLevel::Quartile, 10) == 24,
                block_count(ErrorCorrectionLevel::Quartile, 10) == 8,
                raw_data_modules(10) == 2768,
        ;
        assert(ecc_per_block(ErrorCorrectionLevel::High, 10) == 28 && block_count(ErrorCorrectionLevel::High, 10) == 8);
        assert(ecc_per_block(ErrorCorrectionLevel::High, 10) * block_count(ErrorCorrectionLevel::High, 10) < raw_data_modules(10) / 8 && ecc_per_block(ErrorCorrectionLevel::High, 10) + 1 < raw_data_modules(10) / 8 / block_count(ErrorCorrectionLevel::High, 10) && 1 <= block_count(ErrorCorrectionLevel::High, 10) && 7 <= ecc_per_block(ErrorCorrectionLevel::High, 10) <= 30) by (nonlinear_arith)
            requires
                ecc_per_block(ErrorCorrectionLevel::High, 10) == 28,
                block_count(ErrorCorrectionLevel::High, 10) == 8,
                raw_data_modules(10) == 2768,
        ;

    } else if v == 11 {
        assert(raw_data_modules(11) == 3232) by (nonlinear_arith)
            requires
                alignment_count(11) == 3,
        ;
        assert(alignment_count(11) == 3);
        assert(ecc_per_block(ErrorCorrectionLevel::Low, 11) == 20 && block_count(ErrorCorrectionLevel::Low, 11) == 4);
        assert(ecc_per_block(ErrorCorrectionLevel::Low, 11) * block_count(ErrorCorrectionLevel::Low, 11) < raw_data_modules(11) / 8 && ecc_per_block(ErrorCorrectionLevel::Low, 11) + 1 < raw_data_modules(11) / 8 / block_count(ErrorCorrectionLevel::Low, 11) && 1 <= block_count(ErrorCorrectionLevel::Low, 11) && 7 <= ecc_per_block(ErrorCorrectionLevel::Low, 11) <= 30) by (nonlinear_arith)
            requires
                ecc_per_block(ErrorCorrectionLevel::Low, 11) == 20,
                block_count(ErrorCorrectionLevel::Low, 11) == 4,
                raw_data_modules(11) == 3232,
        ;
        assert(ecc_per_block(ErrorCorrectionLevel::Medium, 11) == 30 && block_count(ErrorCorrectionLevel::Medium, 11) == 5);
        assert(ecc_per_block(ErrorCorrectionLevel::Medium, 11) * block_count(ErrorCorrectionLevel::Medium, 11) < raw_data_modules(11) / 8 && ecc_per_block(ErrorCorrectionLevel::Medium, 11) + 1 < raw_data_modules(11) / 8 / block_count(ErrorCorrectionLevel::Medium, 11) && 1 <= block_count(ErrorCorrectionLevel::Medium, 11) && 7 <= ecc_per_block(ErrorCorrectionLevel::Medium, 11) <= 30) by (nonlinear_arith)
            requires
                ecc_per_block(ErrorCorrectionLevel::Medium, 11) == 30,
                block_count(ErrorCorrectionLevel::Medium, 11) == 5,
                raw_data_modules(11) == 3232,
        ;
        assert(ecc_per_block(ErrorCorrectionLevel::Quartile, 11) == 28 && block_count(ErrorCorrectionLevel::Quartile, 11) == 8);
        assert(ecc_per_block(ErrorCorrectionLevel::Quartile, 11) * block_count(ErrorCorrectionLevel::Quartile, 11) < raw_data_modules(11) / 8 && ecc_per_block(ErrorCorrectionLevel::Quartile, 11) + 1 < raw_data_modules(11) / 8 / block_count(ErrorCorrectionLevel::Quartile, 11) && 1 <= block_count(ErrorCorrectionLevel::Quartile, 11) && 7 <= ecc_per_block(ErrorCorrectionLevel::Quartile, 11) <= 30) by (nonlinear_arith)
            requires
                ecc_per_block(ErrorCorrectionLevel::Quartile, 11) == 28,
                block_count(ErrorCorrectionLevel::Quartile, 11) == 8,
                raw_data_modules(11) == 3232,
        ;
        assert(ecc_per_block(ErrorCorrectionLevel::High, 11) == 24 && block_count(ErrorCorrectionLevel::High, 11) == 11);
        assert(ecc_per_block(ErrorCorrectionLevel::High, 11) * block_count(ErrorCorrectionLevel::High, 11) < raw_data_modules(11) / 8 && ecc_per_block(ErrorCorrectionLevel::High, 11) + 1 < raw_data_modules(11) / 8 / block_count(ErrorCorrectionLevel::High, 11) && 1 <= block_count(ErrorCorrectionLevel::High, 11) && 7 <= ecc_per_block(ErrorCorrectionLevel::High, 11) <= 30) by (nonlinear_arith)
            requires
                ecc_per_block(ErrorCorrectionLevel::High, 11) == 24,
                block_count(ErrorCorrectionLevel::High, 11) == 11,
                raw_data_modules(11) == 3232,
        ;

    } else if v == 12 {
        assert(raw_data_modules(12) == 3728) by (nonlinear_arith)
            requires
                alignment_count(12) == 3,
        ;
        assert(alignment_count(12) == 3);
        assert(ecc_per_block(ErrorCorrectionLevel::Low, 12) == 24 && block_count(ErrorCorrectionLevel::Low, 12) == 4);
        assert(ecc_per_block(ErrorCorrectionLevel::Low, 12) * block_count(ErrorCorrectionLevel::Low, 12) < raw_data_modules(12) / 8 && ecc_per_block(ErrorCorrectionLevel::Low, 12) + 1 < raw_data_modules(12) / 8 / block_count(ErrorCorrectionLevel::Low, 12) && 1 <= block_count(ErrorCorrectionLevel::Low, 12) && 7 <= ecc_per_block(ErrorCorrectionLevel::Low, 12) <= 30) by (nonlinear_arith)
            requires
                ecc_per_block(ErrorCorrectionLevel::Low, 12) == 24,
                block_count(ErrorCorrectionLevel::Low, 12) == 4,
                raw_data_modules(12) == 3728,
        ;
        assert(ecc_per_block(ErrorCorrectionLevel::Medium, 12) == 22 && block_count(ErrorCorrectionLevel::Medium, 12) == 8);
        assert(ecc_per_block(ErrorCorrectionLevel::Medium, 12) * block_count(ErrorCorrectionLevel::Medium, 12) < raw_data_modules(12) / 8 && ecc_per_block(ErrorCorrectionLevel::Medium, 12) + 1 < raw_data_modules(12) / 8 / block_count(ErrorCorrectionLevel::Medium, 12) && 1 <= block_count(ErrorCorrectionLevel::Medium, 12) && 7 <= ecc_per_block(ErrorCorrectionLevel::Medium, 12) <= 30) by (nonlinear_arith)
            requires
                ecc_per_block(ErrorCorrectionLevel::Medium, 12) == 22,
                block_count(ErrorCorrectionLevel::Medium, 12) == 8,
                raw_data_modules(12) == 3728,
        ;
        assert(ecc_per_block(ErrorCorrectionLevel::Quartile, 12) == 26 && block_count(ErrorCorrectionLevel::Quartile, 12) == 10);
        assert(ecc_per_block(ErrorCorrectionLevel::Quartile, 12) * block_count(ErrorCorrectionLevel::Quartile, 12) < raw_data_modules(12) / 8 && ecc_per_block(ErrorCorrectionLevel::Quartile, 12) + 1 < raw_data_modules(12) / 8 / block_count(ErrorCorrectionLevel::Quartile, 12) && 1 <= block_count(ErrorCorrectionLevel::Quartile, 12) && 7 <= ecc_per_block(ErrorCorrectionLevel::Quartile, 12) <= 30) by (nonlinear_arith)
            requires
                ecc_per_block(ErrorCorrectionLevel::Quartile, 12) == 26,
                block_count(ErrorCorrectionLevel::Quartile, 12) == 10,
                raw_data_modules(12) == 3728,
        ;
        assert(ecc_per_block(ErrorCorrectionLevel::High, 12) == 28 && block_count(ErrorCorrectionLevel::High, 12) == 11);
        assert(ecc_per_block(ErrorCorrectionLevel::High, 12) * block_count(ErrorCorrectionLevel::High, 12) < raw_data_modules(12) / 8 && ecc_per_block(ErrorCorrectionLevel::High, 12) + 1 < raw_data_modules(12) / 8 / block_count(ErrorCorrectionLevel::High, 12) && 1 <= block_count(ErrorCorrectionLevel::High, 12) && 7 <= ecc_per_block(ErrorCorrectionLevel::High, 12) <= 30) by (nonlinear_arith)
            requires
                ecc_per_block(ErrorCorrectionLevel::High, 12) == 28,
                block_count(ErrorCorrectionLevel::High, 12) == 11,
                raw_data_modules(12) == 3728,
        ;

    } else if v == 13 {
        assert(raw_data_modules(13) == 4256) by (nonlinear_arith)
            requires
                alignment_count(13) == 3,
        ;
        assert(alignment_count(13) == 3);
        assert(ecc_per_block(ErrorCorrectionLevel::Low, 13) == 26 && block_count(ErrorCorrectionLevel::Low, 13) == 4);
        assert(ecc_per_block(ErrorCorrectionLevel::Low, 13) * block_count(ErrorCorrectionLevel::Low, 13) < raw_data_modules(13) / 8 && ecc_per_block(ErrorCorrectionLevel::Low, 13) + 1 < raw_data_modules(13) / 8 / block_count(ErrorCorrectionLevel::Low, 13) && 1 <= block_count(ErrorCorrectionLevel::Low, 13) && 7 <= ecc_per_block(ErrorCorrectionLevel::Low, 13) <= 30) by (nonlinear_arith)
            requires
                ecc_per_block(ErrorCorrectionLevel::Low, 13) == 26,
                block_count(ErrorCorrectionLevel::Low, 13) == 4,
                raw_data_modules(13) == 4256,
        ;
        assert(ecc_per_block(ErrorCorrectionLevel::Medium, 13) == 22 && block_count(ErrorCorrectionLevel::Medium, 13) == 9);
        assert(ecc_per_block(ErrorCorrectionLevel::Medium, 13) * block_count(ErrorCorrectionLevel::Medium, 13) < raw_data_modules(13) / 8 && ecc_per_block(ErrorCorrectionLevel::Medium, 13) + 1 < raw_data_modules(13) / 8 / block_count(ErrorCorrectionLevel::Medium, 13) && 1 <= block_count(ErrorCorrectionLevel::Medium, 13) && 7 <= ecc_per_block(ErrorCorrectionLevel::Medium, 13) <= 30) by (nonlinear_arith)
            requires
                ecc_per_block(ErrorCorrectionLevel::Medium, 13) == 22,
                block_count(ErrorCorrectionLevel::Medium, 13) == 9,
                raw_data_modules(13) == 4256,
        ;
        assert(ecc_per_block(ErrorCorrectionLevel::Quartile, 13) == 24 && block_count(ErrorCorrectionLevel::Quartile, 13) == 12);
        assert(ecc_per_block(ErrorCorrectionLevel::Quartile, 13) * block_count(ErrorCorrectionLevel::Quartile, 13) < raw_data_modules(13) / 8 && ecc_per_block(ErrorCorrectionLevel::Quartile, 13) + 1 < raw_data_modules(13) / 8 / block_count(ErrorCorrectionLevel::Quartile, 13) && 1 <= block_count(ErrorCorrectionLevel::Quartile, 13) && 7 <= ecc_per_block(ErrorCorrectionLevel::Quartile, 13) <= 30) by (nonlinear_arith)
            requires
                ecc_per_block(ErrorCorrectionLevel::Quartile, 13) == 24,
                block_count(ErrorCorrectionLevel::Quartile, 13) == 12,
                raw_data_modules(13) == 4256,
        ;
        assert(ecc_per_block(ErrorCorrectionLevel::High, 13) == 22 && block_count(ErrorCorrectionLevel::High, 13) == 16);
        assert(ecc_per_block(ErrorCorrectionLevel::High, 13) * block_count(ErrorCorrectionLevel::High, 13) < raw_data_modules(13) / 8 && ecc_per_block(ErrorCorrectionLevel::High, 13) + 1 < raw_data_modules(13) / 8 / block_count(ErrorCorrectionLevel::High, 13) && 1 <= block_count(ErrorCorrectionLevel::High, 13) && 7 <= ecc_per_block(ErrorCorrectionLevel::High, 13) <= 30) by (nonlinear_arith)
            requires
                ecc_per_block(ErrorCorrectionLevel::High, 13) == 22,
                block_count(ErrorCorrectionLevel::High, 13) == 16,
                raw_data_modules(13) == 4256,
        ;

    } else if v == 14 {
        assert(raw_data_modules(14) == 4651) by (nonlinear_arith)
            requires
                alignment_count(14) == 4,
        ;
        assert(alignment_count(14) == 4);
        assert(ecc_per_block(ErrorCorrectionLevel::Low, 14) == 30 && block_count(ErrorCorrectionLevel::Low, 14) == 4);
        assert(ecc_per_block(ErrorCorrectionLevel::Low, 14) * block_count(ErrorCorrectionLevel::Low, 14) < raw_data_modules(14) / 8 && ecc_per_block(ErrorCorrectionLevel::Low, 14) + 1 < raw_data_modules(14) / 8 / block_count(ErrorCorrectionLevel::Low, 14) && 1 <= block_count(ErrorCorrectionLevel::Low, 14) && 7 <= ecc_per_block(ErrorCorrectionLevel::Low, 14) <= 30) by (nonlinear_arith)
            requires
                ecc_per_block(ErrorCorrectionLevel::Low, 14) == 30,
                block_count(ErrorCorrectionLevel::Low, 14) == 4,
                raw_data_modules(14) == 4651,
        ;
        assert(ecc_per_block(ErrorCorrectionLevel::Medium, 14) == 24 && block_count(ErrorCorrectionLevel::Medium, 14) == 9);
        assert(ecc_per_block(ErrorCorrectionLevel::Medium, 14) * block_count(ErrorCorrectionLevel::Medium, 14) < raw_data_modules(14) / 8 && ecc_per_block(ErrorCorrectionLevel::Medium, 14) + 1 < raw_data_modules(14) / 8 / block_count(ErrorCorrectionLevel::Medium, 14) && 1 <= block_count(ErrorCorrectionLevel::Medium, 14) && 7 <= ecc_per_block(ErrorCorrectionLevel::Medium, 14) <= 30) by (nonlinear_arith)
            requires
                ecc_per_block(ErrorCorrectionLevel::Medium, 14) == 24,
                block_count(ErrorCorrectionLevel::Medium, 14) == 9,
                raw_data_modules(14) == 4651,
        ;
        assert(ecc_per_block(ErrorCorrectionLevel::Quartile, 14) == 20 && block_count(ErrorCorrectionLevel::Quartile, 14) == 16);
        assert(ecc_per_block(ErrorCorrectionLevel::Quartile, 14) * block_count(ErrorCorrectionLevel::Quartile, 14) < raw_data_modules(14) / 8 && ecc_per_block(ErrorCorrectionLevel::Quartile, 14) + 1 < raw_data_modules(14) / 8 / block_count(ErrorCorrectionLevel::Quartile, 14) && 1 <= block_count(ErrorCorrectionLevel::Quartile, 14) && 7 <= ecc_per_block(ErrorCorrectionLevel::Quartile, 14) <= 30) by (nonlinear_arith)
            requires
                ecc_per_block(ErrorCorrectionLevel::Quartile, 14) == 20,
                block_count(ErrorCorrectionLevel::Quartile, 14) == 16,
                raw_data_modules(14) == 4651,
        ;
        assert(ecc_per_block(ErrorCorrectionLevel::High, 14) == 24 && block_count(ErrorCorrectionLevel::High, 14) == 16);
        assert(ecc_per_block(ErrorCorrectionLevel::High, 14) * block_count(ErrorCorrectionLevel::High, 14) < raw_data_modules(14) / 8 && ecc_per_block(ErrorCorrectionLevel::High, 14) + 1 < raw_data_modules(14) / 8 / block_count(ErrorCorrectionLevel::High, 14) && 1 <= block_count(ErrorCorrectionLevel::High, 14) && 7 <= ecc_per_block(ErrorCorrectionLevel::High, 14) <= 30) by (nonlinear_arith)
            requires
                ecc_per_block(ErrorCorrectionLevel::High, 14) == 24,
                block_count(ErrorCorrectionLevel::High, 14) == 16,
                raw_data_modules(14) == 4651,
        ;

    } else if v == 15 {
        assert(raw_data_modules(15) == 5243) by (nonlinear_arith)
            requires
                alignment_count(15) == 4,
        ;
        assert(alignment_count(15) == 4);
        assert(ecc_per_block(ErrorCorrectionLevel::Low, 15) == 22 && block_count(ErrorCorrectionLevel::Low, 15) == 6);
        assert(ecc_per_block(ErrorCorrectionLevel::Low, 15) * block_count(ErrorCorrectionLevel::Low, 15) < raw_data_modules(15) / 8 && ecc_per_block(ErrorCorrectionLevel::Low, 15) + 1 < raw_data_modules(15) / 8 / block_count(ErrorCorrectionLevel::Low, 15) && 1 <= block_count(ErrorCorrectionLevel::Low, 15) && 7 <= ecc_per_block(ErrorCorrectionLevel::Low, 15) <= 30) by (nonlinear_arith)
            requires
                ecc_per_block(ErrorCorrectionLevel::Low, 15) == 22,
                block_count(ErrorCorrectionLevel::Low, 15) == 6,
                raw_data_modules(15) == 5243,
        ;
        assert(ecc_per_block(ErrorCorrectionLevel::Medium, 15) == 24 && block_count(ErrorCorrectionLevel::Medium, 15) == 10);
        assert(ecc_per_block(ErrorCorrectionLevel::Medium, 15) * block_count(ErrorCorrectionLevel::Medium, 15) < raw_data_modules(15) / 8 && ecc_per_block(ErrorCorrectionLevel::Medium, 15) + 1 < raw_data_modules(15) / 8 / block_count(ErrorCorrectionLevel::Medium, 15) && 1 <= block_count(ErrorCorrectionLevel::Medium, 15) && 7 <= ecc_per_block(ErrorCorrectionLevel::Medium, 15) <= 30) by (nonlinear_arith)
            requires
                ecc_per_block(ErrorCorrectionLevel::Medium, 15) == 24,
                block_count(ErrorCorrectionLevel::Medium, 15) == 10,
                raw_data_modules(15) == 5243,
        ;
        assert(ecc_per_block(ErrorCorrectionLevel::Quartile, 15) == 30 && block_count(ErrorCorrectionLevel::Quartile, 15) == 12);
        assert(ecc_per_block(ErrorCorrectionLevel::Quartile, 15) * block_count(ErrorCorrectionLevel::Quartile, 15) < raw_data_modules(15) / 8 && ecc_per_block(ErrorCorrectionLevel::Quartile, 15) + 1 < raw_data_modules(15) / 8 / block_count(ErrorCorrectionLevel::Quartile, 15) && 1 <= block_count(ErrorCorrectionLevel::Quartile, 15) && 7 <= ecc_per_block(ErrorCorrectionLevel::Quartile, 15) <= 30) by (nonlinear_arith)
            requires
                ecc_per_block(ErrorCorrectionLevel::Quartile, 15) == 30,
                block_count(ErrorCorrectionLevel::Quartile, 15) == 12,
                raw_data_modules(15) == 5243,
        ;
        assert(ecc_per_block(ErrorCorrectionLevel::High, 15) == 24 && block_count(ErrorCorrectionLevel::High, 15) == 18);
        assert(ecc_per_block(ErrorCorrectionLevel::High, 15) * block_count(ErrorCorrectionLevel::High, 15) < raw_data_modules(15) / 8 && ecc_per_block(ErrorCorrectionLevel::High, 15) + 1 < raw_data_modules(15) / 8 / block_count(ErrorCorrectionLevel::High, 15) && 1 <= block_count(ErrorCorrectionLevel::High, 15) && 7 <= ecc_per_block(ErrorCorrectionLevel::High, 15) <= 30) by (nonlinear_arith)
            requires
                ecc_per_block(ErrorCorrectionLevel::High, 15) == 24,
                block_count(ErrorCorrectionLevel::High, 15) == 18,
                raw_data_modules(15) == 5243,
        ;

    } else if v == 16 {
        assert(raw_data_modules(16) == 5867) by (nonlinear_arith)
            requires
                alignment_count(16) == 4,
        ;
        assert(alignment_count(16) == 4);
        assert(ecc_per_block(ErrorCorrectionLevel::Low, 16) == 24 && block_count(ErrorCorrectionLevel::Low, 16) == 6);
        assert(ecc_per_block(ErrorCorrectionLevel::Low, 16) * block_count(ErrorCorrectionLevel::Low, 16) < raw_data_modules(16) / 8 && ecc_per_block(ErrorCorrectionLevel::Low, 16) + 1 < raw_data_modules(16) / 8 / block_count(ErrorCorrectionLevel::Low, 16) && 1 <= block_count(ErrorCorrectionLevel::Low, 16) && 7 <= ecc_per_block(ErrorCorrectionLevel::Low, 16) <= 30) by (nonlinear_arith)
            requires
                ecc_per_block(ErrorCorrectionLevel::Low, 16) == 24,
                block_count(ErrorCorrectionLevel::Low, 16) == 6,
                raw_data_modules(16) == 5867,
        ;
        assert(ecc_per_block(ErrorCorrectionLevel::Medium, 16) == 28 && block_count(ErrorCorrectionLevel::Medium, 16) == 10);
        assert(ecc_per_block(ErrorCorrectionLevel::Medium, 16) * block_count(ErrorCorrectionLevel::Medium, 16) < raw_data_modules(16) / 8 && ecc_per_block(ErrorCorrectionLevel::Medium, 16) + 1 < raw_data_modules(16) / 8 / block_count(ErrorCorrectionLevel::Medium, 16) && 1 <= block_count(ErrorCorrectionLevel::Medium, 16) && 7 <= ecc_per_block(ErrorCorrectionLevel::Medium, 16) <= 30) by (nonlinear_arith)
            requires
                ecc_per_block(ErrorCorrectionLevel::Medium, 16) == 28,
                block_count(ErrorCorrectionLevel::Medium, 16) == 10,
                raw_data_modules(16) == 5867,
        ;
        assert(ecc_per_block(ErrorCorrectionLevel::Quartile, 16) == 24 && block_count(ErrorCorrectionLevel::Quartile, 16) == 17);
        assert(ecc_per_block(ErrorCorrectionLevel::Quartile, 16) * block_count(ErrorCorrectionLevel::Quartile, 16) < raw_data_modules(16) / 8 && ecc_per_block(ErrorCorrectionLevel::Quartile, 16) + 1 < raw_data_modules(16) / 8 / block_count(ErrorCorrectionLevel::Quartile, 16) && 1 <= block_count(ErrorCorrectionLevel::Quartile, 16) && 7 <= ecc_per_block(ErrorCorrectionLevel::Quartile, 16) <= 30) by (nonlinear_arith)
            requires
                ecc_per_block(ErrorCorrectionLevel::Quartile, 16) == 24,
                block_count(ErrorCorrectionLevel::Quartile, 16) == 17,
                raw_data_modules(16) == 5867,
        ;
        assert(ecc_per_block(ErrorCorrectionLevel::High, 16) == 30 && block_count(ErrorCorrectionLevel::High, 16) == 16);
        assert(ecc_per_block(ErrorCorrectionLevel::High, 16) * block_count(ErrorCorrectionLevel::High, 16) < raw_data_modules(16) / 8 && ecc_per_block(ErrorCorrectionLevel::High, 16) + 1 < raw_data_modules(16) / 8 / block_count(ErrorCorrectionLevel::High, 16) && 1 <= block_count(ErrorCorrectionLevel::High, 16) && 7 <= ecc_per_block(ErrorCorrectionLevel::High, 16) <= 30) by (nonlinear_arith)
            requires
                ecc_per_block(ErrorCorrectionLevel::High, 16) == 30,
                block_count(ErrorCorrectionLevel::High, 16) == 16,
                raw_data_modules(16) == 5867,
        ;

    } else if v == 17 {
        assert(raw_data_modules(17) == 6523) by (nonlinear_arith)
            requires
                alignment_count(17) == 4,
        ;
        assert(alignment_count(17) == 4);
        assert(ecc_per_block(ErrorCorrectionLevel::Low, 17) == 28 && block_count(ErrorCorrectionLevel::Low, 17) == 6);
        assert(ecc_per_block(ErrorCorrectionLevel::Low, 17) * block_count(ErrorCorrectionLevel::Low, 17) < raw_data_modules(17) / 8 && ecc_per_block(ErrorCorrectionLevel::Low, 17) + 1 < raw_data_modules(17) / 8 / block_count(ErrorCorrectionLevel::Low, 17) && 1 <= block_count(ErrorCorrectionLevel::Low, 17) && 7 <= ecc_per_block(ErrorCorrectionLevel::Low, 17) <= 30) by (nonlinear_arith)
            requires
                ecc_per_block(ErrorCorrectionLevel::Low, 17) == 28,
                block_count(ErrorCorrectionLevel::Low, 17) == 6,
                raw_data_modules(17) == 6523,
        ;
        assert(ecc_per_block(ErrorCorrectionLevel::Medium, 17) == 28 && block_count(ErrorCorrectionLevel::Medium, 17) == 11);
        assert(ecc_per_block(ErrorCorrectionLevel::Medium, 17) * block_count(ErrorCorrectionLevel::Medium, 17) < raw_data_modules(17) / 8 && ecc_per_block(ErrorCorrectionLevel::Medium, 17) + 1 < raw_data_modules(17) / 8 / block_count(ErrorCorrectionLevel::Medium, 17) && 1 <= block_count(ErrorCorrectionLevel::Medium, 17) && 7 <= ecc_per_block(ErrorCorrectionLevel::Medium, 17) <= 30) by (nonlinear_arith)
            requires
                ecc_per_block(ErrorCorrectionLevel::Medium, 17) == 28,
                block_count(ErrorCorrectionLevel::Medium, 17) == 11,
                raw_data_modules(17) == 6523,
        ;
        assert(ecc_per_block(ErrorCorrectionLevel::Quartile, 17) == 28 && block_count(ErrorCorrectionLevel::Quartile, 17) == 16);
        assert(ecc_per_block(ErrorCorrectionLevel::Quartile, 17) * block_count(ErrorCorrectionLevel::Quartile, 17) < raw_data_modules(17) / 8 && ecc_per_block(ErrorCorrectionLevel::Quartile, 17) + 1 < raw_data_modules(17) / 8 / block_count(ErrorCorrectionLevel::Quartile, 17) && 1 <= block_count(ErrorCorrectionLevel::Quartile, 17) && 7 <= ecc_per_block(ErrorCorrectionLevel::Quartile, 17) <= 30) by (nonlinear_arith)
            requires
                ecc_per_block(ErrorCorrectionLevel::Quartile, 17) == 28,
                block_count(ErrorCorrectionLevel::Quartile, 17) == 16,
                raw_data_modules(17) == 6523,
        ;
        assert(ecc_per_block(ErrorCorrectionLevel::High, 17) == 28 && block_count(ErrorCorrectionLevel::High, 17) == 19);
        assert(ecc_per_block(ErrorCorrectionLevel::High, 17) * block_count(ErrorCorrectionLevel::High, 17) < raw_data_modules(17) / 8 && ecc_per_block(ErrorCorrectionLevel::High, 17) + 1 < raw_data_modules(17) / 8 / block_count(ErrorCorrectionLevel::High, 17) && 1 <= block_count(ErrorCorrectionLevel::High, 17) && 7 <= ecc_per_block(ErrorCorrectionLevel::High, 17) <= 30) by (nonlinear_arith)
            requires
                ecc_per_block(ErrorCorrectionLevel::High, 17) == 28,
                block_count(ErrorCorrectionLevel::High, 17) == 19,
                raw_data_modules(17) == 6523,
        ;

    } else if v == 18 {
        assert(raw_data_modules(18) == 7211) by (nonlinear_arith)
            requires
                alignment_count(18) == 4,
        ;
        assert(alignment_count(18) == 4);
        assert(ecc_per_block(ErrorCorrectionLevel::Low, 18) == 30 && block_count(ErrorCorrectionLevel::Low, 18) == 6);
        assert(ecc_per_block(ErrorCorrectionLevel::Low, 18) * block_count(ErrorCorrectionLevel::Low, 18) < raw_data_modules(18) / 8 && ecc_per_block(ErrorCorrectionLevel::Low, 18) + 1 < raw_data_modules(18) / 8 / block_count(ErrorCorrectionLevel::Low, 18) && 1 <= block_count(ErrorCorrectionLevel::Low, 18) && 7 <= ecc_per_block(ErrorCorrectionLevel::Low, 18) <= 30) by (nonlinear_arith)
            requires
                ecc_per_block(ErrorCorrectionLevel::Low, 18) == 30,
                block_count(ErrorCorrectionLevel::Low, 18) == 6,
                raw_data_modules(18) == 7211,
        ;
        assert(ecc_per_block(ErrorCorrectionLevel::Medium, 18) == 26 && block_count(ErrorCorrectionLevel::Medium, 18) == 13);
        assert(ecc_per_block(ErrorCorrectionLevel::Medium, 18) * block_count(ErrorCorrectionLevel::Medium, 18) < raw_data_modules(18) / 8 && ecc_per_block(ErrorCorrectionLevel::Medium, 18) + 1 < raw_data_modules(18) / 8 / block_count(ErrorCorrectionLevel::Medium, 18) && 1 <= block_count(ErrorCorrectionLevel::Medium, 18) && 7 <= ecc_per_block(ErrorCorrectionLevel::Medium, 18) <= 30) by (nonlinear_arith)
            requires
                ecc_per_block(ErrorCorrectionLevel::Medium, 18) == 26,
                block_count(ErrorCorrectionLevel::Medium, 18) == 13,
                raw_data_modules(18) == 7211,
        ;
        assert(ecc_per_block(ErrorCorrectionLevel::Quartile, 18) == 28 && block_count(ErrorCorrectionLevel::Quartile, 18) == 18);
        assert(ecc_per_block(ErrorCorrectionLevel::Quartile, 18) * block_count(ErrorCorrectionLevel::Quartile, 18) < raw_data_modules(18) / 8 && ecc_per_block(ErrorCorrectionLevel::Quartile, 18) + 1 < raw_data_modules(18) / 8 / block_count(ErrorCorrectionLevel::Quartile, 18) && 1 <= block_count(ErrorCorrectionLevel::Quartile, 18) && 7 <= ecc_per_block(ErrorCorrectionLevel::Quartile, 18) <= 30) by (nonlinear_arith)
            requires
                ecc_per_block(ErrorCorrectionLevel::Quartile, 18) == 28,
                block_count(ErrorCorrectionLevel::Quartile, 18) == 18,
                raw_data_modules(18) == 7211,
        ;
        assert(ecc_per_block(ErrorCorrectionLevel::High, 18) == 28 && block_count(ErrorCorrectionLevel::High, 18) == 21);
        assert(ecc_per_block(ErrorCorrectionLevel::High, 18) * block_count(ErrorCorrectionLevel::High, 18) < raw_data_modules(18) / 8 && ecc_per_block(ErrorCorrectionLevel::High, 18) + 1 < raw_data_modules(18) / 8 / block_count(ErrorCorrectionLevel::High, 18) && 1 <= block_count(ErrorCorrectionLevel::High, 18) && 7 <= ecc_per_block(ErrorCorrectionLevel::High, 18) <= 30) by (nonlinear_arith)
            requires
                ecc_per_block(ErrorCorrectionLevel::High, 18) == 28,
                block_count(ErrorCorrectionLevel::High, 18) == 21,
                raw_data_modules(18) == 7211,
        ;

    } else if v == 19 {
        assert(raw_data_modules(19) == 7931) by (nonlinear_arith)
            requires
                alignment_count(19) == 4,
        ;
        assert(alignment_count(19) == 4);
        assert(ecc_per_block(ErrorCorrectionLevel::Low, 19) == 28 && block_count(ErrorCorrectionLevel::Low, 19) == 7);
        assert(ecc_per_block(ErrorCorrectionLevel::Low, 19) * block_count(ErrorCorrectionLevel::Low, 19) < raw_data_modules(19) / 8 && ecc_per_block(ErrorCorrectionLevel::Low, 19) + 1 < raw_data_modules(19) / 8 / block_count(ErrorCorrectionLevel::Low, 19) && 1 <= block_count(ErrorCorrectionLevel::Low, 19) && 7 <= ecc_per_block(ErrorCorrectionLevel::Low, 19) <= 30) by (nonlinear_arith)
            requires
                ecc_per_block(ErrorCorrectionLevel::Low, 19) == 28,
                block_count(ErrorCorrectionLevel::Low, 19) == 7,
                raw_data_modules(19) == 7931,
        ;
        assert(ecc_per_block(ErrorCorrectionLevel::Medium, 19) == 26 && block_count(ErrorCorrectionLevel::Medium, 19) == 14);
        assert(ecc_per_block(ErrorCorrectionLevel::Medium, 19) * block_count(ErrorCorrectionLevel::Medium, 19) < raw_data_modules(19) / 8 && ecc_per_block(ErrorCorrectionLevel::Medium, 19) + 1 < raw_data_modules(19) / 8 / block_count(ErrorCorrectionLevel::Medium, 19) && 1 <= block_count(ErrorCorrectionLevel::Medium, 19) && 7 <= ecc_per_block(ErrorCorrectionLevel::Medium, 19) <= 30) by (nonlinear_arith)
            requires
                ecc_per_block(ErrorCorrectionLevel::Medium, 19) == 26,
                block_count(ErrorCorrectionLevel::Medium, 19) == 14,
                raw_data_modules(19) == 7931,
        ;
        assert(ecc_per_block(ErrorCorrectionLevel::Quartile, 19) == 26 && block_count(ErrorCorrectionLevel::Quartile, 19) == 21);
        assert(ecc_per_block(ErrorCorrectionLevel::Quartile, 19) * block_count(ErrorCorrectionLevel::Quartile, 19) < raw_data_modules(19) / 8 && ecc_per_block(ErrorCorrectionLevel::Quartile, 19) + 1 < raw_data_modules(19) / 8 / block_count(ErrorCorrectionLevel::Quartile, 19) && 1 <= block_count(ErrorCorrectionLevel::Quartile, 19) && 7 <= ecc_per_block(ErrorCorrectionLevel::Quartile, 19) <= 30) by (nonlinear_arith)
            requires
                ecc_per_block(ErrorCorrectionLevel::Quartile, 19) == 26,
                block_count(ErrorCorrectionLevel::Quartile, 19) == 21,
                raw_data_modules(19) == 7931,
        ;
        assert(ecc_per_block(ErrorCorrectionLevel::High, 19) == 26 && block_count(ErrorCorrectionLevel::High, 19) == 25);
        assert(ecc_per_block(ErrorCorrectionLevel::High, 19) * block_count(ErrorCorrectionLevel::High, 19) < raw_data_modules(19) / 8 && ecc_per_block(ErrorCorrectionLevel::High, 19) + 1 < raw_data_modules(19) / 8 / block_count(ErrorCorrectionLevel::High, 19) && 1 <= block_count(ErrorCorrectionLevel::High, 19) && 7 <= ecc_per_block(ErrorCorrectionLevel::High, 19) <= 30) by (nonlinear_arith)
            requires
                ecc_per_block(ErrorCorrectionLevel::High, 19) == 26,
                block_count(ErrorCorrectionLevel::High, 19) == 25,
                raw_data_modules(19) == 7931,
        ;

    } else if v == 20 {
        assert(raw_data_modules(20) == 8683) by (nonlinear_arith)
            requires
                alignment_count(20) == 4,
        ;
        assert(alignment_count(20) == 4);
        assert(ecc_per_block(ErrorCorrectionLevel::Low, 20) == 28 && block_count(ErrorCorrectionLevel::Low, 20) == 8);
        assert(ecc_per_block(ErrorCorrectionLevel::Low, 20) * block_count(ErrorCorrectionLevel::Low, 20) < raw_data_modules(20) / 8 && ecc_per_block(ErrorCorrectionLevel::Low, 20) + 1 < raw_data_modules(20) / 8 / block_count(ErrorCorrectionLevel::Low, 20) && 1 <= block_count(ErrorCorrectionLevel::Low, 20) && 7 <= ecc_per_block(ErrorCorrectionLevel::Low, 20) <= 30) by (nonlinear_arith)
            requires
                ecc_per_block(ErrorCorrectionLevel::Low, 20) == 28,
                block_count(ErrorCorrectionLevel::Low, 20) == 8,
                raw_data_modules(20) == 8683,
        ;
        assert(ecc_per_block(ErrorCorrectionLevel::Medium, 20) == 26 && block_count(ErrorCorrectionLevel::Medium, 20) == 16);
        assert(ecc_per_block(ErrorCorrectionLevel::Medium, 20) * block_count(ErrorCorrectionLevel::Medium, 20) < raw_data_modules(20) / 8 && ecc_per_block(ErrorCorrectionLevel::Medium, 20) + 1 < raw_data_modules(20) / 8 / block_count(ErrorCorrectionLevel::Medium, 20) && 1 <= block_count(ErrorCorrectionLevel::Medium, 20) && 7 <= ecc_per_block(ErrorCorrectionLevel::Medium, 20) <= 30) by (nonlinear_arith)
            requires
                ecc_per_block(ErrorCorrectionLevel::Medium, 20) == 26,
                block_count(ErrorCorrectionLevel::Medium, 20) == 16,
                raw_data_modules(20) == 8683,
        ;
        assert(ecc_per_block(ErrorCorrectionLevel::Quartile, 20) == 30 && block_count(ErrorCorrectionLevel::Quartile, 20) == 20);
        assert(ecc_per_block(ErrorCorrectionLevel::Quartile, 20) * block_count(ErrorCorrectionLevel::Quartile, 20) < raw_data_modules(20) / 8 && ecc_per_block(ErrorCorrectionLevel::Quartile, 20) + 1 < raw_data_modules(20) / 8 / block_count(ErrorCorrectionLevel::Quartile, 20) && 1 <= block_count(ErrorCorrectionLevel::Quartile, 20) && 7 <= ecc_per_block(ErrorCorrectionLevel::Quartile, 20) <= 30) by (nonlinear_arith)
            requires
                ecc_per_block(ErrorCorrectionLevel::Quartile, 20) == 30,
                block_count(ErrorCorrectionLevel::Quartile, 20) == 20,
                raw_data_modules(20) == 8683,
        ;
        assert(ecc_per_block(ErrorCorrectionLevel::High, 20) == 28 && block_count(ErrorCorrectionLevel::High, 20) == 25);
        assert(ecc_per_block(ErrorCorrectionLevel::High, 20) * block_count(ErrorCorrectionLevel::High, 20) < raw_data_modules(20) / 8 && ecc_per_block(ErrorCorrectionLevel::High, 20) + 1 < raw_data_modules(20) / 8 / block_count(ErrorCorrectionLevel::High, 20) && 1 <= block_count(ErrorCorrectionLevel::High, 20) && 7 <= ecc_per_block(ErrorCorrectionLevel::High, 20) <= 30) by (nonlinear_arith)
            requires
                ecc_per_block(ErrorCorrectionLevel::High, 20) == 28,
                block_count(ErrorCorrectionLevel::High, 20) == 25,
                raw_data_modules(20) == 8683,
        ;

    } else if v == 21 {
        assert(raw_data_modules(21) == 9252) by (nonlinear_arith)
            requires
                alignment_count(21) == 5,
        ;
        assert(alignment_count(21) == 5);
        assert(ecc_per_block(ErrorCorrectionLevel::Low, 21) == 28 && block_count(ErrorCorrectionLevel::Low, 21) == 8);
        assert(ecc_per_block(ErrorCorrectionLevel::Low, 21) * block_count(ErrorCorrectionLevel::Low, 21) < raw_data_modules(21) / 8 && ecc_per_block(ErrorCorrectionLevel::Low, 21) + 1 < raw_data_modules(21) / 8 / block_count(ErrorCorrectionLevel::Low, 21) && 1 <= block_count(ErrorCorrectionLevel::Low, 21) && 7 <= ecc_per_block(ErrorCorrectionLevel::Low, 21) <= 30) by (nonlinear_arith)
            requires
                ecc_per_block(ErrorCorrectionLevel::Low, 21) == 28,
                block_count(ErrorCorrectionLevel::Low, 21) == 8,
                raw_data_modules(21) == 9252,
        ;
        assert(ecc_per_block(ErrorCorrectionLevel::Medium, 21) == 26 && block_count(ErrorCorrectionLevel::Medium, 21) == 17);
        assert(ecc_per_block(ErrorCorrectionLevel::Medium, 21) * block_count(ErrorCorrectionLevel::Medium, 21) < raw_data_modules(21) / 8 && ecc_per_block(ErrorCorrectionLevel::Medium, 21) + 1 < raw_data_modules(21) / 8 / block_count(ErrorCorrectionLevel::Medium, 21) && 1 <= block_count(ErrorCorrectionLevel::Medium, 21) && 7 <= ecc_per_block(ErrorCorrectionLevel::Medium, 21) <= 30) by (nonlinear_arith)
            requires
                ecc_per_block(ErrorCorrectionLevel::Medium, 21) == 26,
                block_count(ErrorCorrectionLevel::Medium, 21) == 17,
                raw_data_modules(21) == 9252,
        ;
        assert(ecc_per_block(ErrorCorrectionLevel::Quartile, 21) == 28 && block_count(ErrorCorrectionLevel::Quartile, 21) == 23);
        assert(ecc_per_block(ErrorCorrectionLevel::Quartile, 21) * block_count(ErrorCorrectionLevel::Quartile, 21) < raw_data_modules(21) / 8 && ecc_per_block(ErrorCorrectionLevel::Quartile, 21) + 1 < raw_data_modules(21) / 8 / block_count(ErrorCorrectionLevel::Quartile, 21) && 1 <= block_count(ErrorCorrectionLevel::Quartile, 21) && 7 <= ecc_per_block(ErrorCorrectionLevel::Quartile, 21) <= 30) by (nonlinear_arith)
            requires
                ecc_per_block(ErrorCorrectionLevel::Quartile, 21) == 28,
                block_count(ErrorCorrectionLevel::Quartile, 21) == 23,
                raw_data_modules(21) == 9252,
        ;
        assert(ecc_per_block(ErrorCorrectionLevel::High, 21) == 30 && block_count(ErrorCorrectionLevel::High, 21) == 25);
        assert(ecc_per_block(ErrorCorrectionLevel::High, 21) * block_count(ErrorCorrectionLevel::High, 21) < raw_data_modules(21) / 8 && ecc_per_block(ErrorCorrectionLevel::High, 21) + 1 < raw_data_modules(21) / 8 / block_count(ErrorCorrectionLevel::High, 21) && 1 <= block_count(ErrorCorrectionLevel::High, 21) && 7 <= ecc_per_block(ErrorCorrectionLevel::High, 21) <= 30) by (nonlinear_arith)
            requires
                ecc_per_block(ErrorCorrectionLevel::High, 21) == 30,
                block_count(ErrorCorrectionLevel::High, 21) == 25,
                raw_data_modules(21) == 9252,
        ;

    } else if v == 22 {
        assert(raw_data_modules(22) == 10068) by (nonlinear_arith)
            requires
                alignment_count(22) == 5,
        ;
        assert(alignment_count(22) == 5);
        assert(ecc_per_block(ErrorCorrectionLevel::Low, 22) == 28 && block_count(ErrorCorrectionLevel::Low, 22) == 9);
        assert(ecc_per_block(ErrorCorrectionLevel::Low, 22) * block_count(ErrorCorrectionLevel::Low, 22) < raw_data_modules(22) / 8 && ecc_per_block(ErrorCorrectionLevel::Low, 22) + 1 < raw_data_modules(22) / 8 / block_count(ErrorCorrectionLevel::Low, 22) && 1 <= block_count(ErrorCorrectionLevel::Low, 22) && 7 <= ecc_per_block(ErrorCorrectionLevel::Low, 22) <= 30) by (nonlinear_arith)
            requires
                ecc_per_block(ErrorCorrectionLevel::Low, 22) == 28,
                block_count(ErrorCorrectionLevel::Low, 22) == 9,
                raw_data_modules(22) == 10068,
        ;
        assert(ecc_per_block(ErrorCorrectionLevel::Medium, 22) == 28 && block_count(ErrorCorrectionLevel::Medium, 22) == 17);
        assert(ecc_per_block(ErrorCorrectionLevel::Medium, 22) * block_count(ErrorCorrectionLevel::Medium, 22) < raw_data_modules(22) / 8 && ecc_per_block(ErrorCorrectionLevel::Medium, 22) + 1 < raw_data_modules(22) / 8 / block_count(ErrorCorrectionLevel::Medium, 22) && 1 <= block_count(ErrorCorrectionLevel::Medium, 22) && 7 <= ecc_per_block(ErrorCorrectionLevel::Medium, 22) <= 30) by (nonlinear_arith)
            requires
                ecc_per_block(ErrorCorrectionLevel::Medium, 22) == 28,
                block_count(ErrorCorrectionLevel::Medium, 22) == 17,
                raw_data_modules(22) == 10068,
        ;
        assert(ecc_per_block(ErrorCorrectionLevel::Quartile, 22) == 30 && block_count(ErrorCorrectionLevel::Quartile, 22) == 23);
        assert(ecc_per_block(ErrorCorrectionLevel::Quartile, 22) * block_count(ErrorCorrectionLevel::Quartile, 22) < raw_data_modules(22) / 8 && ecc_per_block(ErrorCorrectionLevel::Quartile, 22) + 1 < raw_data_modules(22) / 8 / block_count(ErrorCorrectionLevel::Quartile, 22) && 1 <= block_count(ErrorCorrectionLevel::Quartile, 22) && 7 <= ecc_per_block(ErrorCorrectionLevel::Quartile, 22) <= 30) by (nonlinear_arith)
            requires
                ecc_per_block(ErrorCorrectionLevel::Quartile, 22) == 30,
                block_count(ErrorCorrectionLevel::Quartile, 22) == 23,
                raw_data_modules(22) == 10068,
        ;
        assert(ecc_per_block(ErrorCorrectionLevel::High, 22) == 24 && block_count(ErrorCorrectionLevel::High, 22) == 34);
        assert(ecc_per_block(ErrorCorrectionLevel::High, 22) * block_count(ErrorCorrectionLevel::High, 22) < raw_data_modules(22) / 8 && ecc_per_block(ErrorCorrectionLevel::High, 22) + 1 < raw_data_modules(22) / 8 / block_count(ErrorCorrectionLevel::High, 22) && 1 <= block_count(ErrorCorrectionLevel::High, 22) && 7 <= ecc_per_block(ErrorCorrectionLevel::High, 22) <= 30) by (nonlinear_arith)
            requires
                ecc_per_block(ErrorCorrectionLevel::High, 22) == 24,
                block_count(ErrorCorrectionLevel::High, 22) == 34,
                raw_data_modules(22) == 10068,
        ;

    } else if v == 23 {
        assert(raw_data_modules(23) == 10916) by (nonlinear_arith)
            requires
                alignment_count(23) == 5,
        ;
        assert(alignment_count(23) == 5);
        assert(ecc_per_block(ErrorCorrectionLevel::Low, 23) == 30 && block_count(ErrorCorrectionLevel::Low, 23) == 9);
        assert(ecc_per_block(ErrorCorrectionLevel::Low, 23) * block_count(ErrorCorrectionLevel::Low, 23) < raw_data_modules(23) / 8 && ecc_per_block(ErrorCorrectionLevel::Low, 23) + 1 < raw_data_modules(23) / 8 / block_count(ErrorCorrectionLevel::Low, 23) && 1 <= block_count(ErrorCorrectionLevel::Low, 23) && 7 <= ecc_per_block(ErrorCorrectionLevel::Low, 23) <= 30) by (nonlinear_arith)
            requires
                ecc_per_block(ErrorCorrectionLevel::Low, 23) == 30,
                block_count(ErrorCorrectionLevel::Low, 23) == 9,
                raw_data_modules(23) == 10916,
        ;
        assert(ecc_per_block(ErrorCorrectionLevel::Medium, 23) == 28 && block_count(ErrorCorrectionLevel::Medium, 23) == 18);
        assert(ecc_per_block(ErrorCorrectionLevel::Medium, 23) * block_count(ErrorCorrectionLevel::Medium, 23) < raw_data_modules(23) / 8 && ecc_per_block(ErrorCorrectionLevel::Medium, 23) + 1 < raw_data_modules(23) / 8 / block_count(ErrorCorrectionLevel::Medium, 23) && 1 <= block_count(ErrorCorrectionLevel::Medium, 23) && 7 <= ecc_per_block(ErrorCorrectionLevel::Medium, 23) <= 30) by (nonlinear_arith)
            requires
                ecc_per_block(ErrorCorrectionLevel::Medium, 23) == 28,
                block_count(ErrorCorrectionLevel::Medium, 23) == 18,
                raw_data_modules(23) == 10916,
        ;
        assert(ecc_per_block(ErrorCorrectionLevel::Quartile, 23) == 30 && block_count(ErrorCorrectionLevel::Quartile, 23) == 25);
        assert(ecc_per_block(ErrorCorrectionLevel::Quartile, 23) * block_count(ErrorCorrectionLevel::Quartile, 23) < raw_data_modules(23) / 8 && ecc_per_block(ErrorCorrectionLevel::Quartile, 23) + 1 < raw_data_modules(23) / 8 / block_count(ErrorCorrectionLevel::Quartile, 23) && 1 <= block_count(ErrorCorrectionLevel::Quartile, 23) && 7 <= ecc_per_block(ErrorCorrectionLevel::Quartile, 23) <= 30) by (nonlinear_arith)
            requires
                ecc_per_block(ErrorCorrectionLevel::Quartile, 23) == 30,
                block_count(ErrorCorrectionLevel::Quartile, 23) == 25,
                raw_data_modules(23) == 10916,
        ;
        assert(ecc_per_block(ErrorCorrectionLevel::High, 23) == 30 && block_count(ErrorCorrectionLevel::High, 23) == 30);
        assert(ecc_per_block(ErrorCorrectionLevel::High, 23) * block_count(ErrorCorrectionLevel::High, 23) < raw_data_modules(23) / 8 && ecc_per_block(ErrorCorrectionLevel::High, 23) + 1 < raw_data_modules(23) / 8 / block_count(ErrorCorrectionLevel::High, 23) && 1 <= block_count(ErrorCorrectionLevel::High, 23) && 7 <= ecc_per_block(ErrorCorrectionLevel::High, 23) <= 30) by (nonlinear_arith)
            requires
                ecc_per_block(ErrorCorrectionLevel::High, 23) == 30,
                block_count(ErrorCorrectionLevel::High, 23) == 30,
                raw_data_modules(23) == 10916,
        ;

    } else if v == 24 {
        assert(raw_data_modules(24) == 11796) by (nonlinear_arith)
            requires
                alignment_count(24) == 5,
        ;
        assert(alignment_count(24) == 5);
        assert(ecc_per_block(ErrorCorrectionLevel::Low, 24) == 30 && block_count(ErrorCorrectionLevel::Low, 24) == 10);
        assert(ecc_per_block(ErrorCorrectionLevel::Low, 24) * block_count(ErrorCorrectionLevel::Low, 24) < raw_data_modules(24) / 8 && ecc_per_block(ErrorCorrectionLevel::Low, 24) + 1 < raw_data_modules(24) / 8 / block_count(ErrorCorrectionLevel::Low, 24) && 1 <= block_count(ErrorCorrectionLevel::Low, 24) && 7 <= ecc_per_block(ErrorCorrectionLevel::Low, 24) <= 30) by (nonlinear_arith)
            requires
                ecc_per_block(ErrorCorrectionLevel::Low, 24) == 30,
                block_count(ErrorCorrectionLevel::Low, 24) == 10,
                raw_data_modules(24) == 11796,
        ;
        assert(ecc_per_block(ErrorCorrectionLevel::Medium, 24) == 28 && block_count(ErrorCorrectionLevel::Medium, 24) == 20);
        assert(ecc_per_block(ErrorCorrectionLevel::Medium, 24) * block_count(ErrorCorrectionLevel::Medium, 24) < raw_data_modules(24) / 8 && ecc_per_block(ErrorCorrectionLevel::Medium, 24) + 1 < raw_data_modules(24) / 8 / block_count(ErrorCorrectionLevel::Medium, 24) && 1 <= block_count(ErrorCorrectionLevel::Medium, 24) && 7 <= ecc_per_block(ErrorCorrectionLevel::Medium, 24) <= 30) by (nonlinear_arith)
            requires
                ecc_per_block(ErrorCorrectionLevel::Medium, 24) == 28,
                block_count(ErrorCorrectionLevel::Medium, 24) == 20,
                raw_data_modules(24) == 11796,
        ;
        assert(ecc_per_block(ErrorCorrectionLevel::Quartile, 24) == 30 && block_count(ErrorCorrectionLevel::Quartile, 24) == 27);
        assert(ecc_per_block(ErrorCorrectionLevel::Quartile, 24) * block_count(ErrorCorrectionLevel::Quartile, 24) < raw_data_modules(24) / 8 && ecc_per_block(ErrorCorrectionLevel::Quartile, 24) + 1 < raw_data_modules(24) / 8 / block_count(ErrorCorrectionLevel::Quartile, 24) && 1 <= block_count(ErrorCorrectionLevel::Quartile, 24) && 7 <= ecc_per_block(ErrorCorrectionLevel::Quartile, 24) <= 30) by (nonlinear_arith)
            requires
                ecc_per_block(ErrorCorrectionLevel::Quartile, 24) == 30,
                block_count(ErrorCorrectionLevel::Quartile, 24) == 27,
                raw_data_modules(24) == 11796,
        ;
        assert(ecc_per_block(ErrorCorrectionLevel::High, 24) == 30 && block_count(ErrorCorrectionLevel::High, 24) == 32);
        assert(ecc_per_block(ErrorCorrectionLevel::High, 24) * block_count(ErrorCorrectionLevel::High, 24) < raw_data_modules(24) / 8 && ecc_per_block(ErrorCorrectionLevel::High, 24) + 1 < raw_data_modules(24) / 8 / block_count(ErrorCorrectionLevel::High, 24) && 1 <= block_count(ErrorCorrectionLevel::High, 24) && 7 <= ecc_per_block(ErrorCorrectionLevel::High, 24) <= 30) by (nonlinear_arith)
            requires
                ecc_per_block(ErrorCorrectionLevel::High, 24) == 30,
                block_count(ErrorCorrectionLevel::High, 24) == 32,
                raw_data_modules(24) == 11796,
        ;

    } else if v == 25 {
        assert(raw_data_modules(25) == 12708) by (nonlinear_arith)
            requires
                alignment_count(25) == 5,
        ;
        assert(alignment_count(25) == 5);
        assert(ecc_per_block(ErrorCorrectionLevel::Low, 25) == 26 && block_count(ErrorCorrectionLevel::Low, 25) == 12);
        assert(ecc_per_block(ErrorCorrectionLevel::Low, 25) * block_count(ErrorCorrectionLevel::Low, 25) < raw_data_modules(25) / 8 && ecc_per_block(ErrorCorrectionLevel::Low, 25) + 1 < raw_data_modules(25) / 8 / block_count(ErrorCorrectionLevel::Low, 25) && 1 <= block_count(ErrorCorrectionLevel::Low, 25) && 7 <= ecc_per_block(ErrorCorrectionLevel::Low, 25) <= 30) by (nonlinear_arith)
            requires
                ecc_per_block(ErrorCorrectionLevel::Low, 25) == 26,
                block_count(ErrorCorrectionLevel::Low, 25) == 12,
                raw_data_modules(25) == 12708,
        ;
        assert(ecc_per_block(ErrorCorrectionLevel::Medium, 25) == 28 && block_count(ErrorCorrectionLevel::Medium, 25) == 21);
        assert(ecc_per_block(ErrorCorrectionLevel::Medium, 25) * block_count(ErrorCorrectionLevel::Medium, 25) < raw_data_modules(25) / 8 && ecc_per_block(ErrorCorrectionLevel::Medium, 25) + 1 < raw_data_modules(25) / 8 / block_count(ErrorCorrectionLevel::Medium, 25) && 1 <= block_count(ErrorCorrectionLevel::Medium, 25) && 7 <= ecc_per_block(ErrorCorrectionLevel::Medium, 25) <= 30) by (nonlinear_arith)
            requires
                ecc_per_block(ErrorCorrectionLevel::Medium, 25) == 28,
                block_count(ErrorCorrectionLevel::Medium, 25) == 21,
                raw_data_modules(25) == 12708,
        ;
        assert(ecc_per_block(ErrorCorrectionLevel::Quartile, 25) == 30 && block_count(ErrorCorrectionLevel::Quartile, 25) == 29);
        assert(ecc_per_block(ErrorCorrectionLevel::Quartile, 25) * block_count(ErrorCorrectionLevel::Quartile, 25) < raw_data_modules(25) / 8 && ecc_per_block(ErrorCorrectionLevel::Quartile, 25) + 1 < raw_data_modules(25) / 8 / block_count(ErrorCorrectionLevel::Quartile, 25) && 1 <= block_count(ErrorCorrectionLevel::Quartile, 25) && 7 <= ecc_per_block(ErrorCorrectionLevel::Quartile, 25) <= 30) by (nonlinear_arith)
            requires
                ecc_per_block(ErrorCorrectionLevel::Quartile, 25) == 30,
                block_count(ErrorCorrectionLevel::Quartile, 25) == 29,
                raw_data_modules(25) == 12708,
        ;
        assert(ecc_per_block(ErrorCorrectionLevel::High, 25) == 30 && block_count(ErrorCorrectionLevel::High, 25) == 35);
        assert(ecc_per_block(ErrorCorrectionLevel::High, 25) * block_count(ErrorCorrectionLevel::High, 25) < raw_data_modules(25) / 8 && ecc_per_block(ErrorCorrectionLevel::High, 25) + 1 < raw_data_modules(25) / 8 / block_count(ErrorCorrectionLevel::High, 25) && 1 <= block_count(ErrorCorrectionLevel::High, 25) && 7 <= ecc_per_block(ErrorCorrectionLevel::High, 25) <= 30) by (nonlinear_arith)
            requires
                ecc_per_block(ErrorCorrectionLevel::High, 25) == 30,
                block_count(ErrorCorrectionLevel::High, 25) == 35,
                raw_data_modules(25) == 12708,
        ;

    } else if v == 26 {
        assert(raw_data_modules(26) == 13652) by (nonlinear_arith)
            requires
                alignment_count(26) == 5,
        ;
        assert(alignment_count(26) == 5);
        assert(ecc_per_block(ErrorCorrectionLevel::Low, 26) == 28 && block_count(ErrorCorrectionLevel::Low, 26) == 12);
        assert(ecc_per_block(ErrorCorrectionLevel::Low, 26) * block_count(ErrorCorrectionLevel::Low, 26) < raw_data_modules(26) / 8 && ecc_per_block(ErrorCorrectionLevel::Low, 26) + 1 < raw_data_modules(26) / 8 / block_count(ErrorCorrectionLevel::Low, 26) && 1 <= block_count(ErrorCorrectionLevel::Low, 26) && 7 <= ecc_per_block(ErrorCorrectionLevel::Low, 26) <= 30) by (nonlinear_arith)
            requires
                ecc_per_block(ErrorCorrectionLevel::Low, 26) == 28,
                block_count(ErrorCorrectionLevel::Low, 26) == 12,
                raw_data_modules(26) == 13652,
        ;
        assert(ecc_per_block(ErrorCorrectionLevel::Medium, 26) == 28 && block_count(ErrorCorrectionLevel::Medium, 26) == 23);
        assert(ecc_per_block(ErrorCorrectionLevel::Medium, 26) * block_count(ErrorCorrectionLevel::Medium, 26) < raw_data_modules(26) / 8 && ecc_per_block(ErrorCorrectionLevel::Medium, 26) + 1 < raw_data_modules(26) / 8 / block_count(ErrorCorrectionLevel::Medium, 26) && 1 <= block_count(ErrorCorrectionLevel::Medium, 26) && 7 <= ecc_per_block(ErrorCorrectionLevel::Medium, 26) <= 30) by (nonlinear_arith)
            requires
                ecc_per_block(ErrorCorrectionLevel::Medium, 26) == 28,
                block_count(ErrorCorrectionLevel::Medium, 26) == 23,
                raw_data_modules(26) == 13652,
        ;
        assert(ecc_per_block(ErrorCorrectionLevel::Quartile, 26) == 28 && block_count(ErrorCorrectionLevel::Quartile, 26) == 34);
        assert(ecc_per_block(ErrorCorrectionLevel::Quartile, 26) * block_count(ErrorCorrectionLevel::Quartile, 26) < raw_data_modules(26) / 8 && ecc_per_block(ErrorCorrectionLevel::Quartile, 26) + 1 < raw_data_modules(26) / 8 / block_count(ErrorCorrectionLevel::Quartile, 26) && 1 <= block_count(ErrorCorrectionLevel::Quartile, 26) && 7 <= ecc_per_block(ErrorCorrectionLevel::Quartile, 26) <= 30) by (nonlinear_arith)
            requires
                ecc_per_block(ErrorCorrectionLevel::Quartile, 26) == 28,
                block_count(ErrorCorrectionLevel::Quartile, 26) == 34,
                raw_data_modules(26) == 13652,
        ;
        assert(ecc_per_block(ErrorCorrectionLevel::High, 26) == 30 && block_count(ErrorCorrectionLevel::High, 26) == 37);
        assert(ecc_per_block(ErrorCorrectionLevel::High, 26) * block_count(ErrorCorrectionLevel::High, 26) < raw_data_modules(26) / 8 && ecc_per_block(ErrorCorrectionLevel::High, 26) + 1 < raw_data_modules(26) / 8 / block_count(ErrorCorrectionLevel::High, 26) && 1 <= block_count(ErrorCorrectionLevel::High, 26) && 7 <= ecc_per_block(ErrorCorrectionLevel::High, 26) <= 30) by (nonlinear_arith)
            requires
                ecc_per_block(ErrorCorrectionLevel::High, 26) == 30,
                block_count(ErrorCorrectionLevel::High, 26) == 37,
                raw_data_modules(26) == 13652,
        ;

    } else if v == 27 {
        assert(raw_data_modules(27) == 14628) by (nonlinear_arith)
            requires
                alignment_count(27) == 5,
        ;
        assert(alignment_count(27) == 5);
        assert(ecc_per_block(ErrorCorrectionLevel::Low, 27) == 30 && block_count(ErrorCorrectionLevel::Low, 27) == 12);
        assert(ecc_per_block(ErrorCorrectionLevel::Low, 27) * block_count(ErrorCorrectionLevel::Low, 27) < raw_data_modules(27) / 8 && ecc_per_block(ErrorCorrectionLevel::Low, 27) + 1 < raw_data_modules(27) / 8 / block_count(ErrorCorrectionLevel::Low, 27) && 1 <= block_count(ErrorCorrectionLevel::Low, 27) && 7 <= ecc_per_block(ErrorCorrectionLevel::Low, 27) <= 30) by (nonlinear_arith)
            requires
                ecc_per_block(ErrorCorrectionLevel::Low, 27) == 30,
                block_count(ErrorCorrectionLevel::Low, 27) == 12,
                raw_data_modules(27) == 14628,
        ;
        assert(ecc_per_block(ErrorCorrectionLevel::Medium, 27) == 28 && block_count(ErrorCorrectionLevel::Medium, 27) == 25);
        assert(ecc_per_block(ErrorCorrectionLevel::Medium, 27) * block_count(ErrorCorrectionLevel::Medium, 27) < raw_data_modules(27) / 8 && ecc_per_block(ErrorCorrectionLevel::Medium, 27) + 1 < raw_data_modules(27) / 8 / block_count(ErrorCorrectionLevel::Medium, 27) && 1 <= block_count(ErrorCorrectionLevel::Medium, 27) && 7 <= ecc_per_block(ErrorCorrectionLevel::Medium, 27) <= 30) by (nonlinear_arith)
            requires
                ecc_per_block(ErrorCorrectionLevel::Medium, 27) == 28,
                block_count(ErrorCorrectionLevel::Medium, 27) == 25,
                raw_data_modules(27) == 14628,
        ;
        assert(ecc_per_block(ErrorCorrectionLevel::Quartile, 27) == 30 && block_count(ErrorCorrectionLevel::Quartile, 27) == 34);
        assert(ecc_per_block(ErrorCorrectionLevel::Quartile, 27) * block_count(ErrorCorrectionLevel::Quartile, 27) < raw_data_modules(27) / 8 && ecc_per_block(ErrorCorrectionLevel::Quartile, 27) + 1 < raw_data_modules(27) / 8 / block_count(ErrorCorrectionLevel::Quartile, 27) && 1 <= block_count(ErrorCorrectionLevel::Quartile, 27) && 7 <= ecc_per_block(ErrorCorrectionLevel::Quartile, 27) <= 30) by (nonlinear_arith)
            requires
                ecc_per_block(ErrorCorrectionLevel::Quartile, 27) == 30,
                block_count(ErrorCorrectionLevel::Quartile, 27) == 34,
                raw_data_modules(27) == 14628,
        ;
        assert(ecc_per_block(ErrorCorrectionLevel::High, 27) == 30 && block_count(ErrorCorrectionLevel::High, 27) == 40);
        assert(ecc_per_block(ErrorCorrectionLevel::High, 27) * block_count(ErrorCorrectionLevel::High, 27) < raw_data_modules(27) / 8 && ecc_per_block(ErrorCorrectionLevel::High, 27) + 1 < raw_data_modules(27) / 8 / block_count(ErrorCorrectionLevel::High, 27) && 1 <= block_count(ErrorCorrectionLevel::High, 27) && 7 <= ecc_per_block(ErrorCorrectionLevel::High, 27) <= 30) by (nonlinear_arith)
            requires
                ecc_per_block(ErrorCorrectionLevel::High, 27) == 30,
                block_count(ErrorCorrectionLevel::High, 27) == 40,
                raw_data_modules(27) == 14628,
        ;

    } else if v == 28 {
        assert(raw_data_modules(28) == 15371) by (nonlinear_arith)
            requires
                alignment_count(28) == 6,
        ;
        assert(alignment_count(28) == 6);
        assert(ecc_per_block(ErrorCorrectionLevel::Low, 28) == 30 && block_count(ErrorCorrectionLevel::Low, 28) == 13);
        assert(ecc_per_block(ErrorCorrectionLevel::Low, 28) * block_count(ErrorCorrectionLevel::Low, 28) < raw_data_modules(28) / 8 && ecc_per_block(ErrorCorrectionLevel::Low, 28) + 1 < raw_data_modules(28) / 8 / block_count(ErrorCorrectionLevel::Low, 28) && 1 <= block_count(ErrorCorrectionLevel::Low, 28) && 7 <= ecc_per_block(ErrorCorrectionLevel::Low, 28) <= 30) by (nonlinear_arith)
            requires
                ecc_per_block(ErrorCorrectionLevel::Low, 28) == 30,
                block_count(ErrorCorrectionLevel::Low, 28) == 13,
                raw_data_modules(28) == 15371,
        ;
        assert(ecc_per_block(ErrorCorrectionLevel::Medium, 28) == 28 && block_count(ErrorCorrectionLevel::Medium, 28) == 26);
        assert(ecc_per_block(ErrorCorrectionLevel::Medium, 28) * block_count(ErrorCorrectionLevel::Medium, 28) < raw_data_modules(28) / 8 && ecc_per_block(ErrorCorrectionLevel::Medium, 28) + 1 < raw_data_modules(28) / 8 / block_count(ErrorCorrectionLevel::Medium, 28) && 1 <= block_count(ErrorCorrectionLevel::Medium, 28) && 7 <= ecc_per_block(ErrorCorrectionLevel::Medium, 28) <= 30) by (nonlinear_arith)
            requires
                ecc_per_block(ErrorCorrectionLevel::Medium, 28) == 28,
                block_count(ErrorCorrectionLevel::Medium, 28) == 26,
                raw_data_modules(28) == 15371,
        ;
        assert(ecc_per_block(ErrorCorrectionLevel::Quartile, 28) == 30 && block_count(ErrorCorrectionLevel::Quartile, 28) == 35);
        assert(ecc_per_block(ErrorCorrectionLevel::Quartile, 28) * block_count(ErrorCorrectionLevel::Quartile, 28) < raw_data_modules(28) / 8 && ecc_per_block(ErrorCorrectionLevel::Quartile, 28) + 1 < raw_data_modules(28) / 8 / block_count(ErrorCorrectionLevel::Quartile, 28) && 1 <= block_count(ErrorCorrectionLevel::Quartile, 28) && 7 <= ecc_per_block(ErrorCorrectionLevel::Quartile, 28) <= 30) by (nonlinear_arith)
            requires
                ecc_per_block(ErrorCorrectionLevel::Quartile, 28) == 30,
                block_count(ErrorCorrectionLevel::Quartile, 28) == 35,
                raw_data_modules(28) == 15371,
        ;
        assert(ecc_per_block(ErrorCorrectionLevel::High, 28) == 30 && block_count(ErrorCorrectionLevel::High, 28) == 42);
        assert(ecc_per_block(ErrorCorrectionLevel::High, 28) * block_count(ErrorCorrectionLevel::High, 28) < raw_data_modules(28) / 8 && ecc_per_block(ErrorCorrectionLevel::High, 28) + 1 < raw_data_modules(28) / 8 / block_count(ErrorCorrectionLevel::High, 28) && 1 <= block_count(ErrorCorrectionLevel::High, 28) && 7 <= ecc_per_block(ErrorCorrectionLevel::High, 28) <= 30) by (nonlinear_arith)
            requires
                ecc_per_block(ErrorCorrectionLevel::High, 28) == 30,
                block_count(ErrorCorrectionLevel::High, 28) == 42,
                raw_data_modules(28) == 15371,
        ;

    } else if v == 29 {
        assert(raw_data_modules(29) == 16411) by (nonlinear_arith)
            requires
                alignment_count(29) == 6,
        ;
        assert(alignment_count(29) == 6);
        assert(ecc_per_block(ErrorCorrectionLevel::Low, 29) == 30 && block_count(ErrorCorrectionLevel::Low, 29) == 14);
        assert(ecc_per_block(ErrorCorrectionLevel::Low, 29) * block_count(ErrorCorrectionLevel::Low, 29) < raw_data_modules(29) / 8 && ecc_per_block(ErrorCorrectionLevel::Low, 29) + 1 < raw_data_modules(29) / 8 / block_count(ErrorCorrectionLevel::Low, 29) && 1 <= block_count(ErrorCorrectionLevel::Low, 29) && 7 <= ecc_per_block(ErrorCorrectionLevel::Low, 29) <= 30) by (nonlinear_arith)
            requires
                ecc_per_block(ErrorCorrectionLevel::Low, 29) == 30,
                block_count(ErrorCorrectionLevel::Low, 29) == 14,
                raw_data_modules(29) == 16411,
        ;
        assert(ecc_per_block(ErrorCorrectionLevel::Medium, 29) == 28 && block_count(ErrorCorrectionLevel::Medium, 29) == 28);
        assert(ecc_per_block(ErrorCorrectionLevel::Medium, 29) * block_count(ErrorCorrectionLevel::Medium, 29) < raw_data_modules(29) / 8 && ecc_per_block(ErrorCorrectionLevel::Medium, 29) + 1 < raw_data_modules(29) / 8 / block_count(ErrorCorrectionLevel::Medium, 29) && 1 <= block_count(ErrorCorrectionLevel::Medium, 29) && 7 <= ecc_per_block(ErrorCorrectionLevel::Medium, 29) <= 30) by (nonlinear_arith)
            requires
                ecc_per_block(ErrorCorrectionLevel::Medium, 29) == 28,
                block_count(ErrorCorrectionLevel::Medium, 29) == 28,
                raw_data_modules(29) == 16411,
        ;
        assert(ecc_per_block(ErrorCorrectionLevel::Quartile, 29) == 30 && block_count(ErrorCorrectionLevel::Quartile, 29) == 38);
        assert(ecc_per_block(ErrorCorrectionLevel::Quartile, 29) * block_count(ErrorCorrectionLevel::Quartile, 29) < raw_data_modules(29) / 8 && ecc_per_block(ErrorCorrectionLevel::Quartile, 29) + 1 < raw_data_modules(29) / 8 / block_count(ErrorCorrectionLevel::Quartile, 29) && 1 <= block_count(ErrorCorrectionLevel::Quartile, 29) && 7 <= ecc_per_block(ErrorCorrectionLevel::Quartile, 29) <= 30) by (nonlinear_arith)
            requires
                ecc_per_block(ErrorCorrectionLevel::Quartile, 29) == 30,
                block_count(ErrorCorrectionLevel::Quartile, 29) == 38,
                raw_data_modules(29) == 16411,
        ;
        assert(ecc_per_block(ErrorCorrectionLevel::High, 29) == 30 && block_count(ErrorCorrectionLevel::High, 29) == 45);
        assert(ecc_per_block(ErrorCorrectionLevel::High, 29) * block_count(ErrorCorrectionLevel::High, 29) < raw_data_modules(29) / 8 && ecc_per_block(ErrorCorrectionLevel::High, 29) + 1 < raw_data_modules(29) / 8 / block_count(ErrorCorrectionLevel::High, 29) && 1 <= block_count(ErrorCorrectionLevel::High, 29) && 7 <= ecc_per_block(ErrorCorrectionLevel::High, 29) <= 30) by (nonlinear_arith)
            requires
                ecc_per_block(ErrorCorrectionLevel::High, 29) == 30,
                block_count(ErrorCorrectionLevel::High, 29) == 45,
                raw_data_modules(29) == 16411,
        ;

    } else if v == 30 {
        assert(raw_data_modules(30) == 17483) by (nonlinear_arith)
            requires
                alignment_count(30) == 6,
        ;
        assert(alignment_count(30) == 6);
        assert(ecc_per_block(ErrorCorrectionLevel::Low, 30) == 30 && block_count(ErrorCorrectionLevel::Low, 30) == 15);
        assert(ecc_per_block(ErrorCorrectionLevel::Low, 30) * block_count(ErrorCorrectionLevel::Low, 30) < raw_data_modules(30) / 8 && ecc_per_block(ErrorCorrectionLevel::Low, 30) + 1 < raw_data_modules(30) / 8 / block_count(ErrorCorrectionLevel::Low, 30) && 1 <= block_count(ErrorCorrectionLevel::Low, 30) && 7 <= ecc_per_block(ErrorCorrectionLevel::Low, 30) <= 30) by (nonlinear_arith)
            requires
                ecc_per_block(ErrorCorrectionLevel::Low, 30) == 30,
                block_count(ErrorCorrectionLevel::Low, 30) == 15,
                raw_data_modules(30) == 17483,
        ;
        assert(ecc_per_block(ErrorCorrectionLevel::Medium, 30) == 28 && block_count(ErrorCorrectionLevel::Medium, 30) == 29);
        assert(ecc_per_block(ErrorCorrectionLevel::Medium, 30) * block_count(ErrorCorrectionLevel::Medium, 30) < raw_data_modules(30) / 8 && ecc_per_block(ErrorCorrectionLevel::Medium, 30) + 1 < raw_data_modules(30) / 8 / block_count(ErrorCorrectionLevel::Medium, 30) && 1 <= block_count(ErrorCorrectionLevel::Medium, 30) && 7 <= ecc_per_block(ErrorCorrectionLevel::Medium, 30) <= 30) by (nonlinear_arith)
            requires
                ecc_per_block(ErrorCorrectionLevel::Medium, 30) == 28,
                block_count(ErrorCorrectionLevel::Medium, 30) == 29,
                raw_data_modules(30) == 17483,
        ;
        assert(ecc_per_block(ErrorCorrectionLevel::Quartile, 30) == 30 && block_count(ErrorCorrectionLevel::Quartile, 30) == 40);
        assert(ecc_per_block(ErrorCorrectionLevel::Quartile, 30) * block_count(ErrorCorrectionLevel::Quartile, 30) < raw_data_modules(30) / 8 && ecc_per_block(ErrorCorrectionLevel::Quartile, 30) + 1 < raw_data_modules(30) / 8 / block_count(ErrorCorrectionLevel::Quartile, 30) && 1 <= block_count(ErrorCorrectionLevel::Quartile, 30) && 7 <= ecc_per_block(ErrorCorrectionLevel::Quartile, 30) <= 30) by (nonlinear_arith)
            requires
                ecc_per_block(ErrorCorrectionLevel::Quartile, 30) == 30,
                block_count(ErrorCorrectionLevel::Quartile, 30) == 40,
                raw_data_modules(30) == 17483,
        ;
        assert(ecc_per_block(ErrorCorrectionLevel::High, 30) == 30 && block_count(ErrorCorrectionLevel::High, 30) == 48);
        assert(ecc_per_block(ErrorCorrectionLevel::High, 30) * block_count(ErrorCorrectionLevel::High, 30) < raw_data_modules(30) / 8 && ecc_per_block(ErrorCorrectionLevel::High, 30) + 1 < raw_data_modules(30) / 8 / block_count(ErrorCorrectionLevel::High, 30) && 1 <= block_count(ErrorCorrectionLevel::High, 30) && 7 <= ecc_per_block(ErrorCorrectionLevel::High, 30) <= 30) by (nonlinear_arith)
            requires
                ecc_per_block(ErrorCorrectionLevel::High, 30) == 30,
                block_count(ErrorCorrectionLevel::High, 30) == 48,
                raw_data_modules(30) == 17483,
        ;

    } else if v == 31 {
        assert(raw_data_modules(31) == 18587) by (nonlinear_arith)
            requires
                alignment_count(31) == 6,
        ;
        assert(alignment_count(31) == 6);
        assert(ecc_per_block(ErrorCorrectionLevel::Low, 31) == 30 && block_count(ErrorCorrectionLevel::Low, 31) == 16);
        assert(ecc_per_block(ErrorCorrectionLevel::Low, 31) * block_count(ErrorCorrectionLevel::Low, 31) < raw_data_modules(31) / 8 && ecc_per_block(ErrorCorrectionLevel::Low, 31) + 1 < raw_data_modules(31) / 8 / block_count(ErrorCorrectionLevel::Low, 31) && 1 <= block_count(ErrorCorrectionLevel::Low, 31) && 7 <= ecc_per_block(ErrorCorrectionLevel::Low, 31) <= 30) by (nonlinear_arith)
            requires
                ecc_per_block(ErrorCorrectionLevel::Low, 31) == 30,
                block_count(ErrorCorrectionLevel::Low, 31) == 16,
                raw_data_modules(31) == 18587,
        ;
        assert(ecc_per_block(ErrorCorrectionLevel::Medium, 31) == 28 && block_count(ErrorCorrectionLevel::Medium, 31) == 31);
        assert(ecc_per_block(ErrorCorrectionLevel::Medium, 31) * block_count(ErrorCorrectionLevel::Medium, 31) < raw_data_modules(31) / 8 && ecc_per_block(ErrorCorrectionLevel::Medium, 31) + 1 < raw_data_modules(31) / 8 / block_count(ErrorCorrectionLevel::Medium, 31) && 1 <= block_count(ErrorCorrectionLevel::Medium, 31) && 7 <= ecc_per_block(ErrorCorrectionLevel::Medium, 31) <= 30) by (nonlinear_arith)
            requires
                ecc_per_block(ErrorCorrectionLevel::Medium, 31) == 28,
                block_count(ErrorCorrectionLevel::Medium, 31) == 31,
                raw_data_modules(31) == 18587,
        ;
        assert(ecc_per_block(ErrorCorrectionLevel::Quartile, 31) == 30 && block_count(ErrorCorrectionLevel::Quartile, 31) == 43);
        assert(ecc_per_block(ErrorCorrectionLevel::Quartile, 31) * block_count(ErrorCorrectionLevel::Quartile, 31) < raw_data_modules(31) / 8 && ecc_per_block(ErrorCorrectionLevel::Quartile, 31) + 1 < raw_data_modules(31) / 8 / block_count(ErrorCorrectionLevel::Quartile, 31) && 1 <= block_count(ErrorCorrectionLevel::Quartile, 31) && 7 <= ecc_per_block(ErrorCorrectionLevel::Quartile, 31) <= 30) by (nonlinear_arith)
            requires
                ecc_per_block(ErrorCorrectionLevel::Quartile, 31) == 30,
                block_count(ErrorCorrectionLevel::Quartile, 31) == 43,
                raw_data_modules(31) == 18587,
        ;
        assert(ecc_per_block(ErrorCorrectionLevel::High, 31) == 30 && block_count(ErrorCorrectionLevel::High, 31) == 51);
        assert(ecc_per_block(ErrorCorrectionLevel::High, 31) * block_count(ErrorCorrectionLevel::High, 31) < raw_data_modules(31) / 8 && ecc_per_block(ErrorCorrectionLevel::High, 31) + 1 < raw_data_modules(31) / 8 / block_count(ErrorCorrectionLevel::High, 31) && 1 <= block_count(ErrorCorrectionLevel::High, 31) && 7 <= ecc_per_block(ErrorCorrectionLevel::High, 31) <= 30) by (nonlinear_arith)
            requires
                ecc_per_block(ErrorCorrectionLevel::High, 31) == 30,
                block_count(ErrorCorrectionLevel::High, 31) == 51,
                raw_data_modules(31) == 18587,
        ;

    } else if v == 32 {
        assert(raw_data_modules(32) == 19723) by (nonlinear_arith)
            requires
                alignment_count(32) == 6,
        ;
        assert(alignment_count(32) == 6);
        assert(ecc_per_block(ErrorCorrectionLevel::Low, 32) == 30 && block_count(ErrorCorrectionLevel::Low, 32) == 17);
        assert(ecc_per_block(ErrorCorrectionLevel::Low, 32) * block_count(ErrorCorrectionLevel::Low, 32) < raw_data_modules(32) / 8 && ecc_per_block(ErrorCorrectionLevel::Low, 32) + 1 < raw_data_modules(32) / 8 / block_count(ErrorCorrectionLevel::Low, 32) && 1 <= block_count(ErrorCorrectionLevel::Low, 32) && 7 <= ecc_per_block(ErrorCorrectionLevel::Low, 32) <= 30) by (nonlinear_arith)
            requires
                ecc_per_block(ErrorCorrectionLevel::Low, 32) == 30,
                block_count(ErrorCorrectionLevel::Low, 32) == 17,
                raw_data_modules(32) == 19723,
        ;
        assert(ecc_per_block(ErrorCorrectionLevel::Medium, 32) == 28 && block_count(ErrorCorrectionLevel::Medium, 32) == 33);
        assert(ecc_per_block(ErrorCorrectionLevel::Medium, 32) * block_count(ErrorCorrectionLevel::Medium, 32) < raw_data_modules(32) / 8 && ecc_per_block(ErrorCorrectionLevel::Medium, 32) + 1 < raw_data_modules(32) / 8 / block_count(ErrorCorrectionLevel::Medium, 32) && 1 <= block_count(ErrorCorrectionLevel::Medium, 32) && 7 <= ecc_per_block(ErrorCorrectionLevel::Medium, 32) <= 30) by (nonlinear_arith)
            requires
                ecc_per_block(ErrorCorrectionLevel::Medium, 32) == 28,
                block_count(ErrorCorrectionLevel::Medium, 32) == 33,
                raw_data_modules(32) == 19723,
        ;
        assert(ecc_per_block(ErrorCorrectionLevel::Quartile, 32) == 30 && block_count(ErrorCorrectionLevel::Quartile, 32) == 45);
        assert(ecc_per_block(ErrorCorrectionLevel::Quartile, 32) * block_count(ErrorCorrectionLevel::Quartile, 32) < raw_data_modules(32) / 8 && ecc_per_block(ErrorCorrectionLevel::Quartile, 32) + 1 < raw_data_modules(32) / 8 / block_count(ErrorCorrectionLevel::Quartile, 32) && 1 <= block_count(ErrorCorrectionLevel::Quartile, 32) && 7 <= ecc_per_block(ErrorCorrectionLevel::Quartile, 32) <= 30) by (nonlinear_arith)
            requires
                ecc_per_block(ErrorCorrectionLevel::Quartile, 32) == 30,
                block_count(ErrorCorrectionLevel::Quartile, 32) == 45,
                raw_data_modules(32) == 19723,
        ;
        assert(ecc_per_block(ErrorCorrectionLevel::High, 32) == 30 && block_count(ErrorCorrectionLevel::High, 32) == 54);
        assert(ecc_per_block(ErrorCorrectionLevel::High, 32) * block_count(ErrorCorrectionLevel::High, 32) < raw_data_modules(32) / 8 && ecc_per_block(ErrorCorrectionLevel::High, 32) + 1 < raw_data_modules(32) / 8 / block_count(ErrorCorrectionLevel::High, 32) && 1 <= block_count(ErrorCorrectionLevel::High, 32) && 7 <= ecc_per_block(ErrorCorrectionLevel::High, 32) <= 30) by (nonlinear_arith)
            requires
                ecc_per_block(ErrorCorrectionLevel::High, 32) == 30,
                block_count(ErrorCorrectionLevel::High, 32) == 54,
                raw_data_modules(32) == 19723,
        ;

    } else if v == 33 {
        assert(raw_data_modules(33) == 20891) by (nonlinear_arith)
            requires
                alignment_count(33) == 6,
        ;
        assert(alignment_count(33) == 6);
        assert(ecc_per_block(ErrorCorrectionLevel::Low, 33) == 30 && block_count(ErrorCorrectionLevel::Low, 33) == 18);
        assert(ecc_per_block(ErrorCorrectionLevel::Low, 33) * block_count(ErrorCorrectionLevel::Low, 33) < raw_data_modules(33) / 8 && ecc_per_block(ErrorCorrectionLevel::Low, 33) + 1 < raw_data_modules(33) / 8 / block_count(ErrorCorrectionLevel::Low, 33) && 1 <= block_count(ErrorCorrectionLevel::Low, 33) && 7 <= ecc_per_block(ErrorCorrectionLevel::Low, 33) <= 30) by (nonlinear_arith)
            requires
                ecc_per_block(ErrorCorrectionLevel::Low, 33) == 30,
                block_count(ErrorCorrectionLevel::Low, 33) == 18,
                raw_data_modules(33) == 20891,
        ;
        assert(ecc_per_block(ErrorCorrectionLevel::Medium, 33) == 28 && block_count(ErrorCorrectionLevel::Medium, 33) == 35);
        assert(ecc_per_block(ErrorCorrectionLevel::Medium, 33) * block_count(ErrorCorrectionLevel::Medium, 33) < raw_data_modules(33) / 8 && ecc_per_block(ErrorCorrectionLevel::Medium, 33) + 1 < raw_data_modules(33) / 8 / block_count(ErrorCorrectionLevel::Medium, 33) && 1 <= block_count(ErrorCorrectionLevel::Medium, 33) && 7 <= ecc_per_block(ErrorCorrectionLevel::Medium, 33) <= 30) by (nonlinear_arith)
            requires
                ecc_per_block(ErrorCorrectionLevel::Medium, 33) == 28,
                block_count(ErrorCorrectionLevel::Medium, 33) == 35,
                raw_data_modules(33) == 20891,
        ;
        assert(ecc_per_block(ErrorCorrectionLevel::Quartile, 33) == 30 && block_count(ErrorCorrectionLevel::Quartile, 33) == 48);
        assert(ecc_per_block(ErrorCorrectionLevel::Quartile, 33) * block_count(ErrorCorrectionLevel::Quartile, 33) < raw_data_modules(33) / 8 && ecc_per_block(ErrorCorrectionLevel::Quartile, 33) + 1 < raw_data_modules(33) / 8 / block_count(ErrorCorrectionLevel::Quartile, 33) && 1 <= block_count(ErrorCorrectionLevel::Quartile, 33) && 7 <= ecc_per_block(ErrorCorrectionLevel::Quartile, 33) <= 30) by (nonlinear_arith)
            requires
                ecc_per_block(ErrorCorrectionLevel::Quartile, 33) == 30,
                block_count(ErrorCorrectionLevel::Quartile, 33) == 48,
                raw_data_modules(33) == 20891,
        ;
        assert(ecc_per_block(ErrorCorrectionLevel::High, 33) == 30 && block_count(ErrorCorrectionLevel::High, 33) == 57);
        assert(ecc_per_block(ErrorCorrectionLevel::High, 33) * block_count(ErrorCorrectionLevel::High, 33) < raw_data_modules(33) / 8 && ecc_per_block(ErrorCorrectionLevel::High, 33) + 1 < raw_data_modules(33) / 8 / block_count(ErrorCorrectionLevel::High, 33) && 1 <= block_count(ErrorCorrectionLevel::High, 33) && 7 <= ecc_per_block(ErrorCorrectionLevel::High, 33) <= 30) by (nonlinear_arith)
            requires
                ecc_per_block(ErrorCorrectionLevel::High, 33) == 30,
                block_count(ErrorCorrectionLevel::High, 33) == 57,
                raw_data_modules(33) == 20891,
        ;

    } else if v == 34 {
        assert(raw_data_modules(34) == 22091) by (nonlinear_arith)
            requires
                alignment_count(34) == 6,
        ;
        assert(alignment_count(34) == 6);
        assert(ecc_per_block(ErrorCorrectionLevel::Low, 34) == 30 && block_count(ErrorCorrectionLevel::Low, 34) == 19);
        assert(ecc_per_block(ErrorCorrectionLevel::Low, 34) * block_count(ErrorCorrectionLevel::Low, 34) < raw_data_modules(34) / 8 && ecc_per_block(ErrorCorrectionLevel::Low, 34) + 1 < raw_data_modules(34) / 8 / block_count(ErrorCorrectionLevel::Low, 34) && 1 <= block_count(ErrorCorrectionLevel::Low, 34) && 7 <= ecc_per_block(ErrorCorrectionLevel::Low, 34) <= 30) by (nonlinear_arith)
            requires
                ecc_per_block(ErrorCorrectionLevel::Low, 34) == 30,
                block_count(ErrorCorrectionLevel::Low, 34) == 19,
                raw_data_modules(34) == 22091,
        ;
        assert(ecc_per_block(ErrorCorrectionLevel::Medium, 34) == 28 && block_count(ErrorCorrectionLevel::Medium, 34) == 37);
        assert(ecc_per_block(ErrorCorrectionLevel::Medium, 34) * block_count(ErrorCorrectionLevel::Medium, 34) < raw_data_modules(34) / 8 && ecc_per_block(ErrorCorrectionLevel::Medium, 34) + 1 < raw_data_modules(34) / 8 / block_count(ErrorCorrectionLevel::Medium, 34) && 1 <= block_count(ErrorCorrectionLevel::Medium, 34) && 7 <= ecc_per_block(ErrorCorrectionLevel::Medium, 34) <= 30) by (nonlinear_arith)
            requires
                ecc_per_block(ErrorCorrectionLevel::Medium, 34) == 28,
                block_count(ErrorCorrectionLevel::Medium, 34) == 37,
                raw_data_modules(34) == 22091,
        ;
        assert(ecc_per_block(ErrorCorrectionLevel::Quartile, 34) == 30 && block_count(ErrorCorrectionLevel::Quartile, 34) == 51);
        assert(ecc_per_block(ErrorCorrectionLevel::Quartile, 34) * block_count(ErrorCorrectionLevel::Quartile, 34) < raw_data_modules(34) / 8 && ecc_per_block(ErrorCorrectionLevel::Quartile, 34) + 1 < raw_data_modules(34) / 8 / block_count(ErrorCorrectionLevel::Quartile, 34) && 1 <= block_count(ErrorCorrectionLevel::Quartile, 34) && 7 <= ecc_per_block(ErrorCorrectionLevel::Quartile, 34) <= 30) by (nonlinear_arith)
            requires
                ecc_per_block(ErrorCorrectionLevel::Quartile, 34) == 30,
                block_count(ErrorCorrectionLevel::Quartile, 34) == 51,
                raw_data_modules(34) == 22091,
        ;
        assert(ecc_per_block(ErrorCorrectionLevel::High, 34) == 30 && block_count(ErrorCorrectionLevel::High, 34) == 60);
        assert(ecc_per_block(ErrorCorrectionLevel::High, 34) * block_count(ErrorCorrectionLevel::High, 34) < raw_data_modules(34) / 8 && ecc_per_block(ErrorCorrectionLevel::High, 34) + 1 < raw_data_modules(34) / 8 / block_count(ErrorCorrectionLevel::High, 34) && 1 <= block_count(ErrorCorrectionLevel::High, 34) && 7 <= ecc_per_block(ErrorCorrectionLevel::High, 34) <= 30) by (nonlinear_arith)
            requires
                ecc_per_block(ErrorCorrectionLevel::High, 34) == 30,
                block_count(ErrorCorrectionLevel::High, 34) == 60,
                raw_data_modules(34) == 22091,
        ;

    } else if v == 35 {
        assert(raw_data_modules(35) == 23008) by (nonlinear_arith)
            requires
                alignment_count(35) == 7,
        ;
        assert(alignment_count(35) == 7);
        assert(ecc_per_block(ErrorCorrectionLevel::Low, 35) == 30 && block_count(ErrorCorrectionLevel::Low, 35) == 19);
        assert(ecc_per_block(ErrorCorrectionLevel::Low, 35) * block_count(ErrorCorrectionLevel::Low, 35) < raw_data_modules(35) / 8 && ecc_per_block(ErrorCorrectionLevel::Low, 35) + 1 < raw_data_modules(35) / 8 / block_count(ErrorCorrectionLevel::Low, 35) && 1 <= block_count(ErrorCorrectionLevel::Low, 35) && 7 <= ecc_per_block(ErrorCorrectionLevel::Low, 35) <= 30) by (nonlinear_arith)
            requires
                ecc_per_block(ErrorCorrectionLevel::Low, 35) == 30,
                block_count(ErrorCorrectionLevel::Low, 35) == 19,
                raw_data_modules(35) == 23008,
        ;
        assert(ecc_per_block(ErrorCorrectionLevel::Medium, 35) == 28 && block_count(ErrorCorrectionLevel::Medium, 35) == 38);
        assert(ecc_per_block(ErrorCorrectionLevel::Medium, 35) * block_count(ErrorCorrectionLevel::Medium, 35) < raw_data_modules(35) / 8 && ecc_per_block(ErrorCorrectionLevel::Medium, 35) + 1 < raw_data_modules(35) / 8 / block_count(ErrorCorrectionLevel::Medium, 35) && 1 <= block_count(ErrorCorrectionLevel::Medium, 35) && 7 <= ecc_per_block(ErrorCorrectionLevel::Medium, 35) <= 30) by (nonlinear_arith)
            requires
                ecc_per_block(ErrorCorrectionLevel::Medium, 35) == 28,
                block_count(ErrorCorrectionLevel::Medium, 35) == 38,
                raw_data_modules(35) == 23008,
        ;
        assert(ecc_per_block(ErrorCorrectionLevel::Quartile, 35) == 30 && block_count(ErrorCorrectionLevel::Quartile, 35) == 53);
        assert(ecc_per_block(ErrorCorrectionLevel::Quartile, 35) * block_count(ErrorCorrectionLevel::Quartile, 35) < raw_data_modules(35) / 8 && ecc_per_block(ErrorCorrectionLevel::Quartile, 35) + 1 < raw_data_modules(35) / 8 / block_count(ErrorCorrectionLevel::Quartile, 35) && 1 <= block_count(ErrorCorrectionLevel::Quartile, 35) && 7 <= ecc_per_block(ErrorCorrectionLevel::Quartile, 35) <= 30) by (nonlinear_arith)
            requires
                ecc_per_block(ErrorCorrectionLevel::Quartile, 35) == 30,
                block_count(ErrorCorrectionLevel::Quartile, 35) == 53,
                raw_data_modules(35) == 23008,
        ;
        assert(ecc_per_block(ErrorCorrectionLevel::High, 35) == 30 && block_count(ErrorCorrectionLevel::High, 35) == 63);
        assert(ecc_per_block(ErrorCorrectionLevel::High, 35) * block_count(ErrorCorrectionLevel::High, 35) < raw_data_modules(35) / 8 && ecc_per_block(ErrorCorrectionLevel::High, 35) + 1 < raw_data_modules(35) / 8 / block_count(ErrorCorrectionLevel::High, 35) && 1 <= block_count(ErrorCorrectionLevel::High, 35) && 7 <= ecc_per_block(ErrorCorrectionLevel::High, 35) <= 30) by (nonlinear_arith)
            requires
                ecc_per_block(ErrorCorrectionLevel::High, 35) == 30,
                block_count(ErrorCorrectionLevel::High, 35) == 63,
                raw_data_modules(35) == 23008,
        ;

    } else if v == 36 {
        assert(raw_data_modules(36) == 24272) by (nonlinear_arith)
            requires
                alignment_count(36) == 7,
        ;
        assert(alignment_count(36) == 7);
        assert(ecc_per_block(ErrorCorrectionLevel::Low, 36) == 30 && block_count(ErrorCorrectionLevel::Low, 36) == 20);
        assert(ecc_per_block(ErrorCorrectionLevel::Low, 36) * block_count(ErrorCorrectionLevel::Low, 36) < raw_data_modules(36) / 8 && ecc_per_block(ErrorCorrectionLevel::Low, 36) + 1 < raw_data_modules(36) / 8 / block_count(ErrorCorrectionLevel::Low, 36) && 1 <= block_count(ErrorCorrectionLevel::Low, 36) && 7 <= ecc_per_block(ErrorCorrectionLevel::Low, 36) <= 30) by (nonlinear_arith)
            requires
                ecc_per_block(ErrorCorrectionLevel::Low, 36) == 30,
                block_count(ErrorCorrectionLevel::Low, 36) == 20,
                raw_data_modules(36) == 24272,
        ;
        assert(ecc_per_block(ErrorCorrectionLevel::Medium, 36) == 28 && block_count(ErrorCorrectionLevel::Medium, 36) == 40);
        assert(ecc_per_block(ErrorCorrectionLevel::Medium, 36) * block_count(ErrorCorrectionLevel::Medium, 36) < raw_data_modules(36) / 8 && ecc_per_block(ErrorCorrectionLevel::Medium, 36) + 1 < raw_data_modules(36) / 8 / block_count(ErrorCorrectionLevel::Medium, 36) && 1 <= block_count(ErrorCorrectionLevel::Medium, 36) && 7 <= ecc_per_block(ErrorCorrectionLevel::Medium, 36) <= 30) by (nonlinear_arith)
            requires
                ecc_per_block(ErrorCorrectionLevel::Medium, 36) == 28,
                block_count(ErrorCorrectionLevel::Medium, 36) == 40,
                raw_data_modules(36) == 24272,
        ;
        assert(ecc_per_block(ErrorCorrectionLevel::Quartile, 36) == 30 && block_count(ErrorCorrectionLevel::Quartile, 36) == 56);
        assert(ecc_per_block(ErrorCorrectionLevel::Quartile, 36) * block_count(ErrorCorrectionLevel::Quartile, 36) < raw_data_modules(36) / 8 && ecc_per_block(ErrorCorrectionLevel::Quartile, 36) + 1 < raw_data_modules(36) / 8 / block_count(ErrorCorrectionLevel::Quartile, 36) && 1 <= block_count(ErrorCorrectionLevel::Quartile, 36) && 7 <= ecc_per_block(ErrorCorrectionLevel::Quartile, 36) <= 30) by (nonlinear_arith)
            requires
                ecc_per_block(ErrorCorrectionLevel::Quartile, 36) == 30,
                block_count(ErrorCorrectionLevel::Quartile, 36) == 56,
                raw_data_modules(36) == 24272,
        ;
        assert(ecc_per_block(ErrorCorrectionLevel::High, 36) == 30 && block_count(ErrorCorrectionLevel::High, 36) == 66);
        assert(ecc_per_block(ErrorCorrectionLevel::High, 36) * block_count(ErrorCorrectionLevel::High, 36) < raw_data_modules(36) / 8 && ecc_per_block(ErrorCorrectionLevel::High, 36) + 1 < raw_data_modules(36) / 8 / block_count(ErrorCorrectionLevel::High, 36) && 1 <= block_count(ErrorCorrectionLevel::High, 36) && 7 <= ecc_per_block(ErrorCorrectionLevel::High, 36) <= 30) by (nonlinear_arith)
            requires
                ecc_per_block(ErrorCorrectionLevel::High, 36) == 30,
                block_count(ErrorCorrectionLevel::High, 36) == 66,
                raw_data_modules(36) == 24272,
        ;

    } else if v == 37 {
        assert(raw_data_modules(37) == 25568) by (nonlinear_arith)
            requires
                alignment_count(37) == 7,
        ;
        assert(alignment_count(37) == 7);
        assert(ecc_per_block(ErrorCorrectionLevel::Low, 37) == 30 && block_count(ErrorCorrectionLevel::Low, 37) == 21);
        assert(ecc_per_block(ErrorCorrectionLevel::Low, 37) * block_count(ErrorCorrectionLevel::Low, 37) < raw_data_modules(37) / 8 && ecc_per_block(ErrorCorrectionLevel::Low, 37) + 1 < raw_data_modules(37) / 8 / block_count(ErrorCorrectionLevel::Low, 37) && 1 <= block_count(ErrorCorrectionLevel::Low, 37) && 7 <= ecc_per_block(ErrorCorrectionLevel::Low, 37) <= 30) by (nonlinear_arith)
            requires
                ecc_per_block(ErrorCorrectionLevel::Low, 37) == 30,
                block_count(ErrorCorrectionLevel::Low, 37) == 21,
                raw_data_modules(37) == 25568,
        ;
        assert(ecc_per_block(ErrorCorrectionLevel::Medium, 37) == 28 && block_count(ErrorCorrectionLevel::Medium, 37) == 43);
        assert(ecc_per_block(ErrorCorrectionLevel::Medium, 37) * block_count(ErrorCorrectionLevel::Medium, 37) < raw_data_modules(37) / 8 && ecc_per_block(ErrorCorrectionLevel::Medium, 37) + 1 < raw_data_modules(37) / 8 / block_count(ErrorCorrectionLevel::Medium, 37) && 1 <= block_count(ErrorCorrectionLevel::Medium, 37) && 7 <= ecc_per_block(ErrorCorrectionLevel::Medium, 37) <= 30) by (nonlinear_arith)
            requires
                ecc_per_block(ErrorCorrectionLevel::Medium, 37) == 28,
                block_count(ErrorCorrectionLevel::Medium, 37) == 43,
                raw_data_modules(37) == 25568,
        ;
        assert(ecc_per_block(ErrorCorrectionLevel::Quartile, 37) == 30 && block_count(ErrorCorrectionLevel::Quartile, 37) == 59);
        assert(ecc_per_block(ErrorCorrectionLevel::Quartile, 37) * block_count(ErrorCorrectionLevel::Quartile, 37) < raw_data_modules(37) / 8 && ecc_per_block(ErrorCorrectionLevel::Quartile, 37) + 1 < raw_data_modules(37) / 8 / block_count(ErrorCorrectionLevel::Quartile, 37) && 1 <= block_count(ErrorCorrectionLevel::Quartile, 37) && 7 <= ecc_per_block(ErrorCorrectionLevel::Quartile, 37) <= 30) by (nonlinear_arith)
            requires
                ecc_per_block(ErrorCorrectionLevel::Quartile, 37) == 30,
                block_count(ErrorCorrectionLevel::Quartile, 37) == 59,
                raw_data_modules(37) == 25568,
        ;
        assert(ecc_per_block(ErrorCorrectionLevel::High, 37) == 30 && block_count(ErrorCorrectionLevel::High, 37) == 70);
        assert(ecc_per_block(ErrorCorrectionLevel::High, 37) * block_count(ErrorCorrectionLevel::High, 37) < raw_data_modules(37) / 8 && ecc_per_block(ErrorCorrectionLevel::High, 37) + 1 < raw_data_modules(37) / 8 / block_count(ErrorCorrectionLevel::High, 37) && 1 <= block_count(ErrorCorrectionLevel::High, 37) && 7 <= ecc_per_block(ErrorCorrectionLevel::High, 37) <= 30) by (nonlinear_arith)
            requires
                ecc_per_block(ErrorCorrectionLevel::High, 37) == 30,
                block_count(ErrorCorrectionLevel::High, 37) == 70,
                raw_data_modules(37) == 25568,
        ;

    } else if v == 38 {
        assert(raw_data_modules(38) == 26896) by (nonlinear_arith)
            requires
                alignment_count(38) == 7,
        ;
        assert(alignment_count(38) == 7);
        assert(ecc_per_block(ErrorCorrectionLevel::Low, 38) == 30 && block_count(ErrorCorrectionLevel::Low, 38) == 22);
        assert(ecc_per_block(ErrorCorrectionLevel::Low, 38) * block_count(ErrorCorrectionLevel::Low, 38) < raw_data_modules(38) / 8 && ecc_per_block(ErrorCorrectionLevel::Low, 38) + 1 < raw_data_modules(38) / 8 / block_count(ErrorCorrectionLevel::Low, 38) && 1 <= block_count(ErrorCorrectionLevel::Low, 38) && 7 <= ecc_per_block(ErrorCorrectionLevel::Low, 38) <= 30) by (nonlinear_arith)
            requires
                ecc_per_block(ErrorCorrectionLevel::Low, 38) == 30,
                block_count(ErrorCorrectionLevel::Low, 38) == 22,
                raw_data_modules(38) == 26896,
        ;
        assert(ecc_per_block(ErrorCorrectionLevel::Medium, 38) == 28 && block_count(ErrorCorrectionLevel::Medium, 38) == 45);
        assert(ecc_per_block(ErrorCorrectionLevel::Medium, 38) * block_count(ErrorCorrectionLevel::Medium, 38) < raw_data_modules(38) / 8 && ecc_per_block(ErrorCorrectionLevel::Medium, 38) + 1 < raw_data_modules(38) / 8 / block_count(ErrorCorrectionLevel::Medium, 38) && 1 <= block_count(ErrorCorrectionLevel::Medium, 38) && 7 <= ecc_per_block(ErrorCorrectionLevel::Medium, 38) <= 30) by (nonlinear_arith)
            requires
                ecc_per_block(ErrorCorrectionLevel::Medium, 38) == 28,
                block_count(ErrorCorrectionLevel::Medium, 38) == 45,
                raw_data_modules(38) == 26896,
        ;
        assert(ecc_per_block(ErrorCorrectionLevel::Quartile, 38) == 30 && block_count(ErrorCorrectionLevel::Quartile, 38) == 62);
        assert(ecc_per_block(ErrorCorrectionLevel::Quartile, 38) * block_count(ErrorCorrectionLevel::Quartile, 38) < raw_data_modules(38) / 8 && ecc_per_block(ErrorCorrectionLevel::Quartile, 38) + 1 < raw_data_modules(38) / 8 / block_count(ErrorCorrectionLevel::Quartile, 38) && 1 <= block_count(ErrorCorrectionLevel::Quartile, 38) && 7 <= ecc_per_block(ErrorCorrectionLevel::Quartile, 38) <= 30) by (nonlinear_arith)
            requires
                ecc_per_block(ErrorCorrectionLevel::Quartile, 38) == 30,
                block_count(ErrorCorrectionLevel::Quartile, 38) == 62,
                raw_data_modules(38) == 26896,
        ;
        assert(ecc_per_block(ErrorCorrectionLevel::High, 38) == 30 && block_count(ErrorCorrectionLevel::High, 38) == 74);
        assert(ecc_per_block(ErrorCorrectionLevel::High, 38) * block_count(ErrorCorrectionLevel::High, 38) < raw_data_modules(38) / 8 && ecc_per_block(ErrorCorrectionLevel::High, 38) + 1 < raw_data_modules(38) / 8 / block_count(ErrorCorrectionLevel::High, 38) && 1 <= block_count(ErrorCorrectionLevel::High, 38) && 7 <= ecc_per_block(ErrorCorrectionLevel::High, 38) <= 30) by (nonlinear_arith)
            requires
                ecc_per_block(ErrorCorrectionLevel::High, 38) == 30,
                block_count(ErrorCorrectionLevel::High, 38) == 74,
                raw_data_modules(38) == 26896,
        ;

    } else if v == 39 {
        assert(raw_data_modules(39) == 28256) by (nonlinear_arith)
            requires
                alignment_count(39) == 7,
        ;
        assert(alignment_count(39) == 7);
        assert(ecc_per_block(ErrorCorrectionLevel::Low, 39) == 30 && block_count(ErrorCorrectionLevel::Low, 39) == 24);
        assert(ecc_per_block(ErrorCorrectionLevel::Low, 39) * block_count(ErrorCorrectionLevel::Low, 39) < raw_data_modules(39) / 8 && ecc_per_block(ErrorCorrectionLevel::Low, 39) + 1 < raw_data_modules(39) / 8 / block_count(ErrorCorrectionLevel::Low, 39) && 1 <= block_count(ErrorCorrectionLevel::Low, 39) && 7 <= ecc_per_block(ErrorCorrectionLevel::Low, 39) <= 30) by (nonlinear_arith)
            requires
                ecc_per_block(ErrorCorrectionLevel::Low, 39) == 30,
                block_count(ErrorCorrectionLevel::Low, 39) == 24,
                raw_data_modules(39) == 28256,
        ;
        assert(ecc_per_block(ErrorCorrectionLevel::Medium, 39) == 28 && block_count(ErrorCorrectionLevel::Medium, 39) == 47);
        assert(ecc_per_block(ErrorCorrectionLevel::Medium, 39) * block_count(ErrorCorrectionLevel::Medium, 39) < raw_data_modules(39) / 8 && ecc_per_block(ErrorCorrectionLevel::Medium, 39) + 1 < raw_data_modules(39) / 8 / block_count(ErrorCorrectionLevel::Medium, 39) && 1 <= block_count(ErrorCorrectionLevel::Medium, 39) && 7 <= ecc_per_block(ErrorCorrectionLevel::Medium, 39) <= 30) by (nonlinear_arith)
            requires
                ecc_per_block(ErrorCorrectionLevel::Medium, 39) == 28,
                block_count(ErrorCorrectionLevel::Medium, 39) == 47,
                raw_data_modules(39) == 28256,
        ;
        assert(ecc_per_block(ErrorCorrectionLevel::Quartile, 39) == 30 && block_count(ErrorCorrectionLevel::Quartile, 39) == 65);
        assert(ecc_per_block(ErrorCorrectionLevel::Quartile, 39) * block_count(ErrorCorrectionLevel::Quartile, 39) < raw_data_modules(39) / 8 && ecc_per_block(ErrorCorrectionLevel::Quartile, 39) + 1 < raw_data_modules(39) / 8 / block_count(ErrorCorrectionLevel::Quartile, 39) && 1 <= block_count(ErrorCorrectionLevel::Quartile, 39) && 7 <= ecc_per_block(ErrorCorrectionLevel::Quartile, 39) <= 30) by (nonlinear_arith)
            requires
                ecc_per_block(ErrorCorrectionLevel::Quartile, 39) == 30,
                block_count(ErrorCorrectionLevel::Quartile, 39) == 65,
                raw_data_modules(39) == 28256,
        ;
        assert(ecc_per_block(ErrorCorrectionLevel::High, 39) == 30 && block_count(ErrorCorrectionLevel::High, 39) == 77);
        assert(ecc_per_block(ErrorCorrectionLevel::High, 39) * block_count(ErrorCorrectionLevel::High, 39) < raw_data_modules(39) / 8 && ecc_per_block(ErrorCorrectionLevel::High, 39) + 1 < raw_data_modules(39) / 8 / block_count(ErrorCorrectionLevel::High, 39) && 1 <= block_count(ErrorCorrectionLevel::High, 39) && 7 <= ecc_per_block(ErrorCorrectionLevel::High, 39) <= 30) by (nonlinear_arith)
            requires
                ecc_per_block(ErrorCorrectionLevel::High, 39) == 30,
                block_count(ErrorCorrectionLevel::High, 39) == 77,
                raw_data_modules(39) == 28256,
        ;

    } else if v == 40 {
        assert(raw_data_modules(40) == 29648) by (nonlinear_arith)
            requires
                alignment_count(40) == 7,
        ;
        assert(alignment_count(40) == 7);
        assert(ecc_per_block(ErrorCorrectionLevel::Low, 40) == 30 && block_count(ErrorCorrectionLevel::Low, 40) == 25);
        assert(ecc_per_block(ErrorCorrectionLevel::Low, 40) * block_count(ErrorCorrectionLevel::Low, 40) < raw_data_modules(40) / 8 && ecc_per_block(ErrorCorrectionLevel::Low, 40) + 1 < raw_data_modules(40) / 8 / block_count(ErrorCorrectionLevel::Low, 40) && 1 <= block_count(ErrorCorrectionLevel::Low, 40) && 7 <= ecc_per_block(ErrorCorrectionLevel::Low, 40) <= 30) by (nonlinear_arith)
            requires
                ecc_per_block(ErrorCorrectionLevel::Low, 40) == 30,
                block_count(ErrorCorrectionLevel::Low, 40) == 25,
                raw_data_modules(40) == 29648,
        ;
        assert(ecc_per_block(ErrorCorrectionLevel::Medium, 40) == 28 && block_count(ErrorCorrectionLevel::Medium, 40) == 49);
        assert(ecc_per_block(ErrorCorrectionLevel::Medium, 40) * block_count(ErrorCorrectionLevel::Medium, 40) < raw_data_modules(40) / 8 && ecc_per_block(ErrorCorrectionLevel::Medium, 40) + 1 < raw_data_modules(40) / 8 / block_count(ErrorCorrectionLevel::Medium, 40) && 1 <= block_count(ErrorCorrectionLevel::Medium, 40) && 7 <= ecc_per_block(ErrorCorrectionLevel::Medium, 40) <= 30) by (nonlinear_arith)
            requires
                ecc_per_block(ErrorCorrectionLevel::Medium, 40) == 28,
                block_count(ErrorCorrectionLevel::Medium, 40) == 49,
                raw_data_modules(40) == 29648,
        ;
        assert(ecc_per_block(ErrorCorrectionLevel::Quartile, 40) == 30 && block_count(ErrorCorrectionLevel::Quartile, 40) == 68);
        assert(ecc_per_block(ErrorCorrectionLevel::Quartile, 40) * block_count(ErrorCorrectionLevel::Quartile, 40) < raw_data_modules(40) / 8 && ecc_per_block(ErrorCorrectionLevel::Quartile, 40) + 1 < raw_data_modules(40) / 8 / block_count(ErrorCorrectionLevel::Quartile, 40) && 1 <= block_count(ErrorCorrectionLevel::Quartile, 40) && 7 <= ecc_per_block(ErrorCorrectionLevel::Quartile, 40) <= 30) by (nonlinear_arith)
            requires
                ecc_per_block(ErrorCorrectionLevel::Quartile, 40) == 30,
                block_count(ErrorCorrectionLevel::Quartile, 40) == 68,
                raw_data_modules(40) == 29648,
        ;
        assert(ecc_per_block(ErrorCorrectionLevel::High, 40) == 30 && block_count(ErrorCorrectionLevel::High, 40) == 81);
        assert(ecc_per_block(ErrorCorrectionLevel::High, 40) * block_count(ErrorCorrectionLevel::High, 40) < raw_data_modules(40) / 8 && ecc_per_block(ErrorCorrectionLevel::High, 40) + 1 < raw_data_modules(40) / 8 / block_count(ErrorCorrectionLevel::High, 40) && 1 <= block_count(ErrorCorrectionLevel::High, 40) && 7 <= ecc_per_block(ErrorCorrectionLevel::High, 40) <= 30) by (nonlinear_arith)
            requires
                ecc_per_block(ErrorCorrectionLevel::High, 40) == 30,
                block_count(ErrorCorrectionLevel::High, 40) == 81,
                raw_data_modules(40) == 29648,
        ;

    }
}

/// The alignment coordinates of a version ascend from 6 to size - 7 with gaps of at least 12.
pub proof fn lemma_alignment_positions(version: nat)
    requires
        1 <= version <= 40,
    ensures
        alignment_positions(version).len() <= 7,
        version >= 2 ==> alignment_positions(version).len() >= 2,
        forall|i: int|
            0 <= i < alignment_positions(version).len() ==> 6 <= #[trigger] alignment_positions(
                version,
            )[i] <= version * 4 + 10,
        forall|i: int, j: int|
            0 <= i < j < alignment_positions(version).len() ==> alignment_positions(version)[i] + 12
                <= alignment_positions(version)[j],
        version >= 2 ==> alignment_positions(version)[alignment_positions(version).len() - 1] == version * 4 + 10,
        version >= 2 ==> alignment_positions(version)[0] == 6,
{
    if version >= 2 {
        lemma_alignment_fits(version);
        let p = alignment_positions(version);
        let count = alignment_count(version);
        let step = alignment_step(version);
        let last = version * 4 + 10;
        assert forall|i: int| 1 <= i < count implies (#[trigger] p[i]) as int == last - (count - 1 - i) * step by {
            assert((count - 1 - i) * step <= (count - 2) * step) by (nonlinear_arith)
                requires
                    1 <= i < count,
                    step >= 0,
            ;
            assert(last - (count - 1 - i) * step >= 18);
        }
        assert forall|i: int, j: int| 0 <= i < j < count implies p[i] + 12 <= p[j] by {
            if i == 0 {
                assert((count - 1 - j) * step <= (count - 2) * step) by (nonlinear_arith)
                    requires
                        1 <= j < count,
                        step >= 0,
                ;
            } else {
                assert((count - 1 - i) * step >= (count - 1 - j) * step + step) by (nonlinear_arith)
                    requires
                        i < j,
                        step >= 0,
                ;
            }
        }
        assert forall|i: int| 0 <= i < count implies 6 <= #[trigger] p[i] <= last by {
            if i >= 1 {
                assert((count - 1 - i) * step <= (count - 2) * step) by (nonlinear_arith)
                    requires
                        1 <= i < count,
                        step >= 0,
                ;
                assert((count - 1 - i) * step >= 0) by (nonlinear_arith)
                    requires
                        i < count,
                        step >= 0,
                ;
            }
        }
    }
}

/// Modules available for data and error correction in a version.
pub fn num_raw_data_modules(version: Version) -> (r: usize)
    ensures
        r == raw_data_modules(version@ as nat),
        208 <= r <= 29648,
{
    let version = version.value() as usize;
    proof {
        lemma_raw_bounds(version as nat);
        assert((16 * version + 128) * version + 64 <= 30784) by (nonlinear_arith)
            requires
                version <= 40,
        ;
    }
    let mut result = (16 * version + 128) * version + 64;
    if version >= 2 {
        let alignment_count = version / 7 + 2;
        proof {
            assert((25 * alignment_count - 10) * alignment_count <= 2000) by (nonlinear_arith)
                requires
                    alignment_count <= 7,
                    alignment_count >= 2,
            ;
            assert((25 * alignment_count - 10) * alignment_count >= 80) by (nonlinear_arith)
                requires
                    alignment_count >= 2,
            ;
        }
        result = result - ((25 * alignment_count - 10) * alignment_count - 55);
        if version >= 7 {
            result = result - 36;
        }
    }
    result
}

/// Data codewords of a version at an error correction level.
pub fn num_data_codewords(version: Version, ecc: ErrorCorrectionLevel) -> (r: usize)
    ensures
        r == data_codewords(version@ as nat, ecc),
        1 <= r < 3707,
{
    let raw = num_raw_data_modules(version);
    let v = version.value() as usize;
    proof {
        lemma_tables(ecc, v as nat);
    }
    raw / 8 - (ECC_CODEWORDS_PER_BLOCK[ecc.ordinal()][v] as usize) * (NUM_ERROR_CORRECTION_BLOCKS[ecc.ordinal()][v] as usize)
}

/// The alignment pattern coordinates of a version.
pub fn alignment_pattern_positions(version: Version) -> (r: AlignmentPositions)
    ensures
        position_items(r) == alignment_positions(version@ as nat),
{
    let version = version.value() as usize;
    let mut result = positions_new();
    if version == 1 {
        proof {
            assert(position_items(result) =~= alignment_positions(version as nat));
        }
        return result;
    }
    let alignment_count = version / 7 + 2;
    proof {
        lemma_alignment_fits(version as nat);
    }
    let step = if version == 32 {
        26
    } else {
        ((version * 4 + alignment_count * 2 + 1) / (alignment_count * 2 - 2)) * 2
    };
    let size = version * 4 + 17;
    let last = size - 7;
    let ghost target = alignment_positions(version as nat);
    proof {
        assert(step == alignment_step(version as nat));
    }
    positions_push(&mut result, 6);
    let mut index: usize = 1;
    while index < alignment_count - 1
        invariant
            2 <= version <= 40,
            alignment_count == crate::tables::alignment_count(version as nat),
            step == alignment_step(version as nat),
            last == version * 4 + 10,
            (alignment_count - 2) * step + 6 <= last <= 255,
            target == alignment_positions(version as nat),
            1 <= index <= alignment_count - 1,
            position_items(result) =~= target.subrange(0, index as int),
        decreases alignment_count - index,
    {
        proof {
            assert((alignment_count - 1 - index) * step <= (alignment_count - 2) * step) by (nonlinear_arith)
                requires
                    index >= 1,
                    index < alignment_count - 1,
            ;
        }
        let offset = (alignment_count - 1 - index) * step;
        proof {
            assert(offset <= (alignment_count - 2) * step) by (nonlinear_arith)
                requires
                    offset == (alignment_count - 1 - index) * step,
                    index >= 1,
                    index < alignment_count - 1,
            ;
        }
        positions_push(&mut result, (last - offset) as u8);
        index = index + 1;
    }
    positions_push(&mut result, last as u8);
    proof {
        assert(target.len() == alignment_count);
        assert((alignment_count - 1 - (alignment_count - 1)) * step == 0);
        assert(target[alignment_count - 1] == last as u8);
        assert(position_items(result) =~= target);
    }
    result
}

/// Payload bits of `data_len` characters in a mode.
pub fn payload_bit_len(mode: DataMode, data_len: usize) -> (r: usize)
    requires
        payload_bits_len(mode, data_len as nat) <= usize::MAX,
    ensures
        r == payload_bits_len(mode, data_len as nat),
{
    match mode {
        DataMode::Numeric => {
            let groups = data_len / 3;
            let rem = data_len % 3;
            groups * 10 + if rem == 0 {
                0
            } else if rem == 1 {
                4
            } else {
                7
            }
        },
        DataMode::Alphanumeric => (data_len / 2) * 11 + if (data_len & 1) == 1 {
            proof {
                assert((data_len & 1) == 1 ==> data_len % 2 == 1) by (bit_vector);
            }
            6
        } else {
            proof {
                assert((data_len & 1) != 1 ==> data_len % 2 == 0) by (bit_vector);
            }
            0
        },
        DataMode::Byte => data_len * 8,
    }
}

/// Bits of a whole segment: mode indicator, character count and payload.
pub fn total_bit_len(version: Version, mode: DataMode, data_len: usize) -> (r: usize)
    requires
        segment_bits_len(version@, mode, data_len as nat) <= usize::MAX,
    ensures
        r == segment_bits_len(version@, mode, data_len as nat),
{
    4 + mode.char_count_bits(version) as usize + payload_bit_len(mode, data_len)
}

} // verus!
