//! What reading a finished symbol gives back of what encoding put into it: the format
//! information, the codeword bits placed in the free cells, and the data of the segment.

use vstd::prelude::*;

use crate::bit_grid::BitGrid;
use crate::cell_count::lemma_free_cells_count;
use crate::blocks::{interleaved, lemma_interleave_roundtrip, lemma_shape, raw_cw};
use crate::decode::{
    best_candidate, blocks_outcome, candidate_distance, candidate_level, codewords_read, decode_outcome, differing_bits, format_source,
    hamming, is_qr_size, read_format, size_version,
};
use crate::encode::{
    chosen_level, codeword_bit, encode_result, encoded_as, first_fit, fits, format_info_word, format_rem, format_step, function_grid,
    function_grid_of, lemma_boosted_fits, lemma_first_fit, mask_chosen, symbol, symbol_cell, unmasked_cell,
};
use crate::layout::{
    bit16, format_cell, format_first_x, format_first_y, format_second_x, format_second_y, free_before, is_function, lemma_zig_cell,
    mask_flips, zig_index, zig_len, zig_x, zig_y,
};
use crate::bit_buffer::{bits_of, bits_of_bytes, byte_bit, lemma_bits_of_zero, lemma_two_pow_monotone, two_pow};
use crate::error::QrError;
use crate::penalty::pack_bits;
use crate::payload::{
    alnum_char, alphanumeric_decoded, indicator_mode, alphanumeric_pairs, bytes_decoded, digit_char, numeric_decoded, numeric_groups, segment_decoded,
    segment_span, segment_step, segments, Step,
};
use crate::segment::{
    digit, digits_value, is_digit, alnum, group_bits, group_count, group_len, group_size, groups_bits, lemma_groups_len, lemma_payload_len, padded_bits, payload_bits,
    segment_bits, valid_for,
};
use crate::tables::{alnum_value, data_codewords, lemma_alphanumeric_roundtrip, lemma_tables, payload_bits_len, raw_data_modules, segment_bits_len};
use crate::text::compact_chars;
use crate::types::{
    count_bits, ecc_format_bits, ecc_ordinal, mode_indicator, version_size, DataMode, DecodedQr, EncodeOptions, ErrorCorrectionLevel, QrCode,
    Version,
};
use vstd::utf8::{decode_utf8, valid_utf8};

verus! {

/// The format word of candidate `c`: level `c / 8` (L, M, Q, H), mask `c % 8`.
pub open spec fn candidate_word(c: int) -> u16 {
    format_info_word(ecc_format_bits(candidate_level(c)), (c % 8) as u8)
}

/// The candidate whose format word is `w`, or -1.
spec fn word_index(w: u16) -> int {
    if w == 0x77C4u16 {
        0
    } else if w == 0x72F3u16 {
        1
    } else if w == 0x7DAAu16 {
        2
    } else if w == 0x789Du16 {
        3
    } else if w == 0x662Fu16 {
        4
    } else if w == 0x6318u16 {
        5
    } else if w == 0x6C41u16 {
        6
    } else if w == 0x6976u16 {
        7
    } else if w == 0x5412u16 {
        8
    } else if w == 0x5125u16 {
        9
    } else if w == 0x5E7Cu16 {
        10
    } else if w == 0x5B4Bu16 {
        11
    } else if w == 0x45F9u16 {
        12
    } else if w == 0x40CEu16 {
        13
    } else if w == 0x4F97u16 {
        14
    } else if w == 0x4AA0u16 {
        15
    } else if w == 0x355Fu16 {
        16
    } else if w == 0x3068u16 {
        17
    } else if w == 0x3F31u16 {
        18
    } else if w == 0x3A06u16 {
        19
    } else if w == 0x24B4u16 {
        20
    } else if w == 0x2183u16 {
        21
    } else if w == 0x2EDAu16 {
        22
    } else if w == 0x2BEDu16 {
        23
    } else if w == 0x1689u16 {
        24
    } else if w == 0x13BEu16 {
        25
    } else if w == 0x1CE7u16 {
        26
    } else if w == 0x19D0u16 {
        27
    } else if w == 0x0762u16 {
        28
    } else if w == 0x0255u16 {
        29
    } else if w == 0x0D0Cu16 {
        30
    } else if w == 0x083Bu16 {
        31
    } else {
        -1
    }
}

/// The thirty-two format words.
proof fn lemma_format_words()
    by (bit_vector)
    ensures
        format_info_word(1, 0) == 0x77C4u16,
        format_info_word(1, 1) == 0x72F3u16,
        format_info_word(1, 2) == 0x7DAAu16,
        format_info_word(1, 3) == 0x789Du16,
        format_info_word(1, 4) == 0x662Fu16,
        format_info_word(1, 5) == 0x6318u16,
        format_info_word(1, 6) == 0x6C41u16,
        format_info_word(1, 7) == 0x6976u16,
        format_info_word(0, 0) == 0x5412u16,
        format_info_word(0, 1) == 0x5125u16,
        format_info_word(0, 2) == 0x5E7Cu16,
        format_info_word(0, 3) == 0x5B4Bu16,
        format_info_word(0, 4) == 0x45F9u16,
        format_info_word(0, 5) == 0x40CEu16,
        format_info_word(0, 6) == 0x4F97u16,
        format_info_word(0, 7) == 0x4AA0u16,
        format_info_word(3, 0) == 0x355Fu16,
        format_info_word(3, 1) == 0x3068u16,
        format_info_word(3, 2) == 0x3F31u16,
        format_info_word(3, 3) == 0x3A06u16,
        format_info_word(3, 4) == 0x24B4u16,
        format_info_word(3, 5) == 0x2183u16,
        format_info_word(3, 6) == 0x2EDAu16,
        format_info_word(3, 7) == 0x2BEDu16,
        format_info_word(2, 0) == 0x1689u16,
        format_info_word(2, 1) == 0x13BEu16,
        format_info_word(2, 2) == 0x1CE7u16,
        format_info_word(2, 3) == 0x19D0u16,
        format_info_word(2, 4) == 0x0762u16,
        format_info_word(2, 5) == 0x0255u16,
        format_info_word(2, 6) == 0x0D0Cu16,
        format_info_word(2, 7) == 0x083Bu16,
{
}

/// Each candidate's word has fifteen bits and names that candidate alone.
proof fn lemma_candidate_word(c: int)
    requires
        0 <= c < 32,
    ensures
        word_index(candidate_word(c)) == c,
        candidate_word(c) < 0x8000u16,
{
    lemma_format_words();
    // One case per candidate, so that each reads its word off the table.
    if c == 0 {
    } else if c == 1 {
    } else if c == 2 {
    } else if c == 3 {
    } else if c == 4 {
    } else if c == 5 {
    } else if c == 6 {
    } else if c == 7 {
    } else if c == 8 {
    } else if c == 9 {
    } else if c == 10 {
    } else if c == 11 {
    } else if c == 12 {
    } else if c == 13 {
    } else if c == 14 {
    } else if c == 15 {
    } else if c == 16 {
    } else if c == 17 {
    } else if c == 18 {
    } else if c == 19 {
    } else if c == 20 {
    } else if c == 21 {
    } else if c == 22 {
    } else if c == 23 {
    } else if c == 24 {
    } else if c == 25 {
    } else if c == 26 {
    } else if c == 27 {
    } else if c == 28 {
    } else if c == 29 {
    } else if c == 30 {
    } else if c == 31 {
    }
}

/// A word differs from itself nowhere.
proof fn lemma_differing_self(a: u16, k: int)
    ensures
        differing_bits(a, a, k) == 0,
    decreases k,
{
    if k > 0 {
        lemma_differing_self(a, k - 1);
    }
}

/// Where no bit differs, every bit agrees.
proof fn lemma_differing_none(a: u16, b: u16, k: int)
    requires
        differing_bits(a, b, k) == 0,
    ensures
        forall|i: int| 0 <= i < k ==> #[trigger] bit16(a, i) == bit16(b, i),
    decreases k,
{
    if k > 0 {
        lemma_differing_none(a, b, k - 1);
    }
}

/// Words that agree in all sixteen bits are equal.
proof fn lemma_bits_agree(a: u16, b: u16)
    by (bit_vector)
    requires
        ((a >> 0u16) & 1u16 != 0u16) == ((b >> 0u16) & 1u16 != 0u16),
        ((a >> 1u16) & 1u16 != 0u16) == ((b >> 1u16) & 1u16 != 0u16),
        ((a >> 2u16) & 1u16 != 0u16) == ((b >> 2u16) & 1u16 != 0u16),
        ((a >> 3u16) & 1u16 != 0u16) == ((b >> 3u16) & 1u16 != 0u16),
        ((a >> 4u16) & 1u16 != 0u16) == ((b >> 4u16) & 1u16 != 0u16),
        ((a >> 5u16) & 1u16 != 0u16) == ((b >> 5u16) & 1u16 != 0u16),
        ((a >> 6u16) & 1u16 != 0u16) == ((b >> 6u16) & 1u16 != 0u16),
        ((a >> 7u16) & 1u16 != 0u16) == ((b >> 7u16) & 1u16 != 0u16),
        ((a >> 8u16) & 1u16 != 0u16) == ((b >> 8u16) & 1u16 != 0u16),
        ((a >> 9u16) & 1u16 != 0u16) == ((b >> 9u16) & 1u16 != 0u16),
        ((a >> 10u16) & 1u16 != 0u16) == ((b >> 10u16) & 1u16 != 0u16),
        ((a >> 11u16) & 1u16 != 0u16) == ((b >> 11u16) & 1u16 != 0u16),
        ((a >> 12u16) & 1u16 != 0u16) == ((b >> 12u16) & 1u16 != 0u16),
        ((a >> 13u16) & 1u16 != 0u16) == ((b >> 13u16) & 1u16 != 0u16),
        ((a >> 14u16) & 1u16 != 0u16) == ((b >> 14u16) & 1u16 != 0u16),
        ((a >> 15u16) & 1u16 != 0u16) == ((b >> 15u16) & 1u16 != 0u16),
    ensures
        a == b,
{
}

/// Words at Hamming distance zero are equal.
proof fn lemma_hamming_zero(a: u16, b: u16)
    requires
        hamming(a, b) == 0,
    ensures
        a == b,
{
    lemma_differing_none(a, b, 16);
    assert forall|i: int| 0 <= i < 16 implies #[trigger] bit16(a, i) == bit16(b, i) by {}
    assert(bit16(a, 0) == bit16(b, 0));
    assert(bit16(a, 1) == bit16(b, 1));
    assert(bit16(a, 2) == bit16(b, 2));
    assert(bit16(a, 3) == bit16(b, 3));
    assert(bit16(a, 4) == bit16(b, 4));
    assert(bit16(a, 5) == bit16(b, 5));
    assert(bit16(a, 6) == bit16(b, 6));
    assert(bit16(a, 7) == bit16(b, 7));
    assert(bit16(a, 8) == bit16(b, 8));
    assert(bit16(a, 9) == bit16(b, 9));
    assert(bit16(a, 10) == bit16(b, 10));
    assert(bit16(a, 11) == bit16(b, 11));
    assert(bit16(a, 12) == bit16(b, 12));
    assert(bit16(a, 13) == bit16(b, 13));
    assert(bit16(a, 14) == bit16(b, 14));
    assert(bit16(a, 15) == bit16(b, 15));
    lemma_bits_agree(a, b);
}

/// Reading candidate `c`'s word twice, the search over the first `k` candidates has found
/// nothing at distance zero while `k <= c`, and finds exactly `c` once past it.
proof fn lemma_best_is_own(c: int, k: int)
    requires
        0 <= c < 32,
        0 <= k <= 32,
    ensures
        k <= c ==> best_candidate(candidate_word(c), candidate_word(c), k).1 > 0,
        k > c ==> best_candidate(candidate_word(c), candidate_word(c), k) == (c, 0nat),
    decreases k,
{
    let w = candidate_word(c);
    if k > 0 {
        lemma_best_is_own(c, k - 1);
        lemma_candidate_word(c);
        lemma_candidate_word(k - 1);
        if k - 1 == c {
            lemma_differing_self(w, 16);
        } else if hamming(w, candidate_word(k - 1)) == 0 {
            lemma_hamming_zero(w, candidate_word(k - 1));
        }
        assert(candidate_distance(w, w, k - 1) == hamming(w, candidate_word(k - 1)));
    }
}

/// The low `k` bits of a word.
pub open spec fn low_bits(w: u16, k: int) -> u16 {
    w & (((1u16 << (k as u16)) - 1u16) as u16)
}

/// Bit arithmetic of the low bits: none below bit zero, one more bit at a time, and all of a
/// fifteen-bit word below bit fifteen.
proof fn lemma_low_bits(w: u16, k: u16)
    by (bit_vector)
    ensures
        w & (((1u16 << 0u16) - 1u16) as u16) == 0u16,
        k < 15 && (w >> k) & 1u16 != 0u16 ==> (w & (((1u16 << k) - 1u16) as u16)) | (1u16 << k) == w & (((1u16 << ((k + 1) as u16)) - 1u16) as u16),
        k < 15 && (w >> k) & 1u16 == 0u16 ==> w & (((1u16 << k) - 1u16) as u16) == w & (((1u16 << ((k + 1) as u16)) - 1u16) as u16),
        w < 0x8000u16 ==> w & (((1u16 << 15u16) - 1u16) as u16) == w,
{
}

/// A copy whose first `k` cells show the bits of `w` reads as the low `k` bits of `w`.
proof fn lemma_read_format(g: Seq<Seq<bool>>, size: int, second: bool, w: u16, k: int)
    requires
        0 <= k <= 15,
        forall|i: int| 0 <= i < k ==> #[trigger] format_source(g, size, second, i) == bit16(w, i),
    ensures
        read_format(g, size, second, k) == low_bits(w, k),
    decreases k,
{
    lemma_low_bits(w, 0);
    if k > 0 {
        lemma_read_format(g, size, second, w, k - 1);
        lemma_low_bits(w, (k - 1) as u16);
        assert(format_source(g, size, second, k - 1) == bit16(w, k - 1));
        assert(((k - 1) as u16 + 1) as u16 == k as u16);
    }
}

/// Both copies of the format information in a finished symbol show its format word.
proof fn lemma_symbol_format_cells(v: nat, ecc_bits: u8, mask: u8, codewords: Seq<u8>)
    requires
        1 <= v <= 40,
    ensures
        forall|i: int| 0 <= i < 15 ==> #[trigger] format_source(symbol(v, ecc_bits, mask, codewords), (v * 4 + 17) as int, false, i)
            == bit16(format_info_word(ecc_bits, mask), i),
        forall|i: int| 0 <= i < 15 ==> #[trigger] format_source(symbol(v, ecc_bits, mask, codewords), (v * 4 + 17) as int, true, i)
            == bit16(format_info_word(ecc_bits, mask), i),
{
    let size = (v * 4 + 17) as int;
    let g = symbol(v, ecc_bits, mask, codewords);
    assert forall|i: int| 0 <= i < 15 implies #[trigger] format_source(g, size, false, i) == bit16(format_info_word(ecc_bits, mask), i) by {
        let x = format_first_x(i);
        let y = format_first_y(i);
        assert(format_cell(size, x, y) == i);
        assert(g[y][x] == symbol_cell(v, ecc_bits, mask, codewords, x, y));
    }
    assert forall|i: int| 0 <= i < 15 implies #[trigger] format_source(g, size, true, i) == bit16(format_info_word(ecc_bits, mask), i) by {
        let x = format_second_x(size, i);
        let y = format_second_y(size, i);
        assert(format_cell(size, x, y) == i);
        assert(g[y][x] == symbol_cell(v, ecc_bits, mask, codewords, x, y));
    }
}

/// Reading the format information back from a finished symbol gives its level and mask: both
/// copies read as its format word, and the nearest of the thirty-two candidates is its own,
/// at distance zero.
pub proof fn lemma_format_read_back(v: nat, ecc: ErrorCorrectionLevel, mask: u8, codewords: Seq<u8>)
    requires
        1 <= v <= 40,
        mask < 8,
    ensures
        ({
            let g = symbol(v, ecc_format_bits(ecc), mask, codewords);
            let size = (v * 4 + 17) as int;
            let c = (ecc_ordinal(ecc) * 8 + mask) as int;
            &&& read_format(g, size, false, 15) == format_info_word(ecc_format_bits(ecc), mask)
            &&& read_format(g, size, true, 15) == format_info_word(ecc_format_bits(ecc), mask)
            &&& best_candidate(read_format(g, size, false, 15), read_format(g, size, true, 15), 32) == (c, 0nat)
            &&& candidate_level(c) == ecc
            &&& c % 8 == mask
        }),
{
    let g = symbol(v, ecc_format_bits(ecc), mask, codewords);
    let size = (v * 4 + 17) as int;
    let c = (ecc_ordinal(ecc) * 8 + mask) as int;
    let w = format_info_word(ecc_format_bits(ecc), mask);
    assert(candidate_level(c) == ecc);
    assert(c % 8 == mask);
    assert(candidate_word(c) == w);
    lemma_candidate_word(c);
    lemma_symbol_format_cells(v, ecc_format_bits(ecc), mask, codewords);
    lemma_read_format(g, size, false, w, 15);
    lemma_read_format(g, size, true, w, 15);
    lemma_low_bits(w, 0);
    lemma_best_is_own(c, 32);
}

/// Number of free cells of version `v`: the cells of the zigzag walk outside the function
/// patterns, where the codeword bits go.
pub open spec fn free_cells(v: nat) -> nat {
    let size = (v * 4 + 17) as int;
    free_before(function_grid(v), size, zig_len(size))
}

/// Counts the free cells of a version by walking the zigzag path over its function grid.
pub fn free_cell_count(version: Version) -> (r: usize)
    ensures
        r == free_cells(version@ as nat),
{
    let grid = function_grid_of(version);
    let ghost taken = function_grid(version@ as nat);
    let size = grid.size();
    let _ = version.value();
    proof {
        grid.lemma_shape();
    }
    assert(size >= 21 && size <= 177 && size % 2 == 1);
    assert((size - 1) * size <= 177 * 177) by (nonlinear_arith)
        requires
            21 <= size <= 177,
    ;
    let total = (size - 1) * size;
    let pair = 2 * size;
    let mut count: usize = 0;
    let mut t: usize = 0;
    while t < total
        invariant
            grid.wf(),
            grid@ == taken,
            size == grid.spec_size(),
            21 <= size <= 177,
            size % 2 == 1,
            total == zig_len(size as int),
            pair == 2 * size,
            t <= total,
            count == free_before(taken, size as int, t as int),
            count <= t,
        decreases total - t,
    {
        proof {
            lemma_zig_cell(size as int, t as int);
        }
        let c = t / pair;
        let within = t % pair;
        let right = if size - 1 - 2 * c > 6 {
            size - 1 - 2 * c
        } else {
            size - 2 - 2 * c
        };
        let x = right - within % 2;
        let vertical = within / 2;
        let y = if ((right + 1) / 2) % 2 == 0 {
            size - 1 - vertical
        } else {
            vertical
        };
        assert(x == zig_x(size as int, t as int));
        assert(y == zig_y(size as int, t as int));
        if !grid.get(x, y) {
            count = count + 1;
        }
        t = t + 1;
    }
    count
}

/// Each count below the number of free cells among the first `t` steps of the walk is the
/// count before some free cell among them.
proof fn lemma_free_reached(taken: Seq<Seq<bool>>, size: int, t: int, k: int) -> (u: int)
    requires
        0 <= k < free_before(taken, size, t),
    ensures
        0 <= u < t,
        !taken[zig_y(size, u)][zig_x(size, u)],
        free_before(taken, size, u) == k,
    decreases t,
{
    if k < free_before(taken, size, t - 1) {
        lemma_free_reached(taken, size, t - 1, k)
    } else {
        t - 1
    }
}

/// The codewords read from a finished symbol are those placed in it, bit for bit, as far as
/// its free cells reach; the bits beyond are read as clear.
pub proof fn lemma_codewords_read_back(v: nat, ecc_bits: u8, mask: u8, placed: Seq<u8>, read: Seq<u8>)
    requires
        1 <= v <= 40,
        codewords_read(symbol(v, ecc_bits, mask, placed), v, mask, read),
    ensures
        forall|k: int|
            0 <= k < read.len() * 8 ==> #[trigger] codeword_bit(read, k) == (k < free_cells(v) && k < placed.len() * 8
                && codeword_bit(placed, k)),
{
    let size = (v * 4 + 17) as int;
    let taken = function_grid(v);
    let g = symbol(v, ecc_bits, mask, placed);
    assert forall|k: int|
        0 <= k < read.len() * 8 implies #[trigger] codeword_bit(read, k) == (k < free_cells(v) && k < placed.len() * 8
            && codeword_bit(placed, k)) by {
        if k < free_cells(v) {
            let u = lemma_free_reached(taken, size, zig_len(size), k);
            lemma_zig_cell(size, u);
            let x = zig_x(size, u);
            let y = zig_y(size, u);
            assert(taken[y][x] == is_function(v, x, y));
            assert(!is_function(v, x, y));
            assert(format_cell(size, x, y) < 0);
            assert(g[y][x] == symbol_cell(v, ecc_bits, mask, placed, x, y));
            assert(free_before(taken, size, zig_index(size, x, y)) == k);
            assert(unmasked_cell(v, placed, x, y) == (k < placed.len() * 8 && codeword_bit(placed, k)));
            assert(codeword_bit(read, free_before(taken, size, zig_index(size, x, y)) as int) == (g[y][x] != mask_flips(mask, x, y)));
        }
    }
}

/// Halving a word shifts its bits down by one.
proof fn lemma_halve_bits(value: u32, k: u32)
    by (bit_vector)
    requires
        k < 31,
    ensures
        value >> ((k + 1) as u32) == (value / 2) >> k,
        value == (value / 2) * 2 + (value & 1u32),
        (value & 1u32 != 0u32) == ((value >> 0u32) & 1u32 != 0u32),
        value & 1u32 == 0u32 || value & 1u32 == 1u32,
{
}

/// The `w` cells from `p` that show the `w` bits of `value` read back as `value`.
proof fn lemma_pack_bits_of(s: Seq<bool>, p: int, value: u32, w: nat)
    requires
        0 <= p,
        p + w <= s.len(),
        w <= 31,
        value < two_pow(w),
        forall|i: int| 0 <= i < w ==> #[trigger] s[p + i] == bits_of(value, w)[i],
    ensures
        pack_bits(s, p, w) == value,
    decreases w,
{
    if w == 0 {
        assert(value == 0);
    } else {
        let half = value / 2;
        assert forall|i: int| 0 <= i < w - 1 implies #[trigger] s[p + i] == bits_of(half, (w - 1) as nat)[i] by {
            assert(s[p + i] == bits_of(value, w)[i]);
            lemma_halve_bits(value, (w - 2 - i) as u32);
            assert((w - 1 - i) as u32 == ((w - 2 - i) as u32 + 1) as u32);
        }
        lemma_pack_bits_of(s, p, half, (w - 1) as nat);
        lemma_halve_bits(value, 0);
        assert(s[p + (w - 1)] == bits_of(value, w)[w - 1]);
        assert((w - 1 - (w - 1)) as u32 == 0u32);
    }
}

/// The first `j` payload groups are a prefix of the first `k`.
proof fn lemma_groups_prefix(mode: DataMode, data: Seq<u8>, j: int, k: int)
    requires
        0 <= j <= k,
    ensures
        groups_bits(mode, data, j).len() <= groups_bits(mode, data, k).len(),
        forall|i: int| 0 <= i < groups_bits(mode, data, j).len() ==> #[trigger] groups_bits(mode, data, k)[i] == groups_bits(mode, data, j)[i],
    decreases k - j,
{
    if j < k {
        lemma_groups_prefix(mode, data, j, k - 1);
    }
}

/// The padded segment starts with the segment.
proof fn lemma_padded_prefix(bits: Seq<bool>, capacity: nat)
    requires
        bits.len() <= capacity,
    ensures
        padded_bits(bits, capacity).len() >= bits.len() + if capacity - bits.len() < 4 { (capacity - bits.len()) as nat } else { 4nat },
        forall|i: int| 0 <= i < bits.len() ==> #[trigger] padded_bits(bits, capacity)[i] == bits[i],
        forall|i: int|
            bits.len() <= i < bits.len() + (if capacity - bits.len() < 4 { (capacity - bits.len()) as nat } else { 4nat })
                ==> !#[trigger] padded_bits(bits, capacity)[i],
{
}

/// Where group `j` of the payload lies in the padded segment: after the four mode bits, the
/// count bits and the groups before it.
proof fn lemma_group_cells(version: u8, mode: DataMode, data: Seq<u8>, capacity: nat, j: int)
    requires
        segment_bits(version, mode, data).len() <= capacity,
        0 <= j < group_count(mode, data.len()),
    ensures
        ({
            let b = padded_bits(segment_bits(version, mode, data), capacity);
            let start = 4 + count_bits(mode, version) + groups_bits(mode, data, j).len();
            &&& start + group_bits(mode, data, j).len() <= segment_bits(version, mode, data).len()
            &&& forall|i: int| 0 <= i < group_bits(mode, data, j).len() ==> #[trigger] b[start + i] == group_bits(mode, data, j)[i]
        }),
{
    let s = segment_bits(version, mode, data);
    let b = padded_bits(s, capacity);
    let header = 4 + count_bits(mode, version);
    let count = group_count(mode, data.len());
    let payload = payload_bits(mode, data);
    lemma_padded_prefix(s, capacity);
    lemma_groups_prefix(mode, data, j + 1, count);
    let before = groups_bits(mode, data, j);
    let group = group_bits(mode, data, j);
    assert(groups_bits(mode, data, j + 1) == before + group);
    assert(s == bits_of(mode_indicator(mode) as u32, 4) + bits_of(data.len() as u32, count_bits(mode, version) as nat) + payload);
    assert forall|i: int| 0 <= i < group.len() implies #[trigger] b[header + before.len() + i] == group[i] by {
        assert(groups_bits(mode, data, j + 1)[before.len() + i] == group[i]);
        assert(payload[before.len() + i] == group[i]);
        assert(s[header + before.len() + i] == payload[before.len() + i]);
    }
}

/// Splitting a three-digit value into its digits.
proof fn lemma_three_digits(d0: int, d1: int, d2: int)
    by (nonlinear_arith)
    requires
        0 <= d0 <= 9,
        0 <= d1 <= 9,
        0 <= d2 <= 9,
    ensures
        (d0 * 100 + d1 * 10 + d2) / 100 == d0,
        ((d0 * 100 + d1 * 10 + d2) / 10) % 10 == d1,
        (d0 * 100 + d1 * 10 + d2) % 10 == d2,
        d0 * 100 + d1 * 10 + d2 < 1000,
        (d0 * 10 + d1) / 10 == d0,
        (d0 * 10 + d1) % 10 == d1,
        d0 * 10 + d1 < 100,
{
}

/// The full groups of a numeric segment, from group `j` on, read back as their digits.
proof fn lemma_numeric_groups_back(version: u8, data: Seq<u8>, capacity: nat, j: int)
    requires
        segment_bits(version, DataMode::Numeric, data).len() <= capacity,
        valid_for(DataMode::Numeric, data),
        0 <= j <= data.len() / 3,
    ensures
        numeric_groups(
            padded_bits(segment_bits(version, DataMode::Numeric, data), capacity),
            4 + count_bits(DataMode::Numeric, version) + 10 * j,
            data.len() / 3 - j,
        ) == Ok::<Seq<u8>, QrError>(data.subrange(3 * j, 3 * (data.len() / 3) as int)),
    decreases data.len() / 3 - j,
{
    let b = padded_bits(segment_bits(version, DataMode::Numeric, data), capacity);
    let full = (data.len() / 3) as int;
    let pos = 4 + count_bits(DataMode::Numeric, version) + 10 * j;
    if j < full {
        lemma_numeric_groups_back(version, data, capacity, j + 1);
        lemma_groups_len(DataMode::Numeric, data, j);
        assert((j * 3) / 3 == j);
        assert((j * 3) % 3 == 0);
        assert(groups_bits(DataMode::Numeric, data, j).len() == 10 * j);
        assert(group_size(DataMode::Numeric, data.len(), j) == 3);
        assert(group_count(DataMode::Numeric, data.len()) == (data.len() + 2) / 3);
        assert((data.len() + 2) / 3 >= full);
        lemma_group_cells(version, DataMode::Numeric, data, capacity, j);
        let d0 = data[3 * j] - 48;
        let d1 = data[3 * j + 1] - 48;
        let d2 = data[3 * j + 2] - 48;
        assert(is_digit(data[3 * j]) && is_digit(data[3 * j + 1]) && is_digit(data[3 * j + 2]));
        lemma_three_digits(d0, d1, d2);
        let value = digits_value(data, 3 * j, 3);
        assert(value == d0 * 100 + d1 * 10 + d2);
        reveal_with_fuel(two_pow, 11);
        lemma_pack_bits_of(b, pos, value, 10);
        let rest = data.subrange(3 * j + 3, 3 * full);
        assert(seq![digit_char(d0), digit_char(d1), digit_char(d2)] + rest =~= data.subrange(3 * j, 3 * full));
    } else {
        assert(data.subrange(3 * j, 3 * full) =~= Seq::<u8>::empty());
    }
}

/// A numeric segment reads back as its digits.
proof fn lemma_numeric_back(version: u8, data: Seq<u8>, capacity: nat)
    requires
        segment_bits(version, DataMode::Numeric, data).len() <= capacity,
        valid_for(DataMode::Numeric, data),
    ensures
        numeric_decoded(
            padded_bits(segment_bits(version, DataMode::Numeric, data), capacity),
            4 + count_bits(DataMode::Numeric, version),
            data.len() as int,
        ) == Ok::<Seq<u8>, QrError>(data),
{
    let b = padded_bits(segment_bits(version, DataMode::Numeric, data), capacity);
    let n = data.len() as int;
    let full = n / 3;
    let header = 4 + count_bits(DataMode::Numeric, version);
    let after = header + 10 * full;
    lemma_numeric_groups_back(version, data, capacity, 0);
    let d = data.subrange(0, 3 * full);
    if n % 3 != 0 {
        lemma_groups_len(DataMode::Numeric, data, full);
        assert((full * 3) / 3 == full);
        assert((full * 3) % 3 == 0);
        assert(groups_bits(DataMode::Numeric, data, full).len() == 10 * full);
        assert(group_count(DataMode::Numeric, data.len()) == full + 1);
        lemma_group_cells(version, DataMode::Numeric, data, capacity, full);
        reveal_with_fuel(two_pow, 8);
        if n % 3 == 1 {
            assert(group_size(DataMode::Numeric, data.len(), full) == 1);
            let d0 = data[3 * full] - 48;
            assert(is_digit(data[3 * full]));
            lemma_pack_bits_of(b, after, digits_value(data, 3 * full, 1), 4);
            assert(d.push(digit_char(d0)) =~= data);
        } else {
            assert(group_size(DataMode::Numeric, data.len(), full) == 2);
            let d0 = data[3 * full] - 48;
            let d1 = data[3 * full + 1] - 48;
            assert(is_digit(data[3 * full]) && is_digit(data[3 * full + 1]));
            lemma_three_digits(d0, d1, 0);
            assert(digits_value(data, 3 * full, 2) == d0 * 10 + d1);
            lemma_pack_bits_of(b, after, digits_value(data, 3 * full, 2), 7);
            assert(d.push(digit_char(d0)).push(digit_char(d1)) =~= data);
        }
    } else {
        assert(d =~= data);
    }
}

/// Splitting a pair value of two alphanumeric codes.
proof fn lemma_alnum_pair(a: int, b: int)
    by (nonlinear_arith)
    requires
        0 <= a < 45,
        0 <= b < 45,
    ensures
        (a * 45 + b) / 45 == a,
        (a * 45 + b) % 45 == b,
        a * 45 + b < 2048,
{
}

/// The full pairs of an alphanumeric segment, from pair `j` on, read back as their characters.
proof fn lemma_alnum_pairs_back(version: u8, data: Seq<u8>, capacity: nat, j: int)
    requires
        segment_bits(version, DataMode::Alphanumeric, data).len() <= capacity,
        valid_for(DataMode::Alphanumeric, data),
        0 <= j <= data.len() / 2,
    ensures
        alphanumeric_pairs(
            padded_bits(segment_bits(version, DataMode::Alphanumeric, data), capacity),
            4 + count_bits(DataMode::Alphanumeric, version) + 11 * j,
            data.len() / 2 - j,
        ) == Ok::<Seq<u8>, QrError>(data.subrange(2 * j, 2 * (data.len() / 2) as int)),
    decreases data.len() / 2 - j,
{
    let b = padded_bits(segment_bits(version, DataMode::Alphanumeric, data), capacity);
    let full = (data.len() / 2) as int;
    let pos = 4 + count_bits(DataMode::Alphanumeric, version) + 11 * j;
    if j < full {
        lemma_alnum_pairs_back(version, data, capacity, j + 1);
        lemma_groups_len(DataMode::Alphanumeric, data, j);
        assert((j * 2) / 2 == j);
        assert((j * 2) % 2 == 0);
        assert(groups_bits(DataMode::Alphanumeric, data, j).len() == 11 * j);
        assert(group_size(DataMode::Alphanumeric, data.len(), j) == 2);
        assert(group_count(DataMode::Alphanumeric, data.len()) == (data.len() + 1) / 2);
        assert((data.len() + 1) / 2 >= full);
        lemma_group_cells(version, DataMode::Alphanumeric, data, capacity, j);
        let first = data[2 * j];
        let second = data[2 * j + 1];
        assert(alnum_value(first) is Some && alnum_value(second) is Some);
        lemma_alphanumeric_roundtrip(0, first);
        lemma_alphanumeric_roundtrip(0, second);
        let a = alnum(first) as int;
        let c = alnum(second) as int;
        lemma_alnum_pair(a, c);
        reveal_with_fuel(two_pow, 12);
        lemma_pack_bits_of(b, pos, (alnum(first) * 45 + alnum(second)) as u32, 11);
        let rest = data.subrange(2 * j + 2, 2 * full);
        assert(seq![alnum_char(a), alnum_char(c)] + rest =~= data.subrange(2 * j, 2 * full));
    } else {
        assert(data.subrange(2 * j, 2 * full) =~= Seq::<u8>::empty());
    }
}

/// An alphanumeric segment reads back as its characters.
proof fn lemma_alphanumeric_back(version: u8, data: Seq<u8>, capacity: nat)
    requires
        segment_bits(version, DataMode::Alphanumeric, data).len() <= capacity,
        valid_for(DataMode::Alphanumeric, data),
    ensures
        alphanumeric_decoded(
            padded_bits(segment_bits(version, DataMode::Alphanumeric, data), capacity),
            4 + count_bits(DataMode::Alphanumeric, version),
            data.len() as int,
        ) == Ok::<Seq<u8>, QrError>(data),
{
    let b = padded_bits(segment_bits(version, DataMode::Alphanumeric, data), capacity);
    let n = data.len() as int;
    let full = n / 2;
    let header = 4 + count_bits(DataMode::Alphanumeric, version);
    let after = header + 11 * full;
    lemma_alnum_pairs_back(version, data, capacity, 0);
    let d = data.subrange(0, 2 * full);
    if n % 2 == 1 {
        lemma_groups_len(DataMode::Alphanumeric, data, full);
        assert((full * 2) / 2 == full);
        assert((full * 2) % 2 == 0);
        assert(groups_bits(DataMode::Alphanumeric, data, full).len() == 11 * full);
        assert(group_count(DataMode::Alphanumeric, data.len()) == full + 1);
        assert(group_size(DataMode::Alphanumeric, data.len(), full) == 1);
        lemma_group_cells(version, DataMode::Alphanumeric, data, capacity, full);
        let last = data[2 * full];
        assert(alnum_value(last) is Some);
        lemma_alphanumeric_roundtrip(0, last);
        reveal_with_fuel(two_pow, 7);
        lemma_pack_bits_of(b, after, alnum(last), 6);
        assert(d.push(alnum_char(alnum(last) as int)) =~= data);
    } else {
        assert(d =~= data);
    }
}

/// A byte segment reads back as its bytes.
proof fn lemma_bytes_back(version: u8, data: Seq<u8>, capacity: nat)
    requires
        segment_bits(version, DataMode::Byte, data).len() <= capacity,
    ensures
        bytes_decoded(
            padded_bits(segment_bits(version, DataMode::Byte, data), capacity),
            4 + count_bits(DataMode::Byte, version),
            data.len() as int,
        ) == Ok::<Seq<u8>, QrError>(data),
{
    let b = padded_bits(segment_bits(version, DataMode::Byte, data), capacity);
    let header = 4 + count_bits(DataMode::Byte, version);
    lemma_payload_len(DataMode::Byte, data);
    lemma_padded_prefix(segment_bits(version, DataMode::Byte, data), capacity);
    assert forall|i: int| 0 <= i < data.len() implies #[trigger] pack_bits(b, header + 8 * i, 8) as u8 == data[i] by {
        lemma_groups_len(DataMode::Byte, data, i);
        assert(group_count(DataMode::Byte, data.len()) == data.len());
        lemma_group_cells(version, DataMode::Byte, data, capacity, i);
        reveal_with_fuel(two_pow, 9);
        lemma_pack_bits_of(b, header + 8 * i, data[i] as u32, 8);
    }
    assert(Seq::new(data.len(), |i: int| pack_bits(b, header + 8 * i, 8) as u8) =~= data);
}

/// The `w` bits of `value` read back from the start of `s + rest`.
proof fn lemma_pack_prefix(s: Seq<bool>, rest: Seq<bool>, p: int, value: u32, w: nat)
    requires
        0 <= p,
        p + w <= s.len(),
        w <= 31,
        value < two_pow(w),
        s.subrange(p, p + w) == bits_of(value, w),
    ensures
        pack_bits(s + rest, p, w) == value,
{
    let whole = s + rest;
    assert forall|i: int| 0 <= i < w implies #[trigger] whole[p + i] == bits_of(value, w)[i] by {
        assert(whole[p + i] == s[p + i]);
        assert(s.subrange(p, p + w)[i] == s[p + i]);
    }
    lemma_pack_bits_of(whole, p, value, w);
}

/// The mode indicator and the character count read back from the start of a padded segment.
proof fn lemma_header_back(version: u8, mode: DataMode, data: Seq<u8>, capacity: nat)
    requires
        data.len() < two_pow(count_bits(mode, version) as nat),
        segment_bits(version, mode, data).len() <= capacity,
    ensures
        pack_bits(padded_bits(segment_bits(version, mode, data), capacity), 0, 4) == mode_indicator(mode),
        pack_bits(padded_bits(segment_bits(version, mode, data), capacity), 4, count_bits(mode, version) as nat) == data.len(),
        4 + count_bits(mode, version) + payload_bits_len(mode, data.len()) == segment_bits(version, mode, data).len(),
{
    let s = segment_bits(version, mode, data);
    let b = padded_bits(s, capacity);
    let width = count_bits(mode, version);
    let indicator = mode_indicator(mode);
    lemma_payload_len(mode, data);
    lemma_padded_prefix(s, capacity);
    let rest = b.subrange(s.len() as int, b.len() as int);
    assert(b =~= s + rest);
    assert(width <= 16);
    lemma_two_pow_monotone(width as nat, 16);
    assert(two_pow(16) == 65536) by {
        reveal_with_fuel(two_pow, 17);
    }
    assert(two_pow(4) == 16) by {
        reveal_with_fuel(two_pow, 5);
    }
    assert(data.len() as u32 == data.len());
    let head = bits_of(indicator as u32, 4);
    let count = bits_of(data.len() as u32, width as nat);
    assert(s == head + count + payload_bits(mode, data));
    assert(s.subrange(0, 4) =~= head);
    assert(s.subrange(4, 4 + width) =~= count);
    lemma_pack_prefix(s, rest, 0, indicator as u32, 4);
    lemma_pack_prefix(s, rest, 4, data.len() as u32, width as nat);
}

/// After the segment, a padded segment in a capacity of whole codewords holds the terminator
/// or ends within four bits.
proof fn lemma_tail_stops(bits: Seq<bool>, capacity: nat, version: u8)
    requires
        bits.len() <= capacity,
        capacity % 8 == 0,
    ensures
        segment_step(padded_bits(bits, capacity), bits.len() as int, version) == Step::Stop,
{
    let b = padded_bits(bits, capacity);
    let next = bits.len() as int;
    lemma_padded_prefix(bits, capacity);
    if b.len() - next >= 4 {
        if capacity - bits.len() < 4 {
            assert(b.len() == capacity);
        }
        lemma_bits_of_zero(4);
        reveal_with_fuel(two_pow, 5);
        assert forall|i: int| 0 <= i < 4 implies #[trigger] b[next + i] == bits_of(0u32, 4)[i] by {
            assert(!b[next + i]);
        }
        lemma_pack_bits_of(b, next, 0, 4);
    }
}

/// The characters of a padded segment decode to `data`, and take the payload's bits.
proof fn lemma_characters_back(version: u8, mode: DataMode, data: Seq<u8>, capacity: nat)
    requires
        valid_for(mode, data),
        segment_bits(version, mode, data).len() <= capacity,
    ensures
        segment_decoded(mode, padded_bits(segment_bits(version, mode, data), capacity), 4 + count_bits(mode, version), data.len() as int)
            == Ok::<Seq<u8>, QrError>(data),
        segment_span(mode, data.len() as int) == payload_bits_len(mode, data.len()),
{
    match mode {
        DataMode::Numeric => lemma_numeric_back(version, data, capacity),
        DataMode::Alphanumeric => lemma_alphanumeric_back(version, data, capacity),
        DataMode::Byte => lemma_bytes_back(version, data, capacity),
    }
}

/// Reading back the padded segment of `data`, in a capacity of whole codewords, gives `data`
/// and no ECI designator: the mode and count read back, the characters decode to `data`, and
/// the terminator (or the end of the capacity) follows.
pub proof fn lemma_segment_read_back(version: u8, mode: DataMode, data: Seq<u8>, capacity: nat)
    requires
        1 <= version <= 40,
        valid_for(mode, data),
        data.len() < two_pow(count_bits(mode, version) as nat),
        segment_bits(version, mode, data).len() <= capacity,
        capacity % 8 == 0,
    ensures
        segments(padded_bits(segment_bits(version, mode, data), capacity), 0, version) == Ok::<(Seq<u8>, bool), QrError>(
            (data, true),
        ),
{
    let s = segment_bits(version, mode, data);
    let b = padded_bits(s, capacity);
    lemma_header_back(version, mode, data, capacity);
    lemma_characters_back(version, mode, data, capacity);
    lemma_tail_stops(s, capacity, version);
    lemma_padded_prefix(s, capacity);
    assert(indicator_mode(mode_indicator(mode) as int) == mode);
    assert(segment_step(b, 0, version) == Step::Data(data, s.len() as int));
    assert(segments(b, s.len() as int, version) == Ok::<(Seq<u8>, bool), QrError>((Seq::empty(), true)));
    assert(data + Seq::<u8>::empty() =~= data);
}

/// Bytes that agree in their eight bits are equal.
proof fn lemma_byte_bits_agree(a: u8, b: u8)
    by (bit_vector)
    requires
        ((a >> 7u8) & 1u8 != 0u8) == ((b >> 7u8) & 1u8 != 0u8),
        ((a >> 6u8) & 1u8 != 0u8) == ((b >> 6u8) & 1u8 != 0u8),
        ((a >> 5u8) & 1u8 != 0u8) == ((b >> 5u8) & 1u8 != 0u8),
        ((a >> 4u8) & 1u8 != 0u8) == ((b >> 4u8) & 1u8 != 0u8),
        ((a >> 3u8) & 1u8 != 0u8) == ((b >> 3u8) & 1u8 != 0u8),
        ((a >> 2u8) & 1u8 != 0u8) == ((b >> 2u8) & 1u8 != 0u8),
        ((a >> 1u8) & 1u8 != 0u8) == ((b >> 1u8) & 1u8 != 0u8),
        ((a >> 0u8) & 1u8 != 0u8) == ((b >> 0u8) & 1u8 != 0u8),
    ensures
        a == b,
{
}

/// Codeword sequences of one length that agree in every bit are equal.
proof fn lemma_codewords_agree(a: Seq<u8>, b: Seq<u8>)
    requires
        a.len() == b.len(),
        forall|k: int| 0 <= k < a.len() * 8 ==> #[trigger] codeword_bit(a, k) == codeword_bit(b, k),
    ensures
        a == b,
{
    assert forall|i: int| 0 <= i < a.len() implies a[i] == b[i] by {
        assert forall|j: int| 0 <= j < 8 implies #[trigger] byte_bit(a[i], j) == byte_bit(b[i], j) by {
            assert(codeword_bit(a, 8 * i + j) == codeword_bit(b, 8 * i + j));
            assert((8 * i + j) / 8 == i);
            assert((8 * i + j) % 8 == j);
        }
        assert(byte_bit(a[i], 0) == byte_bit(b[i], 0));
        assert(byte_bit(a[i], 1) == byte_bit(b[i], 1));
        assert(byte_bit(a[i], 2) == byte_bit(b[i], 2));
        assert(byte_bit(a[i], 3) == byte_bit(b[i], 3));
        assert(byte_bit(a[i], 4) == byte_bit(b[i], 4));
        assert(byte_bit(a[i], 5) == byte_bit(b[i], 5));
        assert(byte_bit(a[i], 6) == byte_bit(b[i], 6));
        assert(byte_bit(a[i], 7) == byte_bit(b[i], 7));
        lemma_byte_bits_agree(a[i], b[i]);
    }
    assert(a =~= b);
}

/// What an encoded code holds: its version, level and mask, and data codewords holding the
/// padded segment of the payload, which the segment fits.
proof fn lemma_encoded_parts(mode: DataMode, data: Seq<u8>, options: EncodeOptions, code: QrCode) -> (cw: Seq<u8>)
    requires
        1 <= options.min_version@,
        options.max_version@ <= 40,
        options.mask matches Some(m) ==> m@ < 8,
        encode_result(mode, data, options, Ok::<QrCode, QrError>(code)),
    ensures
        1 <= code.spec_version()@ <= 40,
        code.spec_mask()@ < 8,
        code.wf(),
        valid_for(mode, data),
        data.len() < two_pow(count_bits(mode, code.spec_version()@) as nat),
        segment_bits(code.spec_version()@, mode, data).len() <= data_codewords(code.spec_version()@ as nat, code.spec_error_correction()) * 8,
        cw.len() == data_codewords(code.spec_version()@ as nat, code.spec_error_correction()),
        bits_of_bytes(cw) == padded_bits(
            segment_bits(code.spec_version()@, mode, data),
            data_codewords(code.spec_version()@ as nat, code.spec_error_correction()) * 8,
        ),
        code.spec_modules()@ == symbol(
            code.spec_version()@ as nat,
            ecc_format_bits(code.spec_error_correction()),
            code.spec_mask()@,
            interleaved(code.spec_version()@ as nat, code.spec_error_correction(), cw),
        ),
{
    let v = code.spec_version()@ as nat;
    let mask = code.spec_mask()@;
    let len = data.len();
    lemma_first_fit(options.min_version@ as nat, options.max_version@ as nat, mode, len, options.min_error_correction);
    assert(encoded_as(v, mode, data, options, Ok::<QrCode, QrError>(code)));
    let total = segment_bits_len(v as u8, mode, len);
    let ecc = chosen_level(v, total, options);
    if options.boost_error_correction {
        lemma_boosted_fits(v, total, options.min_error_correction);
    }
    lemma_payload_len(mode, data);
    let capacity = data_codewords(v, ecc) * 8;
    choose|cw: Seq<u8>|
        cw.len() == data_codewords(v, ecc) && bits_of_bytes(cw) == padded_bits(segment_bits(v as u8, mode, data), capacity)
            && #[trigger] code.spec_modules()@ == symbol(v, ecc_format_bits(ecc), mask, interleaved(v, ecc, cw))
            && mask_chosen(options.mask, v, ecc_format_bits(ecc), interleaved(v, ecc, cw), mask)
}

/// Decoding the blocks of the interleaved codewords of `cw`, which hold the padded segment of
/// `data`, gives `data` back with the given version, level and mask.
#[verifier::spinoff_prover]
#[verifier::rlimit(50)]
proof fn lemma_blocks_decode(v: nat, ecc: ErrorCorrectionLevel, mask: u8, cw: Seq<u8>, mode: DataMode, data: Seq<u8>, decoded: Result<DecodedQr, QrError>)
    requires
        1 <= v <= 40,
        valid_for(mode, data),
        data.len() < two_pow(count_bits(mode, v as u8) as nat),
        segment_bits(v as u8, mode, data).len() <= data_codewords(v, ecc) * 8,
        cw.len() == data_codewords(v, ecc),
        bits_of_bytes(cw) == padded_bits(segment_bits(v as u8, mode, data), data_codewords(v, ecc) * 8),
        blocks_outcome(v, ecc, mask, interleaved(v, ecc, cw), decoded),
    ensures
        decoded matches Ok(d) && d.bytes@ == data && d.version@ == v && d.error_correction == ecc && d.mask@ == mask && (d.text is Some
            <==> valid_utf8(data)) && (d.text matches Some(t) ==> compact_chars(t) == decode_utf8(data)),
{
    lemma_interleave_roundtrip(v, ecc, cw);
    lemma_segment_read_back(v as u8, mode, data, data_codewords(v, ecc) * 8);
}

/// The symbol of `cw` decodes as its blocks do.
proof fn lemma_symbol_blocks(v: nat, ecc: ErrorCorrectionLevel, mask: u8, cw: Seq<u8>, decoded: Result<DecodedQr, QrError>)
    requires
        1 <= v <= 40,
        mask < 8,
        decode_outcome(symbol(v, ecc_format_bits(ecc), mask, interleaved(v, ecc, cw)), v * 4 + 17, decoded),
    ensures
        blocks_outcome(v, ecc, mask, interleaved(v, ecc, cw), decoded),
{
    let placed = interleaved(v, ecc, cw);
    let g = symbol(v, ecc_format_bits(ecc), mask, placed);
    let size = v * 4 + 17;
    lemma_free_cells_count(v);
    assert(is_qr_size(size));
    assert(size_version(size) == v);
    lemma_format_read_back(v, ecc, mask, placed);
    let c = (ecc_ordinal(ecc) * 8 + mask) as int;
    let read = choose|read: Seq<u8>| #[trigger] codewords_read(g, v, (c % 8) as u8, read) && blocks_outcome(v, candidate_level(c), (c % 8) as u8, read, decoded);
    lemma_codewords_read_back(v, ecc_format_bits(ecc), mask, placed, read);
    assert(read.len() == placed.len());
    lemma_codewords_agree(read, placed);
}

/// Reading the codewords of a finished symbol undoes the mask and the zigzag placement: it
/// gives back exactly the codewords placed, whatever the format bits.
pub proof fn lemma_codewords_read_exactly(v: nat, ecc_bits: u8, mask: u8, placed: Seq<u8>, read: Seq<u8>)
    requires
        1 <= v <= 40,
        placed.len() == raw_data_modules(v) / 8,
        codewords_read(symbol(v, ecc_bits, mask, placed), v, mask, read),
    ensures
        read == placed,
{
    lemma_free_cells_count(v);
    lemma_codewords_read_back(v, ecc_bits, mask, placed, read);
    assert forall|k: int| 0 <= k < read.len() * 8 implies #[trigger] codeword_bit(read, k) == codeword_bit(placed, k) by {
        assert(raw_data_modules(v) / 8 * 8 <= raw_data_modules(v));
    }
    lemma_codewords_agree(read, placed);
}

/// Decoding the symbol of an encoded payload gives the payload back, with the code's version,
/// level and mask, and as text exactly when the payload is valid UTF-8.
pub proof fn lemma_decode_encoded(
    mode: DataMode,
    data: Seq<u8>,
    options: EncodeOptions,
    code: QrCode,
    decoded: Result<DecodedQr, QrError>,
)
    requires
        1 <= options.min_version@,
        options.max_version@ <= 40,
        options.mask matches Some(m) ==> m@ < 8,
        encode_result(mode, data, options, Ok::<QrCode, QrError>(code)),
        decode_outcome(code.spec_modules()@, code.spec_modules().spec_size(), decoded),
    ensures
        decoded matches Ok(d) && d.bytes@ == data && d.version@ == code.spec_version()@ && d.error_correction
            == code.spec_error_correction() && d.mask@ == code.spec_mask()@ && (d.text is Some <==> valid_utf8(data)) && (
        d.text matches Some(t) ==> compact_chars(t) == decode_utf8(data)),
{
    let cw = lemma_encoded_parts(mode, data, options, code);
    let v = code.spec_version()@ as nat;
    let ecc = code.spec_error_correction();
    assert((v as u8) == code.spec_version()@);
    assert(code.spec_modules().spec_size() == v * 4 + 17);
    lemma_symbol_blocks(v, ecc, code.spec_mask()@, cw, decoded);
    lemma_blocks_decode(v, ecc, code.spec_mask()@, cw, mode, data, decoded);
}

} // verus!
