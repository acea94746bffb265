//! Reading a module matrix back: the version from the size, the format
//! information, the codewords in zigzag order, the blocks, and the segments.

use vstd::prelude::*;

use crate::bit_buffer::{byte_bit, lemma_byte_bit_set, lemma_byte_bit_zero};
use crate::bit_grid::BitGrid;
use crate::encode::{codeword_bit, format_info_word, format_information_bits, function_grid, function_grid_of, mask_bit};
use crate::error::QrError;
use crate::layout::{
    bit16, format_cell, format_first_x, format_first_y, format_second_x, format_second_y,
    free_before, lemma_zig_cell, lemma_zig_index, mask_flips, zig_index, zig_len, zig_x, zig_y,
};
use crate::tables::{num_raw_data_modules, raw_data_modules};
use crate::types::{ecc_format_bits, version_size, DecodedQr, ErrorCorrectionLevel, MaskPattern, QrCode, Version};
use crate::blocks::{block_checks, deinterleave_and_verify, nb, received_data_upto};
use crate::bit_buffer::bits_of_bytes;
use crate::payload::{decode_payload, segments};
use crate::text::compact_chars;
use vstd::utf8::{decode_utf8, valid_utf8};

verus! {

/// The version whose side is `size`, as the decoder computes it.
pub open spec fn size_version(size: nat) -> int {
    ((size - 17) / 4) as int
}

/// Whether `size` is a QR side length: at least 21 and 17 more than a multiple of four.
pub open spec fn is_qr_size(size: nat) -> bool {
    size >= 21 && (size - 17) % 4 == 0
}

/// The version of a matrix of side `size`; `InvalidMatrixSize` for a side that is no QR size,
/// `InvalidVersion` beyond version 40.
fn version_from_size(size: usize) -> (r: Result<Version, QrError>)
    ensures
        !is_qr_size(size as nat) ==> r == Err::<Version, QrError>(QrError::InvalidMatrixSize(size)),
        is_qr_size(size as nat) && size_version(size as nat) > 40 ==> r == Err::<Version, QrError>(
            QrError::InvalidVersion(size_version(size as nat) as u8),
        ),
        is_qr_size(size as nat) && size_version(size as nat) <= 40 ==> (r matches Ok(v) && v@ == size_version(size as nat)
            && version_size(v@) == size),
{
    if size < 21 || (size - 17) % 4 != 0 {
        return Err(QrError::InvalidMatrixSize(size));
    }
    let v: usize = (size - 17) / 4;
    if v > 40 {
        return Err(QrError::InvalidVersion(v as u8));
    }
    Version::new(v as u8)
}

/// Number of the 16 bit positions where `a` and `b` differ, among the first `k`.
pub open spec fn differing_bits(a: u16, b: u16, k: int) -> nat
    decreases k,
{
    if k <= 0 {
        0
    } else {
        differing_bits(a, b, k - 1) + if bit16(a, k - 1) != bit16(b, k - 1) {
            1nat
        } else {
            0nat
        }
    }
}

/// Hamming distance of two 16-bit words.
pub open spec fn hamming(a: u16, b: u16) -> nat {
    differing_bits(a, b, 16)
}

/// Computes the Hamming distance of two 16-bit words.
fn hamming_distance(left: u16, right: u16) -> (r: usize)
    ensures
        r == hamming(left, right),
{
    let mut count: usize = 0;
    let mut i: u16 = 0;
    while i < 16
        invariant
            i <= 16,
            count == differing_bits(left, right, i as int),
            count <= i,
        decreases 16 - i,
    {
        if ((left >> i) & 1u16) != ((right >> i) & 1u16) {
            count = count + 1;
        }
        proof {
            assert(bit16(left, i as int) == ((left >> i) & 1u16 != 0u16));
            assert(((left >> i) & 1u16) == 0u16 || ((left >> i) & 1u16) == 1u16) by (bit_vector);
            assert(((right >> i) & 1u16) == 0u16 || ((right >> i) & 1u16) == 1u16) by (bit_vector);
        }
        i = i + 1;
    }
    count
}

/// The cell that shows format bit `i` of one of the two copies.
pub open spec fn format_source(g: Seq<Seq<bool>>, size: int, second: bool, i: int) -> bool {
    if second {
        g[format_second_y(size, i)][format_second_x(size, i)]
    } else {
        g[format_first_y(i)][format_first_x(i)]
    }
}

/// The first `k` bits of a copy of the format information, read from the matrix.
pub open spec fn read_format(g: Seq<Seq<bool>>, size: int, second: bool, k: int) -> u16
    decreases k,
{
    if k <= 0 {
        0
    } else {
        if format_source(g, size, second, k - 1) {
            read_format(g, size, second, k - 1) | (1u16 << ((k - 1) as u16))
        } else {
            read_format(g, size, second, k - 1)
        }
    }
}

/// The level of format candidate `c` (eight masks per level, from Low to High).
pub open spec fn candidate_level(c: int) -> ErrorCorrectionLevel {
    if c < 8 {
        ErrorCorrectionLevel::Low
    } else if c < 16 {
        ErrorCorrectionLevel::Medium
    } else if c < 24 {
        ErrorCorrectionLevel::Quartile
    } else {
        ErrorCorrectionLevel::High
    }
}

/// Distance of the two read copies from candidate `c`: the nearer of the two.
pub open spec fn candidate_distance(first: u16, second: u16, c: int) -> nat {
    let expected = format_info_word(ecc_format_bits(candidate_level(c)), (c % 8) as u8);
    if hamming(first, expected) <= hamming(second, expected) {
        hamming(first, expected)
    } else {
        hamming(second, expected)
    }
}

/// The first candidate below `k` at the smallest distance, and that distance
/// (none yet: index -1 at the largest distance).
pub open spec fn best_candidate(first: u16, second: u16, k: int) -> (int, nat)
    decreases k,
{
    if k <= 0 {
        (-1, usize::MAX as nat)
    } else {
        let (b, d) = best_candidate(first, second, k - 1);
        if candidate_distance(first, second, k - 1) < d {
            (k - 1, candidate_distance(first, second, k - 1))
        } else {
            (b, d)
        }
    }
}

/// Decoding format information from two read copies: the nearest candidate, if it is within
/// three bit errors.
pub open spec fn format_decoded(first: u16, second: u16, r: Result<(ErrorCorrectionLevel, MaskPattern), QrError>) -> bool {
    let (b, d) = best_candidate(first, second, 32);
    if d <= 3 {
        r matches Ok((ecc, mask)) && ecc == candidate_level(b) && mask@ == b % 8
    } else {
        r == Err::<(ErrorCorrectionLevel, MaskPattern), QrError>(QrError::InvalidFormatInformation)
    }
}

/// Reads both copies of the format information and picks the nearest valid format.
fn decode_format_information(modules: &BitGrid) -> (r: Result<(ErrorCorrectionLevel, MaskPattern), QrError>)
    requires
        modules.wf(),
        21 <= modules.spec_size(),
    ensures
        format_decoded(
            read_format(modules@, modules.spec_size() as int, false, 15),
            read_format(modules@, modules.spec_size() as int, true, 15),
            r,
        ),
{
    let size = modules.size();
    let ghost g = modules@;
    let ghost s = size as int;
    let mut first_bits: u16 = 0;
    let mut index: usize = 0;
    while index < 15
        invariant
            modules.wf(),
            size == modules.spec_size(),
            21 <= size,
            g == modules@,
            s == size,
            index <= 15,
            first_bits == read_format(g, s, false, index as int),
        decreases 15 - index,
    {
        let x: usize = if index <= 7 {
            8
        } else if index == 8 {
            7
        } else {
            14 - index
        };
        let y: usize = if index <= 5 {
            index
        } else if index == 6 {
            7
        } else {
            8
        };
        proof {
            assert(x == format_first_x(index as int) && y == format_first_y(index as int));
        }
        if modules.get(x, y) {
            first_bits = first_bits | (1u16 << (index as u16));
        }
        index = index + 1;
    }
    let mut second_bits: u16 = 0;
    let mut index: usize = 0;
    while index < 15
        invariant
            modules.wf(),
            size == modules.spec_size(),
            21 <= size,
            g == modules@,
            s == size,
            index <= 15,
            second_bits == read_format(g, s, true, index as int),
        decreases 15 - index,
    {
        let x: usize = if index < 8 {
            size - 1 - index
        } else {
            8
        };
        let y: usize = if index < 8 {
            8
        } else {
            size - 15 + index
        };
        proof {
            assert(x == format_second_x(s, index as int) && y == format_second_y(s, index as int));
        }
        if modules.get(x, y) {
            second_bits = second_bits | (1u16 << (index as u16));
        }
        index = index + 1;
    }
    let mut best: usize = 0;
    let mut best_distance: usize = usize::MAX;
    let mut candidate: usize = 0;
    while candidate < 32
        invariant
            candidate <= 32,
            best < 32,
            best_candidate(first_bits, second_bits, candidate as int) == (if candidate == 0 || best_distance == usize::MAX {
                -1int
            } else {
                best as int
            }, best_distance as nat),
            best_distance == usize::MAX ==> best == 0,
            best_distance < usize::MAX ==> best < candidate,
        decreases 32 - candidate,
    {
        let ecc = if candidate < 8 {
            ErrorCorrectionLevel::Low
        } else if candidate < 16 {
            ErrorCorrectionLevel::Medium
        } else if candidate < 24 {
            ErrorCorrectionLevel::Quartile
        } else {
            ErrorCorrectionLevel::High
        };
        let mask = MaskPattern::new((candidate % 8) as u8).unwrap();
        let expected = format_information_bits(ecc, mask);
        let near_first = hamming_distance(first_bits, expected);
        let near_second = hamming_distance(second_bits, expected);
        let distance = if near_first <= near_second {
            near_first
        } else {
            near_second
        };
        if distance < best_distance {
            best_distance = distance;
            best = candidate;
        }
        candidate = candidate + 1;
    }
    if best_distance <= 3 {
        let ecc = if best < 8 {
            ErrorCorrectionLevel::Low
        } else if best < 16 {
            ErrorCorrectionLevel::Medium
        } else if best < 24 {
            ErrorCorrectionLevel::Quartile
        } else {
            ErrorCorrectionLevel::High
        };
        let mask = MaskPattern::new((best % 8) as u8).unwrap();
        Ok((ecc, mask))
    } else {
        Err(QrError::InvalidFormatInformation)
    }
}

/// Reads the data cells in zigzag order, unmasked, into codewords: as many whole bytes as the
/// version has codewords. Bit k comes from the k-th free cell; bits past the last free cell
/// are clear.
fn read_codewords(modules: &BitGrid, functions: &BitGrid, version: Version, mask: MaskPattern) -> (r: Vec<u8>)
    requires
        modules.wf(),
        functions.wf(),
        modules.spec_size() == version_size(version@),
        functions.spec_size() == version_size(version@),
    ensures
        r@.len() == raw_data_modules(version@ as nat) / 8,
        forall|x: int, y: int|
            0 <= x < version_size(version@) && 0 <= y < version_size(version@) && x != 6 && !functions@[y][x]
                && free_before(functions@, version_size(version@) as int, zig_index(version_size(version@) as int, x, y)) < r@.len() * 8
                ==> #[trigger] codeword_bit(r@, free_before(functions@, version_size(version@) as int, zig_index(version_size(version@) as int, x, y)) as int)
                == (modules@[y][x] != mask_flips(mask@, x, y)),
        forall|k: int|
            free_before(functions@, version_size(version@) as int, zig_len(version_size(version@) as int)) <= k < r@.len() * 8
                ==> !#[trigger] codeword_bit(r@, k),
{
    let size = modules.size();
    let _ = version.value();
    let ghost s = size as int;
    let ghost taken = functions@;
    let ghost g = modules@;
    let total_bytes = num_raw_data_modules(version) / 8;
    let total_bits = total_bytes * 8;
    let mut codewords = vec![0u8; total_bytes];
    proof {
        assert(21 <= size <= 177);
        assert((size - 1) * size <= 177 * 177) by (nonlinear_arith)
            requires
                size <= 177,
        ;
        modules.lemma_shape();
        functions.lemma_shape();
        assert forall|k: int| 0 <= k < total_bits implies !#[trigger] codeword_bit(codewords@, k) by {
            lemma_byte_bit_zero((k % 8) as u8);
        }
    }
    let walk = (size - 1) * size;
    let mut bit_index: usize = 0;
    let mut t: usize = 0;
    while t < walk
        invariant
            modules.wf(),
            functions.wf(),
            size == modules.spec_size(),
            size == functions.spec_size(),
            s == size,
            21 <= size <= 177,
            size % 2 == 1,
            walk == zig_len(s),
            taken == functions@,
            g == modules@,
            codewords@.len() == total_bytes,
            total_bits == total_bytes * 8,
            total_bytes <= 3706,
            t <= walk,
            bit_index == if free_before(taken, s, t as int) < total_bits {
                free_before(taken, s, t as int) as int
            } else {
                total_bits as int
            },
            forall|x: int, y: int|
                0 <= x < size && 0 <= y < size && x != 6 && zig_index(s, x, y) < t && !taken[y][x]
                    && free_before(taken, s, zig_index(s, x, y)) < total_bits
                    ==> #[trigger] codeword_bit(codewords@, free_before(taken, s, zig_index(s, x, y)) as int)
                    == (g[y][x] != mask_flips(mask@, x, y)),
            forall|k: int| bit_index <= k < total_bits ==> !#[trigger] codeword_bit(codewords@, k),
        decreases walk - t,
    {
        proof {
            lemma_zig_cell(s, t as int);
        }
        let pair = t / (2 * size);
        let offset = t % (2 * size);
        let right = if size - 1 - 2 * pair > 6 {
            size - 1 - 2 * pair
        } else {
            size - 2 - 2 * pair
        };
        let x = right - offset % 2;
        let vertical = offset / 2;
        let upward = ((right + 1) / 2) % 2 == 0;
        let y = if upward {
            size - 1 - vertical
        } else {
            vertical
        };
        proof {
            assert(x == zig_x(s, t as int));
            assert(y == zig_y(s, t as int));
        }
        let ghost before = codewords@;
        let ghost written = bit_index;
        if !functions.get(x, y) {
            if bit_index < total_bits {
                let mut dark = modules.get(x, y);
                proof {
                    assert(x * y <= 177 * 177) by (nonlinear_arith)
                        requires
                            x < 177,
                            y < 177,
                    ;
                }
                if mask_bit(mask, x, y) {
                    dark = !dark;
                }
                if dark {
                    set_codeword_bit(&mut codewords, bit_index);
                }
                bit_index = bit_index + 1;
            }
        }
        proof {
            assert forall|xx: int, yy: int|
                0 <= xx < size && 0 <= yy < size && xx != 6 && zig_index(s, xx, yy) < t + 1 && !taken[yy][xx]
                    && free_before(taken, s, zig_index(s, xx, yy)) < total_bits
                implies #[trigger] codeword_bit(codewords@, free_before(taken, s, zig_index(s, xx, yy)) as int)
                    == (g[yy][xx] != mask_flips(mask@, xx, yy)) by {
                lemma_zig_index(s, xx, yy);
                if xx == x && yy == y {
                } else {
                    let idx = zig_index(s, xx, yy);
                    assert(idx != t);
                    assert(zig_x(s, idx) == xx && zig_y(s, idx) == yy);
                    assert(free_before(taken, s, idx + 1) == free_before(taken, s, idx) + 1);
                    lemma_free_before_monotone(taken, s, idx + 1, t as int);
                    assert(free_before(taken, s, idx) < written);
                }
            }
        }
        t = t + 1;
    }
    proof {
        assert forall|x: int, y: int| 0 <= x < size && 0 <= y < size && x != 6 implies zig_index(s, x, y) < t by {
            lemma_zig_index(s, x, y);
        }
    }
    codewords
}

/// Sets bit `k` of the codewords (most significant bit of each byte first).
fn set_codeword_bit(codewords: &mut Vec<u8>, k: usize)
    requires
        k < old(codewords)@.len() * 8,
    ensures
        final(codewords)@.len() == old(codewords)@.len(),
        forall|j: int| 0 <= j < old(codewords)@.len() * 8 ==> #[trigger] codeword_bit(final(codewords)@, j) == (j == k || codeword_bit(old(codewords)@, j)),
{
    let ghost before = codewords@;
    let byte_index = k / 8;
    let shift = (k % 8) as u8;
    let old_byte = codewords[byte_index];
    codewords.set(byte_index, old_byte | (0x80u8 >> shift));
    proof {
        assert forall|j: int| 0 <= j < before.len() * 8 implies #[trigger] codeword_bit(codewords@, j) == (j == k || codeword_bit(before, j)) by {
            if j / 8 == byte_index {
                lemma_byte_bit_set(old_byte, shift, (j % 8) as u8);
            }
        }
    }
}

/// The count of free cells never decreases along the walk.
proof fn lemma_free_before_monotone(taken: Seq<Seq<bool>>, s: int, a: int, b: int)
    requires
        a <= b,
    ensures
        free_before(taken, s, a) <= free_before(taken, s, b),
    decreases b - a,
{
    if a < b {
        lemma_free_before_monotone(taken, s, a, b - 1);
    }
}

/// `codewords` holds, unmasked, the data cells of the matrix `g` of version `v` in zigzag
/// order, with the bits past the last free cell clear.
pub open spec fn codewords_read(g: Seq<Seq<bool>>, v: nat, mask: u8, codewords: Seq<u8>) -> bool {
    let size = (v * 4 + 17) as int;
    let taken = function_grid(v);
    &&& codewords.len() == raw_data_modules(v) / 8
    &&& forall|x: int, y: int|
        0 <= x < size && 0 <= y < size && x != 6 && !taken[y][x] && free_before(taken, size, zig_index(size, x, y)) < codewords.len() * 8
            ==> #[trigger] codeword_bit(codewords, free_before(taken, size, zig_index(size, x, y)) as int) == (g[y][x] != mask_flips(mask, x, y))
    &&& forall|k: int| free_before(taken, size, zig_len(size)) <= k < codewords.len() * 8 ==> !#[trigger] codeword_bit(codewords, k)
}

/// What decoding the codewords read from a matrix gives: `Checksum` if a block is no
/// Reed-Solomon codeword, else the outcome of the segments of the data codewords.
pub open spec fn blocks_outcome(v: nat, ecc: ErrorCorrectionLevel, mask: u8, codewords: Seq<u8>, r: Result<DecodedQr, QrError>) -> bool {
    if !(forall|i: int| 0 <= i < nb(v, ecc) ==> #[trigger] block_checks(v, ecc, codewords, i)) {
        r == Err::<DecodedQr, QrError>(QrError::Checksum)
    } else {
        let data = received_data_upto(v, ecc, codewords, nb(v, ecc));
        match segments(bits_of_bytes(data), 0, v as u8) {
            Err(e) => r == Err::<DecodedQr, QrError>(e),
            Ok((bytes, utf8)) => r matches Ok(d) && d.version@ == v && d.error_correction == ecc && d.mask@ == mask
                && d.bytes@ == bytes && (d.text is Some <==> utf8 && valid_utf8(bytes))
                && (d.text matches Some(t) ==> compact_chars(t) == decode_utf8(bytes)),
        }
    }
}

/// What decoding the matrix `g` of side `size` gives.
pub open spec fn decode_outcome(g: Seq<Seq<bool>>, size: nat, r: Result<DecodedQr, QrError>) -> bool {
    if !is_qr_size(size) {
        r == Err::<DecodedQr, QrError>(QrError::InvalidMatrixSize(size as usize))
    } else if size_version(size) > 40 {
        r == Err::<DecodedQr, QrError>(QrError::InvalidVersion(size_version(size) as u8))
    } else {
        let v = size_version(size) as nat;
        let (b, d) = best_candidate(read_format(g, size as int, false, 15), read_format(g, size as int, true, 15), 32);
        if d > 3 {
            r == Err::<DecodedQr, QrError>(QrError::InvalidFormatInformation)
        } else {
            exists|codewords: Seq<u8>|
                #[trigger] codewords_read(g, v, (b % 8) as u8, codewords) && blocks_outcome(v, candidate_level(b), (b % 8) as u8, codewords, r)
        }
    }
}

/// `Vec::into_boxed_slice`: the same bytes in a boxed slice.
#[verifier::external_body]
fn boxed_bytes(bytes: Vec<u8>) -> (r: Box<[u8]>)
    ensures
        r@ == bytes@,
{
    bytes.into_boxed_slice()
}

/// Decodes a module matrix: version, format, codewords, blocks, segments.
#[verifier::rlimit(100)]
pub fn decode_modules(modules: &BitGrid) -> (r: Result<DecodedQr, QrError>)
    requires
        modules.wf(),
    ensures
        decode_outcome(modules@, modules.spec_size(), r),
{
    let version = match version_from_size(modules.size()) {
        Ok(v) => v,
        Err(e) => {
            return Err(e);
        },
    };
    let (error_correction, mask) = match decode_format_information(modules) {
        Ok(found) => found,
        Err(e) => {
            return Err(e);
        },
    };
    let functions = function_grid_of(version);
    let codewords = read_codewords(modules, &functions, version, mask);
    let ghost v = version@ as nat;
    let ghost cw = codewords@;
    let r = decode_blocks(version, error_correction, mask, codewords);
    proof {
        let size = modules.spec_size();
        let (b, d) = best_candidate(read_format(modules@, size as int, false, 15), read_format(modules@, size as int, true, 15), 32);
        assert(candidate_level(b) == error_correction);
        assert(mask@ == (b % 8) as u8);
        assert(v == size_version(size));
        assert(codewords_read(modules@, size_version(size) as nat, (b % 8) as u8, cw));
        assert(blocks_outcome(size_version(size) as nat, candidate_level(b), (b % 8) as u8, cw, r));
    }
    r
}

/// Checks and deinterleaves the blocks of the codewords read, and decodes their segments.
fn decode_blocks(version: Version, error_correction: ErrorCorrectionLevel, mask: MaskPattern, codewords: Vec<u8>) -> (r: Result<DecodedQr, QrError>)
    requires
        codewords@.len() == raw_data_modules(version@ as nat) / 8,
    ensures
        blocks_outcome(version@ as nat, error_correction, mask@, codewords@, r),
{
    let ghost v = version@ as nat;
    let _ = version.value();
    proof {
        crate::blocks::lemma_shape(v, error_correction);
    }
    let data = match deinterleave_and_verify(version, error_correction, codewords.as_slice()) {
        Ok(data) => data,
        Err(e) => {
            return Err(e);
        },
    };
    proof {
        crate::blocks::lemma_received_len(v, error_correction, codewords@);
        crate::tables::lemma_tables(error_correction, v);
    }
    let (payload, text) = match decode_payload(data.as_slice(), version) {
        Ok(found) => found,
        Err(e) => {
            return Err(e);
        },
    };
    let bytes = boxed_bytes(payload);
    Ok(DecodedQr { version, error_correction, mask, bytes, text })
}

/// Decodes the matrix of an encoded code.
pub fn decode_matrix(code: &QrCode) -> (r: Result<DecodedQr, QrError>)
    requires
        code.wf(),
    ensures
        decode_outcome(code.spec_modules()@, code.spec_modules().spec_size(), r),
{
    let _ = code.version().value();
    decode_modules(code.modules())
}

} // verus!
