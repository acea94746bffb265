//! Encoding payloads into QR codes: the bit stream, error correction and
//! interleaving, module placement, masking and mask selection.

use vstd::prelude::*;
use vstd::string::StringSliceAdditionalSpecFns;

use crate::bit_buffer::byte_bit;
use crate::bit_grid::{count_cells, BitGrid};
use crate::error::QrError;
use crate::penalty::{block_count, column_penalty, columns_penalty, penalty, row_penalty, rows_penalty};
use crate::layout::{bit16, format_cell, free_before, lemma_zig_cell, lemma_zig_index, mask_flips, zig_index, zig_len, zig_x, zig_y, alignment_drawn, alignment_drawn_dark, lemma_alignment_drawn_row, lemma_alignment_drawn_step, 
    alignment_center_used, alignment_color, alignment_dark, bit_of, cheb, finder_color, finder_dark,
    function_dark, in_alignment, in_finder, in_format_area, in_timing, in_version_area,
    is_dark_module, is_function, lemma_paint_cell, near, painted, square, timing_dark,
    version_bit_index,
};
use crate::tables::{
    alignment_pattern_positions, alignment_positions, lemma_alignment_positions, position_items,
    positions_get, positions_len,
};
use crate::types::{ecc_format_bits, ecc_ordinal, version_size, DataMode, EncodeOptions, ErrorCorrectionLevel, MaskPattern, Version};
use crate::blocks::{add_error_correction_and_interleave, interleaved, lemma_shape};
use crate::segment::{build_data_codewords, classify_text, padded_bits, segment_bits, valid_for};
use crate::bit_buffer::{bits_of_bytes, two_pow};
use crate::types::{count_bits, QrCode};
use crate::tables::{data_codewords, lemma_tables, num_data_codewords, raw_data_modules, segment_bits_len, total_bit_len};

verus! {

/// One step of the version information BCH code: shift in a zero and reduce by x^12 + ... (0x1F25).
pub open spec fn version_step(rem: u32) -> u32 {
    (rem << 1u32) ^ (if (rem >> 11u32) & 1u32 != 0u32 { 0x1F25u32 } else { 0u32 })
}

/// `steps` steps of the version information BCH code from `rem`.
pub open spec fn version_rem(rem: u32, steps: nat) -> u32
    decreases steps,
{
    if steps == 0 {
        rem
    } else {
        version_rem(version_step(rem), (steps - 1) as nat)
    }
}

/// The 18-bit version information word: six bits of version, twelve of BCH remainder.
pub open spec fn version_info_word(version: u8) -> u32 {
    ((version as u32) << 12u32) | version_rem(version as u32, 12)
}

/// One step of the format information BCH code (generator 0x537).
pub open spec fn format_step(rem: u16) -> u16 {
    (rem << 1u16) ^ (if (rem >> 9u16) & 1u16 != 0u16 { 0x537u16 } else { 0u16 })
}

/// `steps` steps of the format information BCH code from `rem`.
pub open spec fn format_rem(rem: u16, steps: nat) -> u16
    decreases steps,
{
    if steps == 0 {
        rem
    } else {
        format_rem(format_step(rem), (steps - 1) as nat)
    }
}

/// The 15-bit format information word for an error correction level's format bits and a mask,
/// BCH protected and masked with 0x5412.
pub open spec fn format_info_word(ecc_bits: u8, mask: u8) -> u16 {
    let data = ((ecc_bits as u16) << 3u16) | (mask as u16);
    ((data << 10u16) | format_rem(data, 10)) ^ 0x5412u16
}

/// Colour of a cell after the three finders are drawn on a light matrix.
spec fn finders_dark(size: int, x: int, y: int) -> bool {
    if in_finder(size, x, y) {
        finder_dark(size, x, y)
    } else {
        false
    }
}

/// Timing cells with coordinate along the line below `k`.
spec fn timing_upto(k: int, x: int, y: int) -> bool {
    (x == 6 && 8 <= y < k) || (y == 6 && 8 <= x < k)
}

/// Version information cells whose bit index is below `k`.
spec fn version_upto(version: nat, k: int, x: int, y: int) -> bool {
    in_version_area(version, x, y) && version_bit_index(version, x, y) < k
}

/// Format reservation: the cells next to the upper left finder whose index is below `k`.
spec fn format_near_upto(k: int, x: int, y: int) -> bool {
    (x == 8 && 0 <= y < k && y != 6) || (y == 8 && 0 <= x < k && x != 6)
}

/// Computes the version information word of `version`.
fn version_information_bits(version: Version) -> (r: u32)
    ensures
        r == version_info_word(version@),
{
    let data = version.value() as u32;
    let mut rem = data;
    let mut step: u32 = 0;
    while step < 12
        invariant
            step <= 12,
            data == version@ as u32,
            version_rem(rem, (12 - step) as nat) == version_rem(data, 12),
        decreases 12 - step,
    {
        let top = (rem >> 11u32) & 1u32;
        rem = (rem << 1u32) ^ (if top != 0 { 0x1F25u32 } else { 0u32 });
        step = step + 1;
    }
    (data << 12u32) | rem
}

/// Computes the format information word for `ecc` and `mask`.
pub(crate) fn format_information_bits(ecc: ErrorCorrectionLevel, mask: MaskPattern) -> (r: u16)
    ensures
        r == format_info_word(ecc_format_bits(ecc), mask@),
{
    let data = ((ecc.format_bits() as u16) << 3u16) | (mask.value() as u16);
    let mut rem = data;
    let mut step: u16 = 0;
    while step < 10
        invariant
            step <= 10,
            data == ((ecc_format_bits(ecc) as u16) << 3u16) | (mask@ as u16),
            format_rem(rem, (10 - step) as nat) == format_rem(data, 10),
        decreases 10 - step,
    {
        let top = (rem >> 9u16) & 1u16;
        rem = (rem << 1u16) ^ (if top != 0 { 0x537u16 } else { 0u16 });
        step = step + 1;
    }
    ((data << 10u16) | rem) ^ 0x5412u16
}

/// Bit `k` of a codeword sequence, most significant bit of each byte first.
pub open spec fn codeword_bit(codewords: Seq<u8>, k: int) -> bool {
    byte_bit(codewords[k / 8], k % 8)
}

/// `grid` with every free cell (not in `taken`) that mask `mask` selects flipped.
pub open spec fn masked(grid: Seq<Seq<bool>>, taken: Seq<Seq<bool>>, mask: u8) -> Seq<Seq<bool>> {
    Seq::new(
        grid.len(),
        |y: int|
            Seq::new(
                grid[y].len(),
                |x: int| grid[y][x] != (!taken[y][x] && mask_flips(mask, x, y)),
            ),
    )
}

/// Masking is its own inverse: applying the same mask twice gives the matrix back.
pub proof fn lemma_mask_involution(grid: Seq<Seq<bool>>, taken: Seq<Seq<bool>>, mask: u8)
    ensures
        masked(masked(grid, taken, mask), taken, mask) == grid,
{
    let once = masked(grid, taken, mask);
    let twice = masked(once, taken, mask);
    assert forall|y: int| 0 <= y < grid.len() implies #[trigger] twice[y] == grid[y] by {
        assert(twice[y] =~= grid[y]);
    }
    assert(twice =~= grid);
}

/// Whether mask pattern `mask` flips the data module at (x, y).
pub(crate) fn mask_bit(mask: MaskPattern, x: usize, y: usize) -> (r: bool)
    requires
        x + y <= usize::MAX,
        x * y <= usize::MAX,
    ensures
        r == mask_flips(mask@, x as int, y as int),
{
    let value = mask.value();
    if value == 0 {
        (x + y) % 2 == 0
    } else if value == 1 {
        y % 2 == 0
    } else if value == 2 {
        x % 3 == 0
    } else if value == 3 {
        (x + y) % 3 == 0
    } else if value == 4 {
        (y / 2 + x / 3) % 2 == 0
    } else if value == 5 {
        let product = x * y;
        product % 2 + product % 3 == 0
    } else if value == 6 {
        let product = x * y;
        (product % 2 + product % 3) % 2 == 0
    } else if value == 7 {
        let product = x * y;
        ((x + y) % 2 + product % 3) % 2 == 0
    } else {
        false
    }
}

/// The function-module grid of a version: which cells belong to patterns or reserved areas.
pub open spec fn function_grid(v: nat) -> Seq<Seq<bool>> {
    Seq::new((v * 4 + 17) as nat, |y: int| Seq::new((v * 4 + 17) as nat, |x: int| is_function(v, x, y)))
}

/// A cell of the symbol before masking: its function colour, or the codeword bit placed
/// on it in zigzag order (light beyond the last bit).
pub open spec fn unmasked_cell(v: nat, codewords: Seq<u8>, x: int, y: int) -> bool {
    let size = (v * 4 + 17) as int;
    if is_function(v, x, y) {
        function_dark(v, version_info_word(v as u8), x, y)
    } else {
        let k = free_before(function_grid(v), size, zig_index(size, x, y));
        k < codewords.len() * 8 && codeword_bit(codewords, k as int)
    }
}

/// A cell of the finished symbol: format bits where they go, elsewhere the unmasked cell
/// flipped where the mask selects a data cell.
pub open spec fn symbol_cell(v: nat, ecc_bits: u8, mask: u8, codewords: Seq<u8>, x: int, y: int) -> bool {
    let size = (v * 4 + 17) as int;
    if format_cell(size, x, y) >= 0 {
        bit16(format_info_word(ecc_bits, mask), format_cell(size, x, y))
    } else {
        unmasked_cell(v, codewords, x, y) != (!is_function(v, x, y) && mask_flips(mask, x, y))
    }
}

/// The finished symbol of version `v` with the given format, mask and codewords.
pub open spec fn symbol(v: nat, ecc_bits: u8, mask: u8, codewords: Seq<u8>) -> Seq<Seq<bool>> {
    Seq::new(
        (v * 4 + 17) as nat,
        |y: int| Seq::new((v * 4 + 17) as nat, |x: int| symbol_cell(v, ecc_bits, mask, codewords, x, y)),
    )
}

/// The segment of `len` characters fits version `v` at level `ecc`.
pub open spec fn fits(v: nat, mode: DataMode, len: nat, ecc: ErrorCorrectionLevel) -> bool {
    segment_bits_len(v as u8, mode, len) <= data_codewords(v, ecc) * 8
}

/// The smallest version from `lo` to `hi` that the segment fits, if any.
pub open spec fn first_fit(lo: nat, hi: nat, mode: DataMode, len: nat, ecc: ErrorCorrectionLevel) -> Option<nat>
    decreases hi + 1 - lo,
{
    if lo > hi {
        None
    } else if fits(lo, mode, len, ecc) {
        Some(lo)
    } else {
        first_fit(lo + 1, hi, mode, len, ecc)
    }
}

/// The highest level from `ecc` upwards, step by step, whose data capacity still holds
/// `total` bits.
pub open spec fn boosted(v: nat, total: nat, ecc: ErrorCorrectionLevel) -> ErrorCorrectionLevel {
    let room = |level: ErrorCorrectionLevel| total <= data_codewords(v, level) * 8;
    match ecc {
        ErrorCorrectionLevel::Low => if !room(ErrorCorrectionLevel::Medium) {
            ErrorCorrectionLevel::Low
        } else if !room(ErrorCorrectionLevel::Quartile) {
            ErrorCorrectionLevel::Medium
        } else if !room(ErrorCorrectionLevel::High) {
            ErrorCorrectionLevel::Quartile
        } else {
            ErrorCorrectionLevel::High
        },
        ErrorCorrectionLevel::Medium => if !room(ErrorCorrectionLevel::Quartile) {
            ErrorCorrectionLevel::Medium
        } else if !room(ErrorCorrectionLevel::High) {
            ErrorCorrectionLevel::Quartile
        } else {
            ErrorCorrectionLevel::High
        },
        ErrorCorrectionLevel::Quartile => if !room(ErrorCorrectionLevel::High) {
            ErrorCorrectionLevel::Quartile
        } else {
            ErrorCorrectionLevel::High
        },
        ErrorCorrectionLevel::High => ErrorCorrectionLevel::High,
    }
}

/// The level the options lead to for `total` bits in version `v`.
pub open spec fn chosen_level(v: nat, total: nat, options: EncodeOptions) -> ErrorCorrectionLevel {
    if options.boost_error_correction {
        boosted(v, total, options.min_error_correction)
    } else {
        options.min_error_correction
    }
}

/// Column 6 belongs to the timing pattern and the finders throughout.
proof fn lemma_column_six(v: nat, y: int)
    requires
        1 <= v <= 40,
        0 <= y < v * 4 + 17,
    ensures
        is_function(v, 6, y),
{
}

/// Two square grids that agree on every cell are equal.
proof fn lemma_grid_ext(g: Seq<Seq<bool>>, h: Seq<Seq<bool>>, size: int)
    requires
        square(g, size),
        square(h, size),
        forall|x: int, y: int| 0 <= x < size && 0 <= y < size ==> #[trigger] g[y][x] == h[y][x],
    ensures
        g == h,
{
    assert forall|y: int| 0 <= y < size implies #[trigger] g[y] == h[y] by {
        assert forall|x: int| 0 <= x < size implies g[y][x] == h[y][x] by {
            assert(g[y][x] == h[y][x]);
        }
        assert(g[y] =~= h[y]);
    }
    assert(g =~= h);
}

/// The smallest version between the bounds that holds the segment at the weakest level.
fn choose_version(mode: DataMode, data_len: usize, options: EncodeOptions) -> (r: Result<Version, QrError>)
    requires
        options.min_version@ <= options.max_version@,
    ensures
        match first_fit(options.min_version@ as nat, options.max_version@ as nat, mode, data_len as nat, options.min_error_correction) {
            Some(v) => r matches Ok(version) && version@ == v,
            None => r == Err::<Version, QrError>(QrError::DataTooLong),
        },
{
    let lo = options.min_version.value();
    let hi = options.max_version.value();
    if data_len > 65535 {
        proof {
            lemma_too_long_never_fits(lo as nat, hi as nat, mode, data_len as nat, options.min_error_correction);
        }
        return Err(QrError::DataTooLong);
    }
    let mut value: u8 = lo;
    while value <= hi
        invariant
            1 <= lo <= value,
            hi <= 40,
            value <= hi + 1,
            lo == options.min_version@,
            hi == options.max_version@,
            data_len <= 65535,
            first_fit(lo as nat, hi as nat, mode, data_len as nat, options.min_error_correction)
                == first_fit(value as nat, hi as nat, mode, data_len as nat, options.min_error_correction),
        decreases hi + 1 - value,
    {
        let version = match Version::new(value) {
            Ok(version) => version,
            Err(e) => {
                return Err(e);
            },
        };
        let total_bits = total_bit_len(version, mode, data_len);
        let capacity = num_data_codewords(version, options.min_error_correction) * 8;
        if total_bits <= capacity {
            return Ok(version);
        }
        value = value + 1;
    }
    Err(QrError::DataTooLong)
}

/// A segment of more than 65535 characters fits no version.
proof fn lemma_too_long_never_fits(lo: nat, hi: nat, mode: DataMode, len: nat, ecc: ErrorCorrectionLevel)
    requires
        1 <= lo,
        hi <= 40,
        len > 65535,
    ensures
        first_fit(lo, hi, mode, len, ecc) is None,
    decreases hi + 1 - lo,
{
    if lo <= hi {
        lemma_tables(ecc, lo);
        lemma_too_long_never_fits(lo + 1, hi, mode, len, ecc);
    }
}

/// The error correction level: the options' weakest level, raised while the payload fits.
fn choose_error_correction(version: Version, total_bits: usize, options: EncodeOptions) -> (r: ErrorCorrectionLevel)
    ensures
        r == chosen_level(version@ as nat, total_bits as nat, options),
{
    let mut ecc = options.min_error_correction;
    if !options.boost_error_correction {
        return ecc;
    }
    loop
        invariant
            options.boost_error_correction,
            boosted(version@ as nat, total_bits as nat, ecc) == boosted(version@ as nat, total_bits as nat, options.min_error_correction),
        ensures
            ecc == boosted(version@ as nat, total_bits as nat, options.min_error_correction),
        decreases 3 - ecc_ordinal(ecc),
    {
        match ecc.higher() {
            Some(next) => {
                if total_bits <= num_data_codewords(version, next) * 8 {
                    ecc = next;
                } else {
                    break;
                }
            },
            None => {
                break;
            },
        }
    }
    ecc
}

/// The mask is the fixed one of the options, or else the first of the eight masks with the
/// lowest penalty on the finished symbol.
pub open spec fn mask_chosen(
    fixed: Option<MaskPattern>,
    v: nat,
    ecc_bits: u8,
    codewords: Seq<u8>,
    mask: u8,
) -> bool {
    let size = (v * 4 + 17) as int;
    match fixed {
        Some(m) => mask == m@,
        None => mask < 8 && (forall|m: u8| m < 8 ==> penalty(symbol(v, ecc_bits, mask, codewords), size) <= #[trigger] penalty(symbol(v, ecc_bits, m, codewords), size))
            && (forall|m: u8| m < mask ==> #[trigger] penalty(symbol(v, ecc_bits, m, codewords), size) > penalty(symbol(v, ecc_bits, mask, codewords), size)),
    }
}

/// What encoding `data` in `mode` gives once version `v` is chosen: a character count too
/// large for its field or a byte the mode cannot carry is refused; otherwise the code has
/// that version, the level the options lead to, data codewords holding the padded segment,
/// and the finished symbol of their interleaved blocks under the chosen mask.
pub open spec fn encoded_as(v: nat, mode: DataMode, data: Seq<u8>, options: EncodeOptions, r: Result<QrCode, QrError>) -> bool {
    let total = segment_bits_len(v as u8, mode, data.len());
    let ecc = chosen_level(v, total, options);
    if data.len() >= two_pow(count_bits(mode, v as u8) as nat) {
        r == Err::<QrCode, QrError>(QrError::DataTooLong)
    } else if !valid_for(mode, data) {
        r == Err::<QrCode, QrError>(QrError::InvalidCharacter)
    } else {
        r matches Ok(code) && code.wf() && code.spec_version()@ == v && code.spec_error_correction() == ecc
            && exists|cw: Seq<u8>|
            cw.len() == data_codewords(v, ecc) && bits_of_bytes(cw) == padded_bits(
                segment_bits(v as u8, mode, data),
                data_codewords(v, ecc) * 8,
            ) && #[trigger] code.spec_modules()@ == symbol(v, ecc_format_bits(ecc), code.spec_mask()@, interleaved(v, ecc, cw))
                && mask_chosen(options.mask, v, ecc_format_bits(ecc), interleaved(v, ecc, cw), code.spec_mask()@)
    }
}

/// The contract of encoding: the version bounds must be ordered, some version between them
/// must hold the segment at the weakest level, and then the smallest such version is used.
pub open spec fn encode_result(mode: DataMode, data: Seq<u8>, options: EncodeOptions, r: Result<QrCode, QrError>) -> bool {
    if options.min_version@ > options.max_version@ {
        r == Err::<QrCode, QrError>(QrError::InvalidVersion(options.min_version@))
    } else {
        match first_fit(options.min_version@ as nat, options.max_version@ as nat, mode, data.len(), options.min_error_correction) {
            None => r == Err::<QrCode, QrError>(QrError::DataTooLong),
            Some(v) => encoded_as(v, mode, data, options, r),
        }
    }
}

/// The matrix under construction and the set of cells already given to function patterns.
struct MatrixBuilder {
    version: Version,
    size: usize,
    modules: BitGrid,
    function_modules: BitGrid,
}

impl MatrixBuilder {
    /// Both grids are well formed and as large as the version says.
    spec fn wf(&self) -> bool {
        &&& self.modules.wf()
        &&& self.function_modules.wf()
        &&& self.modules.spec_size() == self.size
        &&& self.function_modules.spec_size() == self.size
        &&& self.size == version_size(self.version@)
        &&& 1 <= self.version@ <= 40
    }

    /// Module (x, y) of the matrix.
    spec fn dark(&self, x: int, y: int) -> bool {
        self.modules@[y][x]
    }

    /// Whether (x, y) has been taken by a function pattern.
    spec fn taken(&self, x: int, y: int) -> bool {
        self.function_modules@[y][x]
    }

    /// An empty matrix for `version`: every cell light and free.
    fn new(version: Version) -> (r: Self)
        ensures
            r.wf(),
            r.version == version,
            forall|x: int, y: int|
                0 <= x < r.size && 0 <= y < r.size ==> !r.dark(x, y) && !r.taken(x, y),
    {
        let size = version.size();
        let _ = version.value();
        proof {
            assert(size * size + 63 <= 177 * 177 + 63) by (nonlinear_arith)
                requires
                    size <= 177,
            ;
        }
        let r = MatrixBuilder {
            version,
            size,
            modules: BitGrid::new(size),
            function_modules: BitGrid::new(size),
        };
        r
    }

    /// Masks the matrix and draws the format bits: with the fixed mask, or else with the first
    /// of the eight masks of lowest penalty. Returns the mask used.
    fn finish_symbol(
        &mut self,
        ecc: ErrorCorrectionLevel,
        fixed: Option<MaskPattern>,
        Ghost(base): Ghost<Seq<Seq<bool>>>,
        Ghost(cw): Ghost<Seq<u8>>,
    ) -> (r: MaskPattern)
        requires
            old(self).wf(),
            old(self).function_modules@ == function_grid(old(self).version@ as nat),
            old(self).modules@ == base,
            forall|x: int, y: int| 0 <= x < old(self).size && 0 <= y < old(self).size ==> #[trigger] base[y][x] == unmasked_cell(old(self).version@ as nat, cw, x, y),
        ensures
            final(self).wf(),
            final(self).version == old(self).version,
            final(self).size == old(self).size,
            final(self).modules@ == symbol(old(self).version@ as nat, ecc_format_bits(ecc), r@, cw),
            mask_chosen(fixed, old(self).version@ as nat, ecc_format_bits(ecc), cw, r@),
    {
        let ghost v = self.version@ as nat;
        let ghost size = self.size as int;
        proof {
            self.modules.lemma_shape();
        }
        let ecc_bits = ecc.format_bits();
        let mask = match fixed {
            Some(mask) => {
                self.apply_mask(mask);
                let ghost taken_before = self.function_modules@;
                self.draw_format_bits(ecc, mask);
                proof {
                    self.function_modules.lemma_shape();
                    lemma_format_keeps_taken(v, taken_before, self.function_modules@);
                    self.modules.lemma_shape();
                    lemma_finished_from(v, ecc_bits, mask@, cw, base, base, self.function_modules@, self.modules@);
                }
                mask
            },
            None => {
                let mut best_mask = MaskPattern::new(0).unwrap();
                let mut best_score: usize = usize::MAX;
                let mut value: u8 = 0;
                while value < 8
                    invariant
                        self.wf(),
                        self.version == old(self).version,
                        self.size == size,
                        size == v * 4 + 17,
                        1 <= v <= 40,
                        v == old(self).version@ as nat,
                        self.function_modules@ == function_grid(v),
                        square(base, size),
                        forall|x: int, y: int| 0 <= x < size && 0 <= y < size ==> #[trigger] base[y][x] == unmasked_cell(v, cw, x, y),
                        forall|x: int, y: int| 0 <= x < size && 0 <= y < size && format_cell(size, x, y) < 0 ==> #[trigger] self.modules@[y][x] == base[y][x],
                        value <= 8,
                        best_mask@ < 8,
                        value == 0 ==> best_mask@ == 0 && best_score == usize::MAX,
                        value > 0 ==> best_mask@ < value && best_score == penalty(symbol(v, ecc_bits, best_mask@, cw), size),
                        ecc_bits == ecc_format_bits(ecc),
                        forall|m: u8| m < value ==> best_score <= #[trigger] penalty(symbol(v, ecc_bits, m, cw), size),
                        forall|m: u8| m < best_mask@ ==> #[trigger] penalty(symbol(v, ecc_bits, m, cw), size) > best_score,
                    decreases 8 - value,
                {
                    let mask = MaskPattern::new(value).unwrap();
                    proof {
                    self.modules.lemma_shape();
                }
                let ghost before = self.modules@;
                    self.apply_mask(mask);
                    let ghost taken_before = self.function_modules@;
                    self.draw_format_bits(ecc, mask);
                    proof {
                        self.function_modules.lemma_shape();
                        lemma_format_keeps_taken(v, taken_before, self.function_modules@);
                        self.modules.lemma_shape();
                        lemma_finished_from(v, ecc_bits, mask@, cw, base, before, self.function_modules@, self.modules@);
                    }
                    let score = self.penalty_score();
                    if score < best_score {
                        best_score = score;
                        best_mask = mask;
                    }
                    let ghost finished = self.modules@;
                    self.apply_mask(mask);
                    proof {
                        lemma_unmask(v, ecc_bits, mask@, cw, base, finished, self.function_modules@, self.modules@);
                    }
                    value = value + 1;
                }
                proof {
                    self.modules.lemma_shape();
                }
                let ghost before = self.modules@;
                self.apply_mask(best_mask);
                let ghost taken_before = self.function_modules@;
                self.draw_format_bits(ecc, best_mask);
                proof {
                    self.function_modules.lemma_shape();
                    lemma_format_keeps_taken(v, taken_before, self.function_modules@);
                    self.modules.lemma_shape();
                    lemma_finished_from(v, ecc_bits, best_mask@, cw, base, before, self.function_modules@, self.modules@);
                }
                best_mask
            },
        };
        mask
    }

    /// Gives (x, y) to a function pattern with the given colour.
    fn set_function(&mut self, x: usize, y: usize, dark: bool)
        requires
            old(self).wf(),
            x < old(self).size,
            y < old(self).size,
        ensures
            final(self).wf(),
            final(self).version == old(self).version,
            final(self).size == old(self).size,
            final(self).modules@ == old(self).modules@.update(
                y as int,
                old(self).modules@[y as int].update(x as int, dark),
            ),
            final(self).function_modules@ == old(self).function_modules@.update(
                y as int,
                old(self).function_modules@[y as int].update(x as int, true),
            ),
    {
        self.modules.set(x, y, dark);
        self.function_modules.set(x, y, true);
    }

    /// Draws a finder pattern with its separator centred at (center_x, center_y), clipped to the matrix.
    fn draw_finder(&mut self, center_x: usize, center_y: usize)
        requires
            old(self).wf(),
            center_x < old(self).size,
            center_y < old(self).size,
        ensures
            final(self).wf(),
            final(self).version == old(self).version,
            final(self).size == old(self).size,
            forall|x: int, y: int|
                0 <= x < old(self).size && 0 <= y < old(self).size ==> #[trigger] final(self).modules@[y][x] == if near(center_x as int, center_y as int, x, y, 4) {
                        finder_color(center_x as int, center_y as int, x, y)
                    } else {
                        old(self).dark(x, y)
                    },
            forall|x: int, y: int|
                0 <= x < old(self).size && 0 <= y < old(self).size ==> #[trigger] final(self).function_modules@[y][x] == (near(center_x as int, center_y as int, x, y, 4)
                        || old(self).taken(x, y)),
    {
        let ghost m0 = self.modules@;
        let ghost f0 = self.function_modules@;
        let ghost cx = center_x as int;
        let ghost cy = center_y as int;
        let size = self.size;
        let mut dy: isize = -4;
        while dy <= 4
            invariant
                self.wf(),
                self.version == old(self).version,
                self.size == size,
                size <= 177,
                center_x < size,
                center_y < size,
                -4 <= dy <= 5,
                m0 == old(self).modules@,
                f0 == old(self).function_modules@,
                cx == center_x as int,
                cy == center_y as int,
                forall|x: int, y: int|
                    0 <= x < size && 0 <= y < size ==> #[trigger] self.modules@[y][x] == if near(cx, cy, x, y, 4) && y - cy < dy {
                            finder_color(cx, cy, x, y)
                        } else {
                            m0[y][x]
                        },
                forall|x: int, y: int|
                    0 <= x < size && 0 <= y < size ==> #[trigger] self.function_modules@[y][x] == ((near(cx, cy, x, y, 4) && y - cy < dy) || f0[y][x]),
            decreases 5 - dy,
        {
            let mut dx: isize = -4;
            while dx <= 4
                invariant
                    self.wf(),
                    self.version == old(self).version,
                    self.size == size,
                    size <= 177,
                    center_x < size,
                    center_y < size,
                    -4 <= dy <= 4,
                    -4 <= dx <= 5,
                    m0 == old(self).modules@,
                    f0 == old(self).function_modules@,
                    cx == center_x as int,
                    cy == center_y as int,
                    forall|x: int, y: int|
                        0 <= x < size && 0 <= y < size ==> #[trigger] self.modules@[y][x] == if near(cx, cy, x, y, 4) && (y - cy < dy || (y
                                - cy == dy && x - cx < dx)) {
                                finder_color(cx, cy, x, y)
                            } else {
                                m0[y][x]
                            },
                    forall|x: int, y: int|
                        0 <= x < size && 0 <= y < size ==> #[trigger] self.function_modules@[y][x] == ((near(cx, cy, x, y, 4) && (y - cy < dy || (y
                                - cy == dy && x - cx < dx))) || f0[y][x]),
                decreases 5 - dx,
            {
                let x = center_x as isize + dx;
                let y = center_y as isize + dy;
                let ghost before_m = self.modules@;
                let ghost before_f = self.function_modules@;
                let adx = if dx < 0 {
                    -dx
                } else {
                    dx
                };
                let ady = if dy < 0 {
                    -dy
                } else {
                    dy
                };
                let dist = if adx >= ady {
                    adx
                } else {
                    ady
                };
                let inside = x >= 0 && y >= 0 && x < size as isize && y < size as isize;
                proof {
                    self.modules.lemma_shape();
                    self.function_modules.lemma_shape();
                    assert(dist == cheb(x - cx, y - cy));
                }
                if inside {
                    self.set_function(x as usize, y as usize, dist != 2 && dist != 4);
                }
                proof {
                    self.modules.lemma_shape();
                    self.function_modules.lemma_shape();
                    let nx = dx + 1;
                    assert forall|xx: int, yy: int| 0 <= xx < size && 0 <= yy < size implies {
                        &&& self.dark(xx, yy) == if near(cx, cy, xx, yy, 4) && (yy - cy < dy || (yy
                            - cy == dy && xx - cx < nx)) {
                            finder_color(cx, cy, xx, yy)
                        } else {
                            m0[yy][xx]
                        }
                        &&& self.taken(xx, yy) == ((near(cx, cy, xx, yy, 4) && (yy - cy < dy || (yy
                            - cy == dy && xx - cx < nx))) || f0[yy][xx])
                    } by {
                        assert(before_m[yy][xx] == if near(cx, cy, xx, yy, 4) && (yy - cy < dy || (yy
                            - cy == dy && xx - cx < dx)) {
                            finder_color(cx, cy, xx, yy)
                        } else {
                            m0[yy][xx]
                        });
                        assert(before_f[yy][xx] == ((near(cx, cy, xx, yy, 4) && (yy - cy < dy || (yy
                            - cy == dy && xx - cx < dx))) || f0[yy][xx]));
                        if inside && xx == x && yy == y {
                            assert(self.modules@[yy][xx] == (dist != 2 && dist != 4));
                            assert(self.function_modules@[yy][xx]);
                        } else {
                            assert(self.modules@[yy][xx] == before_m[yy][xx]);
                            assert(self.function_modules@[yy][xx] == before_f[yy][xx]);
                            assert(!(yy - cy == dy && xx - cx == dx));
                        }
                    }
                }
                dx = dx + 1;
            }
            dy = dy + 1;
        }
    }

    /// Draws an alignment pattern centred at (center_x, center_y).
    fn draw_alignment(&mut self, center_x: usize, center_y: usize)
        requires
            old(self).wf(),
            2 <= center_x,
            center_x + 2 < old(self).size,
            2 <= center_y,
            center_y + 2 < old(self).size,
        ensures
            final(self).wf(),
            final(self).version == old(self).version,
            final(self).size == old(self).size,
            painted(
                final(self).modules@,
                old(self).modules@,
                old(self).size as int,
                |x: int, y: int| near(center_x as int, center_y as int, x, y, 2),
                |x: int, y: int| alignment_color(center_x as int, center_y as int, x, y),
            ),
            painted(
                final(self).function_modules@,
                old(self).function_modules@,
                old(self).size as int,
                |x: int, y: int| near(center_x as int, center_y as int, x, y, 2),
                |x: int, y: int| true,
            ),
    {
        let ghost m0 = self.modules@;
        let ghost f0 = self.function_modules@;
        let ghost cx = center_x as int;
        let ghost cy = center_y as int;
        let ghost size = self.size as int;
        let ghost color = |x: int, y: int| alignment_color(cx, cy, x, y);
        let ghost light = |x: int, y: int| true;
        proof {
            self.modules.lemma_shape();
            self.function_modules.lemma_shape();
        }
        let mut dy: i32 = -2;
        while dy <= 2
            invariant
                self.wf(),
                self.version == old(self).version,
                self.size == size,
                size <= 177,
                2 <= cx,
                cx + 2 < size,
                2 <= cy,
                cy + 2 < size,
                cx == center_x,
                cy == center_y,
                color == (|x: int, y: int| alignment_color(cx, cy, x, y)),
                light == (|x: int, y: int| true),
                -2 <= dy <= 3,
                m0 == old(self).modules@,
                f0 == old(self).function_modules@,
                painted(self.modules@, m0, size, |x: int, y: int| near(cx, cy, x, y, 2) && y - cy < dy, color),
                painted(self.function_modules@, f0, size, |x: int, y: int| near(cx, cy, x, y, 2) && y - cy < dy, light),
            decreases 3 - dy,
        {
            let mut dx: i32 = -2;
            while dx <= 2
                invariant
                    self.wf(),
                    self.version == old(self).version,
                    self.size == size,
                    size <= 177,
                    2 <= cx,
                    cx + 2 < size,
                    2 <= cy,
                    cy + 2 < size,
                    cx == center_x,
                    cy == center_y,
                    color == (|x: int, y: int| alignment_color(cx, cy, x, y)),
                    light == (|x: int, y: int| true),
                    -2 <= dy <= 2,
                    -2 <= dx <= 3,
                    m0 == old(self).modules@,
                    f0 == old(self).function_modules@,
                    painted(self.modules@, m0, size, |x: int, y: int| near(cx, cy, x, y, 2) && (y - cy < dy || (y - cy == dy && x - cx < dx)), color),
                    painted(self.function_modules@, f0, size, |x: int, y: int| near(cx, cy, x, y, 2) && (y - cy < dy || (y - cy == dy && x - cx < dx)), light),
                decreases 3 - dx,
            {
                let adx = if dx < 0 {
                    -dx
                } else {
                    dx
                };
                let ady = if dy < 0 {
                    -dy
                } else {
                    dy
                };
                let dist = if adx >= ady {
                    adx
                } else {
                    ady
                };
                let x = (center_x as isize + dx as isize) as usize;
                let y = (center_y as isize + dy as isize) as usize;
                let ghost before_m = self.modules@;
                let ghost before_f = self.function_modules@;
                proof {
                    self.modules.lemma_shape();
                    self.function_modules.lemma_shape();
                    assert(dist == cheb(x - cx, y - cy));
                }
                self.set_function(x, y, dist != 1);
                proof {
                    let done = |xx: int, yy: int| near(cx, cy, xx, yy, 2) && (yy - cy < dy || (yy - cy == dy && xx - cx < dx));
                    let done2 = |xx: int, yy: int| near(cx, cy, xx, yy, 2) && (yy - cy < dy || (yy - cy == dy && xx - cx < dx + 1));
                    lemma_paint_cell(before_m, self.modules@, m0, size, done, done2, color, x as int, y as int);
                    lemma_paint_cell(before_f, self.function_modules@, f0, size, done, done2, light, x as int, y as int);
                }
                dx = dx + 1;
            }
            proof {
                crate::layout::lemma_paint_same(self.modules@, m0, size,
                    |x: int, y: int| near(cx, cy, x, y, 2) && (y - cy < dy || (y - cy == dy && x - cx < 3)),
                    |x: int, y: int| near(cx, cy, x, y, 2) && y - cy < dy + 1, color, color);
                crate::layout::lemma_paint_same(self.function_modules@, f0, size,
                    |x: int, y: int| near(cx, cy, x, y, 2) && (y - cy < dy || (y - cy == dy && x - cx < 3)),
                    |x: int, y: int| near(cx, cy, x, y, 2) && y - cy < dy + 1, light, light);
            }
            dy = dy + 1;
        }
        proof {
            crate::layout::lemma_paint_same(self.modules@, m0, size,
                |x: int, y: int| near(cx, cy, x, y, 2) && y - cy < 3,
                |x: int, y: int| near(center_x as int, center_y as int, x, y, 2), color,
                |x: int, y: int| alignment_color(center_x as int, center_y as int, x, y));
            crate::layout::lemma_paint_same(self.function_modules@, f0, size,
                |x: int, y: int| near(cx, cy, x, y, 2) && y - cy < 3,
                |x: int, y: int| near(center_x as int, center_y as int, x, y, 2), light,
                |x: int, y: int| true);
        }
    }

    /// Draws every alignment pattern of the version that does not collide with a finder.
    fn draw_alignment_patterns(&mut self)
        requires
            old(self).wf(),
        ensures
            final(self).wf(),
            final(self).version == old(self).version,
            final(self).size == old(self).size,
            forall|x: int, y: int|
                0 <= x < old(self).size && 0 <= y < old(self).size ==> #[trigger] final(self).modules@[y][x] == if in_alignment(old(self).version@ as nat, x, y) {
                        alignment_dark(old(self).version@ as nat, x, y)
                    } else {
                        old(self).dark(x, y)
                    },
            forall|x: int, y: int|
                0 <= x < old(self).size && 0 <= y < old(self).size ==> #[trigger] final(self).function_modules@[y][x] == (in_alignment(old(self).version@ as nat, x, y)
                        || old(self).taken(x, y)),
    {
        let ghost v = self.version@ as nat;
        let ghost m0 = self.modules@;
        let ghost f0 = self.function_modules@;
        let size = self.size;
        let positions = alignment_pattern_positions(self.version);
        let count = positions_len(&positions);
        let ghost p = alignment_positions(v);
        proof {
            lemma_alignment_positions(v);
            assert forall|x: int, y: int| 0 <= x < size && 0 <= y < size implies !alignment_drawn(v, 0, 0, x, y) && !alignment_drawn_dark(v, 0, 0, x, y) by {
                lemma_alignment_drawn_row(v, 0, x, y);
            }
        }
        let mut i: usize = 0;
        while i < count
            invariant
                self.wf(),
                self.version == old(self).version,
                self.size == size,
                size == version_size(self.version@),
                v == self.version@ as nat,
                1 <= v <= 40,
                p == alignment_positions(v),
                position_items(positions) == p,
                count == p.len(),
                i <= count,
                m0 == old(self).modules@,
                f0 == old(self).function_modules@,
                forall|x: int, y: int|
                    0 <= x < size && 0 <= y < size ==> #[trigger] self.modules@[y][x] == if alignment_drawn(v, i as int, 0, x, y) {
                            alignment_drawn_dark(v, i as int, 0, x, y)
                        } else {
                            m0[y][x]
                        },
                forall|x: int, y: int|
                    0 <= x < size && 0 <= y < size ==> #[trigger] self.function_modules@[y][x] == (alignment_drawn(v, i as int, 0, x, y) || f0[y][x]),
            decreases count - i,
        {
            let px = positions_get(&positions, i);
            let mut j: usize = 0;
            while j < count
                invariant
                    self.wf(),
                    self.version == old(self).version,
                    self.size == size,
                    size == version_size(self.version@),
                    v == self.version@ as nat,
                    1 <= v <= 40,
                    p == alignment_positions(v),
                    position_items(positions) == p,
                    count == p.len(),
                    i < count,
                    j <= count,
                    px == p[i as int],
                    m0 == old(self).modules@,
                    f0 == old(self).function_modules@,
                    forall|x: int, y: int|
                        0 <= x < size && 0 <= y < size ==> #[trigger] self.modules@[y][x] == if alignment_drawn(v, i as int, j as int, x, y) {
                                alignment_drawn_dark(v, i as int, j as int, x, y)
                            } else {
                                m0[y][x]
                            },
                    forall|x: int, y: int|
                        0 <= x < size && 0 <= y < size ==> #[trigger] self.function_modules@[y][x] == (alignment_drawn(v, i as int, j as int, x, y) || f0[y][x]),
                decreases count - j,
            {
                let py = positions_get(&positions, j);
                proof {
                    lemma_alignment_positions(v);
                    assert(6 <= p[i as int] <= v * 4 + 10);
                    assert(6 <= p[j as int] <= v * 4 + 10);
                }
                let cx = px as usize;
                let cy = py as usize;
                let is_corner = (cx == 6 && (cy == 6 || cy == size - 7)) || (cx == size - 7 && cy == 6);
                let ghost before_m = self.modules@;
                let ghost before_f = self.function_modules@;
                if !is_corner {
                    self.draw_alignment(cx, cy);
                }
                proof {
                    assert forall|x: int, y: int| 0 <= x < size && 0 <= y < size implies {
                        &&& #[trigger] self.modules@[y][x] == if alignment_drawn(v, i as int, j + 1, x, y) {
                            alignment_drawn_dark(v, i as int, j + 1, x, y)
                        } else {
                            m0[y][x]
                        }
                        &&& self.function_modules@[y][x] == (alignment_drawn(v, i as int, j + 1, x, y) || f0[y][x])
                    } by {
                        lemma_alignment_drawn_step(v, i as int, j as int, x, y);
                        assert(before_m[y][x] == if alignment_drawn(v, i as int, j as int, x, y) {
                            alignment_drawn_dark(v, i as int, j as int, x, y)
                        } else {
                            m0[y][x]
                        });
                        assert(before_f[y][x] == (alignment_drawn(v, i as int, j as int, x, y) || f0[y][x]));
                    }
                }
                j = j + 1;
            }
            proof {
                assert forall|x: int, y: int| 0 <= x < size && 0 <= y < size implies {
                    &&& #[trigger] self.modules@[y][x] == if alignment_drawn(v, i + 1, 0, x, y) {
                        alignment_drawn_dark(v, i + 1, 0, x, y)
                    } else {
                        m0[y][x]
                    }
                    &&& self.function_modules@[y][x] == (alignment_drawn(v, i + 1, 0, x, y) || f0[y][x])
                } by {
                    lemma_alignment_drawn_row(v, i as int, x, y);
                }
            }
            i = i + 1;
        }
        proof {
            assert forall|x: int, y: int| 0 <= x < size && 0 <= y < size implies {
                &&& #[trigger] self.modules@[y][x] == if in_alignment(v, x, y) {
                    alignment_dark(v, x, y)
                } else {
                    m0[y][x]
                }
                &&& self.function_modules@[y][x] == (in_alignment(v, x, y) || f0[y][x])
            } by {
                lemma_alignment_drawn_row(v, i as int, x, y);
            }
        }
    }


    /// Reserves (x, y) for format information without drawing it.
    fn reserve(&mut self, x: usize, y: usize)
        requires
            old(self).wf(),
            x < old(self).size,
            y < old(self).size,
        ensures
            final(self).wf(),
            final(self).version == old(self).version,
            final(self).size == old(self).size,
            final(self).modules@ == old(self).modules@,
            final(self).function_modules@ == old(self).function_modules@.update(
                y as int,
                old(self).function_modules@[y as int].update(x as int, true),
            ),
    {
        self.function_modules.set(x, y, true);
    }

    /// Draws finders, timing and alignment patterns, the dark module and the version information,
    /// and reserves the format areas, on a light and free matrix.
    fn draw_function_patterns(&mut self)
        requires
            old(self).wf(),
            forall|x: int, y: int|
                0 <= x < old(self).size && 0 <= y < old(self).size ==> !old(self).dark(x, y) && !old(self).taken(x, y),
        ensures
            final(self).wf(),
            final(self).version == old(self).version,
            final(self).size == old(self).size,
            forall|x: int, y: int|
                0 <= x < old(self).size && 0 <= y < old(self).size ==> #[trigger] final(self).modules@[y][x] == function_dark(
                        old(self).version@ as nat,
                        version_info_word(old(self).version@),
                        x,
                        y,
                    ),
            forall|x: int, y: int|
                0 <= x < old(self).size && 0 <= y < old(self).size ==> #[trigger] final(self).function_modules@[y][x] == is_function(old(self).version@ as nat, x, y),
    {
        let ghost v = self.version@ as nat;
        let size = self.size;
        let ghost s = size as int;
        proof {
            assert(21 <= size <= 177);
        }
        self.draw_finder(3, 3);
        self.draw_finder(size - 4, 3);
        self.draw_finder(3, size - 4);
        let mut index: usize = 8;
        while index < size - 8
            invariant
                self.wf(),
                self.version == old(self).version,
                self.size == size,
                s == size,
                v == self.version@ as nat,
                size == v * 4 + 17,
                21 <= size <= 177,
                8 <= index <= size - 8,
                forall|x: int, y: int|
                    0 <= x < size && 0 <= y < size ==> #[trigger] self.modules@[y][x] == if timing_upto(index as int, x, y) {
                            timing_dark(s, x, y)
                        } else {
                            finders_dark(s, x, y)
                        },
                forall|x: int, y: int|
                    0 <= x < size && 0 <= y < size ==> #[trigger] self.function_modules@[y][x] == (timing_upto(index as int, x, y) || in_finder(s, x, y)),
            decreases size - index,
        {
            let dark = index % 2 == 0;
            let ghost m_before = self.modules@;
            let ghost f_before = self.function_modules@;
            proof {
                self.modules.lemma_shape();
                self.function_modules.lemma_shape();
            }
            self.set_function(6, index, dark);
            let ghost m_mid = self.modules@;
            let ghost f_mid = self.function_modules@;
            proof {
                self.modules.lemma_shape();
                self.function_modules.lemma_shape();
            }
            self.set_function(index, 6, dark);
            proof {
                self.modules.lemma_shape();
                self.function_modules.lemma_shape();
                assert forall|x: int, y: int| 0 <= x < size && 0 <= y < size implies {
                    &&& #[trigger] self.modules@[y][x] == if timing_upto(index + 1, x, y) {
                        timing_dark(s, x, y)
                    } else {
                        finders_dark(s, x, y)
                    }
                    &&& self.function_modules@[y][x] == (timing_upto(index + 1, x, y) || in_finder(s, x, y))
                } by {
                    assert(m_before[y][x] == if timing_upto(index as int, x, y) {
                        timing_dark(s, x, y)
                    } else {
                        finders_dark(s, x, y)
                    });
                    assert(f_before[y][x] == (timing_upto(index as int, x, y) || in_finder(s, x, y)));
                    if x == index && y == 6 {
                    } else if x == 6 && y == index {
                        assert(self.modules@[y][x] == m_mid[y][x]);
                        assert(self.function_modules@[y][x] == f_mid[y][x]);
                    } else {
                        assert(self.modules@[y][x] == m_mid[y][x]);
                        assert(m_mid[y][x] == m_before[y][x]);
                        assert(self.function_modules@[y][x] == f_mid[y][x]);
                        assert(f_mid[y][x] == f_before[y][x]);
                    }
                }
            }
            index = index + 1;
        }
        let ghost m_timing = self.modules@;
        let ghost f_timing = self.function_modules@;
        self.draw_alignment_patterns();
        let ghost m_align = self.modules@;
        let mut index: usize = 0;
        while index <= 8
            invariant
                self.wf(),
                self.version == old(self).version,
                self.size == size,
                s == size,
                v == self.version@ as nat,
                size == v * 4 + 17,
                21 <= size <= 177,
                index <= 9,
                self.modules@ == m_align,
                forall|x: int, y: int|
                    0 <= x < size && 0 <= y < size ==> #[trigger] self.function_modules@[y][x] == (format_near_upto(index as int, x, y) || in_alignment(v, x, y) || timing_upto(s - 8, x, y) || in_finder(s, x, y)),
            decreases 9 - index,
        {
            let ghost f_before = self.function_modules@;
            proof {
                self.function_modules.lemma_shape();
            }
            if index != 6 {
                self.reserve(8, index);
                proof {
                    self.function_modules.lemma_shape();
                }
                self.reserve(index, 8);
            }
            proof {
                self.function_modules.lemma_shape();
                assert forall|x: int, y: int| 0 <= x < size && 0 <= y < size implies #[trigger] self.function_modules@[y][x] == (format_near_upto(index + 1, x, y) || in_alignment(v, x, y) || timing_upto(s - 8, x, y) || in_finder(s, x, y)) by {
                    assert(f_before[y][x] == (format_near_upto(index as int, x, y) || in_alignment(v, x, y) || timing_upto(s - 8, x, y) || in_finder(s, x, y)));
                    if !((x == 8 && y == index) || (x == index && y == 8)) || index == 6 {
                        assert(self.function_modules@[y][x] == f_before[y][x]);
                    }
                }
            }
            index = index + 1;
        }
        let mut index: usize = 0;
        while index < 8
            invariant
                self.wf(),
                self.version == old(self).version,
                self.size == size,
                s == size,
                v == self.version@ as nat,
                size == v * 4 + 17,
                21 <= size <= 177,
                index <= 8,
                self.modules@ == m_align,
                forall|x: int, y: int|
                    0 <= x < size && 0 <= y < size ==> #[trigger] self.function_modules@[y][x] == ((y == 8 && s - index <= x) || format_near_upto(9, x, y) || in_alignment(v, x, y) || timing_upto(s - 8, x, y) || in_finder(s, x, y)),
            decreases 8 - index,
        {
            let ghost f_before = self.function_modules@;
            proof {
                self.function_modules.lemma_shape();
            }
            self.reserve(size - 1 - index, 8);
            proof {
                self.function_modules.lemma_shape();
                assert forall|x: int, y: int| 0 <= x < size && 0 <= y < size implies #[trigger] self.function_modules@[y][x] == ((y == 8 && s - (index + 1) <= x) || format_near_upto(9, x, y) || in_alignment(v, x, y) || timing_upto(s - 8, x, y) || in_finder(s, x, y)) by {
                    assert(f_before[y][x] == ((y == 8 && s - index <= x) || format_near_upto(9, x, y) || in_alignment(v, x, y) || timing_upto(s - 8, x, y) || in_finder(s, x, y)));
                    if !(x == size - 1 - index && y == 8) {
                        assert(self.function_modules@[y][x] == f_before[y][x]);
                    }
                }
            }
            index = index + 1;
        }
        let mut index: usize = 0;
        while index < 7
            invariant
                self.wf(),
                self.version == old(self).version,
                self.size == size,
                s == size,
                v == self.version@ as nat,
                size == v * 4 + 17,
                21 <= size <= 177,
                index <= 7,
                self.modules@ == m_align,
                forall|x: int, y: int|
                    0 <= x < size && 0 <= y < size ==> #[trigger] self.function_modules@[y][x] == ((x == 8 && s - index <= y) || (y == 8 && s - 8 <= x) || format_near_upto(9, x, y) || in_alignment(v, x, y) || timing_upto(s - 8, x, y) || in_finder(s, x, y)),
            decreases 7 - index,
        {
            let ghost f_before = self.function_modules@;
            proof {
                self.function_modules.lemma_shape();
            }
            self.reserve(8, size - 1 - index);
            proof {
                self.function_modules.lemma_shape();
                assert forall|x: int, y: int| 0 <= x < size && 0 <= y < size implies #[trigger] self.function_modules@[y][x] == ((x == 8 && s - (index + 1) <= y) || (y == 8 && s - 8 <= x) || format_near_upto(9, x, y) || in_alignment(v, x, y) || timing_upto(s - 8, x, y) || in_finder(s, x, y)) by {
                    assert(f_before[y][x] == ((x == 8 && s - index <= y) || (y == 8 && s - 8 <= x) || format_near_upto(9, x, y) || in_alignment(v, x, y) || timing_upto(s - 8, x, y) || in_finder(s, x, y)));
                    if !(x == 8 && y == size - 1 - index) {
                        assert(self.function_modules@[y][x] == f_before[y][x]);
                    }
                }
            }
            index = index + 1;
        }
        let ghost f_format = self.function_modules@;
        proof {
            self.function_modules.lemma_shape();
        }
        self.reserve(8, size - 8);
        let ghost f_mid = self.function_modules@;
        proof {
            self.function_modules.lemma_shape();
            self.modules.lemma_shape();
            assert(self.modules@ == m_align);
        }
        self.set_function(8, size - 8, true);
        proof {
            self.modules.lemma_shape();
            self.function_modules.lemma_shape();
            assert forall|x: int, y: int| 0 <= x < size && 0 <= y < size implies {
                &&& #[trigger] self.function_modules@[y][x] == (in_format_area(s, x, y) || in_alignment(v, x, y) || in_timing(s, x, y) || in_finder(s, x, y))
                &&& self.modules@[y][x] == if is_dark_module(s, x, y) { true } else { m_align[y][x] }
            } by {
                assert(f_format[y][x] == ((x == 8 && s - 7 <= y) || (y == 8 && s - 8 <= x) || format_near_upto(9, x, y) || in_alignment(v, x, y) || timing_upto(s - 8, x, y) || in_finder(s, x, y)));
                if !(x == 8 && y == size - 8) {
                    assert(self.function_modules@[y][x] == f_mid[y][x]);
                    assert(f_mid[y][x] == f_format[y][x]);
                    assert(self.modules@[y][x] == m_align[y][x]);
                }
            }
        }
        let ghost m_dark = self.modules@;
        let ghost f_dark = self.function_modules@;
        proof {
            assert forall|x: int, y: int| 0 <= x < size && 0 <= y < size implies {
                &&& #[trigger] m_dark[y][x] == if is_dark_module(s, x, y) {
                    true
                } else if in_alignment(v, x, y) {
                    alignment_dark(v, x, y)
                } else if in_timing(s, x, y) {
                    timing_dark(s, x, y)
                } else {
                    finders_dark(s, x, y)
                }
                &&& f_dark[y][x] == (in_format_area(s, x, y) || in_alignment(v, x, y) || in_timing(s, x, y) || in_finder(s, x, y))
            } by {
                assert(m_timing[y][x] == if timing_upto(s - 8, x, y) {
                    timing_dark(s, x, y)
                } else {
                    finders_dark(s, x, y)
                });
                assert(m_align[y][x] == if in_alignment(v, x, y) {
                    alignment_dark(v, x, y)
                } else {
                    m_timing[y][x]
                });
                if !is_dark_module(s, x, y) {
                    assert(m_dark[y][x] == m_align[y][x]);
                }
            }
        }
        if self.version.value() >= 7 {
            let bits = version_information_bits(self.version);
            let mut bit: usize = 0;
            while bit < 18
                invariant
                    self.wf(),
                    self.version == old(self).version,
                    self.size == size,
                    s == size,
                    v == self.version@ as nat,
                    7 <= v <= 40,
                    size == v * 4 + 17,
                    bits == version_info_word(self.version@),
                    bit <= 18,
                    forall|x: int, y: int|
                        0 <= x < size && 0 <= y < size ==> #[trigger] self.modules@[y][x] == if version_upto(v, bit as int, x, y) {
                                bit_of(bits, version_bit_index(v, x, y))
                            } else {
                                m_dark[y][x]
                            },
                    forall|x: int, y: int|
                        0 <= x < size && 0 <= y < size ==> #[trigger] self.function_modules@[y][x] == (version_upto(v, bit as int, x, y) || f_dark[y][x]),
                decreases 18 - bit,
            {
                let dark = ((bits >> (bit as u32)) & 1u32) != 0u32;
                let x = size - 11 + (bit % 3);
                let y = bit / 3;
                let ghost before_m = self.modules@;
                let ghost before_f = self.function_modules@;
                proof {
                    assert(version_bit_index(v, x as int, y as int) == bit);
                    assert(version_bit_index(v, y as int, x as int) == bit);
                }
                proof {
                    self.modules.lemma_shape();
                    self.function_modules.lemma_shape();
                }
                self.set_function(x, y, dark);
                let ghost m_mid = self.modules@;
                let ghost f_mid = self.function_modules@;
                proof {
                    self.modules.lemma_shape();
                    self.function_modules.lemma_shape();
                }
                self.set_function(y, x, dark);
                proof {
                    self.modules.lemma_shape();
                    self.function_modules.lemma_shape();
                    assert forall|xx: int, yy: int| 0 <= xx < size && 0 <= yy < size implies {
                        &&& #[trigger] self.modules@[yy][xx] == if version_upto(v, bit + 1, xx, yy) {
                            bit_of(bits, version_bit_index(v, xx, yy))
                        } else {
                            m_dark[yy][xx]
                        }
                        &&& self.function_modules@[yy][xx] == (version_upto(v, bit + 1, xx, yy) || f_dark[yy][xx])
                    } by {
                        assert(before_m[yy][xx] == if version_upto(v, bit as int, xx, yy) {
                            bit_of(bits, version_bit_index(v, xx, yy))
                        } else {
                            m_dark[yy][xx]
                        });
                        assert(before_f[yy][xx] == (version_upto(v, bit as int, xx, yy) || f_dark[yy][xx]));
                        if xx == y && yy == x {
                        } else if xx == x && yy == y {
                            assert(self.modules@[yy][xx] == m_mid[yy][xx]);
                            assert(self.function_modules@[yy][xx] == f_mid[yy][xx]);
                        } else {
                            assert(self.modules@[yy][xx] == m_mid[yy][xx]);
                            assert(self.function_modules@[yy][xx] == f_mid[yy][xx]);
                            assert(m_mid[yy][xx] == before_m[yy][xx]);
                            assert(f_mid[yy][xx] == before_f[yy][xx]);
                            if in_version_area(v, xx, yy) {
                                assert(version_bit_index(v, xx, yy) != bit);
                            }
                        }
                    }
                }
                bit = bit + 1;
            }
        }
        proof {
            assert forall|x: int, y: int| 0 <= x < size && 0 <= y < size implies {
                &&& #[trigger] self.modules@[y][x] == function_dark(v, version_info_word(self.version@), x, y)
                &&& self.function_modules@[y][x] == is_function(v, x, y)
            } by {
                assert(m_dark[y][x] == if is_dark_module(s, x, y) {
                    true
                } else if in_alignment(v, x, y) {
                    alignment_dark(v, x, y)
                } else if in_timing(s, x, y) {
                    timing_dark(s, x, y)
                } else {
                    finders_dark(s, x, y)
                });
                assert(f_dark[y][x] == (in_format_area(s, x, y) || in_alignment(v, x, y) || in_timing(s, x, y) || in_finder(s, x, y)));
                if v < 7 {
                    assert(!in_version_area(v, x, y));
                }
            }
        }
    }


    /// Places the bits of `codewords`, most significant first, on the free cells in zigzag order;
    /// free cells beyond the last bit keep their colour.
    fn draw_codewords(&mut self, codewords: &[u8])
        requires
            old(self).wf(),
            codewords.len() <= 4096,
        ensures
            final(self).wf(),
            final(self).version == old(self).version,
            final(self).size == old(self).size,
            final(self).function_modules@ == old(self).function_modules@,
            forall|x: int, y: int|
                0 <= x < old(self).size && 0 <= y < old(self).size ==> #[trigger] final(self).modules@[y][x] == if x != 6 && !old(self).taken(x, y)
                    && free_before(old(self).function_modules@, old(self).size as int, zig_index(old(self).size as int, x, y)) < codewords.len() * 8 {
                        codeword_bit(codewords@, free_before(old(self).function_modules@, old(self).size as int, zig_index(old(self).size as int, x, y)) as int)
                    } else {
                        old(self).dark(x, y)
                    },
    {
        let ghost m0 = self.modules@;
        let ghost taken = self.function_modules@;
        let size = self.size;
        let ghost s = size as int;
        let nbits = codewords.len() * 8;
        proof {
            assert(21 <= size <= 177);
            assert((size - 1) * size <= 177 * 177) by (nonlinear_arith)
                requires
                    size <= 177,
            ;
            self.modules.lemma_shape();
            self.function_modules.lemma_shape();
        }
        let total = (size - 1) * size;
        let mut bit_index: usize = 0;
        let mut t: usize = 0;
        while t < total
            invariant
                self.wf(),
                self.version == old(self).version,
                self.size == size,
                s == size,
                21 <= size <= 177,
                size % 2 == 1,
                total == zig_len(s),
                nbits == codewords.len() * 8,
                nbits <= 4096 * 8,
                t <= total,
                taken == self.function_modules@,
                taken == old(self).function_modules@,
                m0 == old(self).modules@,
                bit_index == if free_before(taken, s, t as int) < nbits {
                    free_before(taken, s, t as int) as int
                } else {
                    nbits as int
                },
                forall|x: int, y: int|
                    0 <= x < size && 0 <= y < size ==> #[trigger] self.modules@[y][x] == if x != 6 && zig_index(s, x, y) < t && !taken[y][x]
                        && free_before(taken, s, zig_index(s, x, y)) < nbits {
                            codeword_bit(codewords@, free_before(taken, s, zig_index(s, x, y)) as int)
                        } else {
                            m0[y][x]
                        },
            decreases total - t,
        {
            proof {
                lemma_zig_cell(s, t as int);
                self.modules.lemma_shape();
                self.function_modules.lemma_shape();
            }
            let pair = t / (2 * size);
            let offset = t % (2 * size);
            let right = if size - 1 - 2 * pair > 6 {
                size - 1 - 2 * pair
            } else {
                size - 2 - 2 * pair
            };
            let x = right - offset % 2;
            let vertical = offset / 2;
            let upward = ((right + 1) / 2) % 2 == 0;
            let y = if upward {
                size - 1 - vertical
            } else {
                vertical
            };
            proof {
                assert(x == zig_x(s, t as int));
                assert(y == zig_y(s, t as int));
            }
            let ghost before = self.modules@;
            if !self.function_modules.get(x, y) {
                if bit_index < nbits {
                    let byte = codewords[bit_index / 8];
                    let shift = (7 - bit_index % 8) as u8;
                    let bit = (byte >> shift) & 1u8 != 0u8;
                    self.modules.set(x, y, bit);
                    bit_index = bit_index + 1;
                }
            }
            proof {
                self.modules.lemma_shape();
                assert forall|xx: int, yy: int| 0 <= xx < size && 0 <= yy < size implies #[trigger] self.modules@[yy][xx] == if xx != 6 && zig_index(s, xx, yy) < t + 1 && !taken[yy][xx]
                    && free_before(taken, s, zig_index(s, xx, yy)) < nbits {
                    codeword_bit(codewords@, free_before(taken, s, zig_index(s, xx, yy)) as int)
                } else {
                    m0[yy][xx]
                } by {
                    assert(before[yy][xx] == if xx != 6 && zig_index(s, xx, yy) < t && !taken[yy][xx]
                        && free_before(taken, s, zig_index(s, xx, yy)) < nbits {
                        codeword_bit(codewords@, free_before(taken, s, zig_index(s, xx, yy)) as int)
                    } else {
                        m0[yy][xx]
                    });
                    if xx == x && yy == y {
                    } else {
                        assert(self.modules@[yy][xx] == before[yy][xx]);
                        if xx != 6 {
                            lemma_zig_index(s, xx, yy);
                            assert(zig_index(s, xx, yy) != t);
                        }
                    }
                }
            }
            t = t + 1;
        }
        proof {
            assert forall|x: int, y: int| 0 <= x < size && 0 <= y < size && x != 6 implies zig_index(s, x, y) < t by {
                lemma_zig_index(s, x, y);
            }
        }
    }

    /// Flips every free cell that `mask` selects.
    fn apply_mask(&mut self, mask: MaskPattern)
        requires
            old(self).wf(),
        ensures
            final(self).wf(),
            final(self).version == old(self).version,
            final(self).size == old(self).size,
            final(self).function_modules@ == old(self).function_modules@,
            final(self).modules@ == masked(old(self).modules@, old(self).function_modules@, mask@),
    {
        let ghost m0 = self.modules@;
        let size = self.size;
        proof {
            self.modules.lemma_shape();
            self.function_modules.lemma_shape();
        }
        let mut y: usize = 0;
        while y < size
            invariant
                self.wf(),
                self.version == old(self).version,
                self.size == size,
                size <= 177,
                y <= size,
                self.function_modules@ == old(self).function_modules@,
                m0 == old(self).modules@,
                square(m0, size as int),
                forall|xx: int, yy: int|
                    0 <= xx < size && 0 <= yy < size ==> #[trigger] self.modules@[yy][xx] == if yy < y {
                            masked(m0, self.function_modules@, mask@)[yy][xx]
                        } else {
                            m0[yy][xx]
                        },
            decreases size - y,
        {
            let mut x: usize = 0;
            while x < size
                invariant
                    self.wf(),
                    self.version == old(self).version,
                    self.size == size,
                    size <= 177,
                    y < size,
                    x <= size,
                    self.function_modules@ == old(self).function_modules@,
                    m0 == old(self).modules@,
                    square(m0, size as int),
                    forall|xx: int, yy: int|
                        0 <= xx < size && 0 <= yy < size ==> #[trigger] self.modules@[yy][xx] == if yy < y || (yy == y && xx < x) {
                                masked(m0, self.function_modules@, mask@)[yy][xx]
                            } else {
                                m0[yy][xx]
                            },
                decreases size - x,
            {
                let ghost before = self.modules@;
                proof {
                    self.modules.lemma_shape();
                    self.function_modules.lemma_shape();
                }
                proof {
                    assert(x * y <= 177 * 177) by (nonlinear_arith)
                        requires
                            x < 177,
                            y < 177,
                    ;
                }
                if !self.function_modules.get(x, y) && mask_bit(mask, x, y) {
                    self.modules.invert(x, y);
                }
                proof {
                    self.modules.lemma_shape();
                    assert forall|xx: int, yy: int| 0 <= xx < size && 0 <= yy < size implies #[trigger] self.modules@[yy][xx] == if yy < y || (yy == y && xx < x + 1) {
                        masked(m0, self.function_modules@, mask@)[yy][xx]
                    } else {
                        m0[yy][xx]
                    } by {
                        assert(before[yy][xx] == if yy < y || (yy == y && xx < x) {
                            masked(m0, self.function_modules@, mask@)[yy][xx]
                        } else {
                            m0[yy][xx]
                        });
                        if !(xx == x && yy == y) {
                            assert(self.modules@[yy][xx] == before[yy][xx]);
                        }
                    }
                }
                x = x + 1;
            }
            y = y + 1;
        }
        proof {
            self.modules.lemma_shape();
            let target = masked(m0, self.function_modules@, mask@);
            assert forall|yy: int| 0 <= yy < size implies #[trigger] self.modules@[yy] == target[yy] by {
                assert forall|xx: int| 0 <= xx < size implies self.modules@[yy][xx] == target[yy][xx] by {
                    assert(self.modules@[yy][xx] == masked(m0, self.function_modules@, mask@)[yy][xx]);
                }
                assert(self.modules@[yy] =~= target[yy]);
            }
            assert(self.modules@ =~= target);
        }
    }


    /// Draws both copies of the format information for `ecc` and `mask`.
    fn draw_format_bits(&mut self, ecc: ErrorCorrectionLevel, mask: MaskPattern)
        requires
            old(self).wf(),
        ensures
            final(self).wf(),
            final(self).version == old(self).version,
            final(self).size == old(self).size,
            forall|x: int, y: int|
                0 <= x < old(self).size && 0 <= y < old(self).size ==> #[trigger] final(self).modules@[y][x] == if format_cell(old(self).size as int, x, y) >= 0 {
                        bit16(format_info_word(ecc_format_bits(ecc), mask@), format_cell(old(self).size as int, x, y))
                    } else {
                        old(self).dark(x, y)
                    },
            forall|x: int, y: int|
                0 <= x < old(self).size && 0 <= y < old(self).size ==> #[trigger] final(self).function_modules@[y][x] == (format_cell(old(self).size as int, x, y) >= 0 || old(self).taken(x, y)),
    {
        let bits = format_information_bits(ecc, mask);
        let ghost m0 = self.modules@;
        let ghost f0 = self.function_modules@;
        let size = self.size;
        let ghost s = size as int;
        let mut index: usize = 0;
        while index < 15
            invariant
                self.wf(),
                self.version == old(self).version,
                self.size == size,
                s == size,
                21 <= size <= 177,
                index <= 15,
                m0 == old(self).modules@,
                f0 == old(self).function_modules@,
                bits == format_info_word(ecc_format_bits(ecc), mask@),
                forall|x: int, y: int|
                    0 <= x < size && 0 <= y < size ==> #[trigger] self.modules@[y][x] == if 0 <= format_cell(s, x, y) < index {
                            bit16(bits, format_cell(s, x, y))
                        } else {
                            m0[y][x]
                        },
                forall|x: int, y: int|
                    0 <= x < size && 0 <= y < size ==> #[trigger] self.function_modules@[y][x] == (0 <= format_cell(s, x, y) < index || f0[y][x]),
            decreases 15 - index,
        {
            let dark = ((bits >> (index as u16)) & 1u16) != 0u16;
            let x1: usize = if index <= 7 {
                8
            } else if index == 8 {
                7
            } else {
                14 - index
            };
            let y1: usize = if index <= 5 {
                index
            } else if index == 6 {
                7
            } else {
                8
            };
            let x2: usize = if index < 8 {
                size - 1 - index
            } else {
                8
            };
            let y2: usize = if index < 8 {
                8
            } else {
                size - 15 + index
            };
            proof {
                assert(format_cell(s, x1 as int, y1 as int) == index);
                assert(format_cell(s, x2 as int, y2 as int) == index);
                self.modules.lemma_shape();
                self.function_modules.lemma_shape();
            }
            let ghost before_m = self.modules@;
            let ghost before_f = self.function_modules@;
            self.set_function(x1, y1, dark);
            let ghost mid_m = self.modules@;
            let ghost mid_f = self.function_modules@;
            proof {
                self.modules.lemma_shape();
                self.function_modules.lemma_shape();
            }
            self.set_function(x2, y2, dark);
            proof {
                self.modules.lemma_shape();
                self.function_modules.lemma_shape();
                assert forall|x: int, y: int| 0 <= x < size && 0 <= y < size implies {
                    &&& #[trigger] self.modules@[y][x] == if 0 <= format_cell(s, x, y) < index + 1 {
                        bit16(bits, format_cell(s, x, y))
                    } else {
                        m0[y][x]
                    }
                    &&& self.function_modules@[y][x] == (0 <= format_cell(s, x, y) < index + 1 || f0[y][x])
                } by {
                    assert(before_m[y][x] == if 0 <= format_cell(s, x, y) < index {
                        bit16(bits, format_cell(s, x, y))
                    } else {
                        m0[y][x]
                    });
                    assert(before_f[y][x] == (0 <= format_cell(s, x, y) < index || f0[y][x]));
                    if x == x2 && y == y2 {
                    } else if x == x1 && y == y1 {
                        assert(self.modules@[y][x] == mid_m[y][x]);
                        assert(self.function_modules@[y][x] == mid_f[y][x]);
                    } else {
                        assert(self.modules@[y][x] == mid_m[y][x]);
                        assert(self.function_modules@[y][x] == mid_f[y][x]);
                        assert(mid_m[y][x] == before_m[y][x]);
                        assert(mid_f[y][x] == before_f[y][x]);
                        assert(format_cell(s, x, y) != index);
                    }
                }
            }
            index = index + 1;
        }
        proof {
            assert forall|x: int, y: int| 0 <= x < size && 0 <= y < size implies format_cell(s, x, y) < 15 by {
            }
        }
    }


    /// The mask penalty of the current matrix.
    fn penalty_score(&self) -> (r: usize)
        requires
            self.wf(),
        ensures
            r == penalty(self.modules@, self.size as int),
    {
        let size = self.size;
        proof {
            assert(21 <= size <= 177);
        }
        let mut score: usize = 0;
        let mut y: usize = 0;
        while y < size
            invariant
                self.wf(),
                self.size == size,
                21 <= size <= 177,
                y <= size,
                score == rows_penalty(self.modules@, y as int),
                score <= y * (41 * 177),
            decreases size - y,
        {
            let line = row_penalty(&self.modules, y);
            proof {
                assert(y * (41 * 177) + line <= (y + 1) * (41 * 177)) by (nonlinear_arith)
                    requires
                        line <= 41 * 177,
                ;
                assert((y + 1) * (41 * 177) <= 177 * (41 * 177)) by (nonlinear_arith)
                    requires
                        y + 1 <= 177,
                ;
            }
            score = score + line;
            y = y + 1;
        }
        let mut x: usize = 0;
        while x < size
            invariant
                self.wf(),
                self.size == size,
                21 <= size <= 177,
                x <= size,
                score == rows_penalty(self.modules@, size as int) + columns_penalty(self.modules@, x as int),
                score <= (size + x) * (41 * 177),
            decreases size - x,
        {
            let line = column_penalty(&self.modules, x);
            proof {
                assert((size + x) * (41 * 177) + line <= (size + x + 1) * (41 * 177)) by (nonlinear_arith)
                    requires
                        line <= 41 * 177,
                ;
                assert((size + x + 1) * (41 * 177) <= 354 * (41 * 177)) by (nonlinear_arith)
                    requires
                        size + x + 1 <= 354,
                ;
            }
            score = score + line;
            x = x + 1;
        }
        let blocks = block_count(&self.modules);
        proof {
            assert((size + size) * (41 * 177) <= 354 * (41 * 177)) by (nonlinear_arith)
                requires
                    size <= 177,
            ;
        }
        score = score + 3 * blocks;
        proof {
            assert(size * size <= 177 * 177) by (nonlinear_arith)
                requires
                    size <= 177,
            ;
        }
        let total = size * size;
        let dark = self.modules.count_dark();
        proof {
            assert(total <= 177 * 177) by (nonlinear_arith)
                requires
                    size <= 177,
                    total == size * size,
            ;
            assert(total >= 1) by (nonlinear_arith)
                requires
                    size >= 21,
                    total == size * size,
            ;
        }
        let imbalance = if dark * 20 >= total * 10 {
            dark * 20 - total * 10
        } else {
            total * 10 - dark * 20
        };
        let steps = (imbalance + total - 1) / total;
        proof {
            assert(steps <= imbalance + total) by (nonlinear_arith)
                requires
                    total >= 1,
                    steps == (imbalance + total - 1) as int / total as int,
            ;
        }
        let balance = if steps >= 1 {
            (steps - 1) * 10
        } else {
            0
        };
        score + balance
    }

}


/// The version found by `first_fit` lies between the bounds and holds the segment, which is
/// then no longer than 65535 characters.
pub(crate) proof fn lemma_first_fit(lo: nat, hi: nat, mode: DataMode, len: nat, ecc: ErrorCorrectionLevel)
    requires
        1 <= lo,
        hi <= 40,
    ensures
        first_fit(lo, hi, mode, len, ecc) matches Some(v) ==> lo <= v <= hi && fits(v, mode, len, ecc) && len <= 65535,
    decreases hi + 1 - lo,
{
    if lo <= hi {
        lemma_tables(ecc, lo);
        lemma_first_fit(lo + 1, hi, mode, len, ecc);
    }
}

/// The raised level still holds the bits that the starting level holds.
pub(crate) proof fn lemma_boosted_fits(v: nat, total: nat, ecc: ErrorCorrectionLevel)
    requires
        total <= data_codewords(v, ecc) * 8,
    ensures
        total <= data_codewords(v, boosted(v, total, ecc)) * 8,
{
}

/// Drawing the format bits takes no new cells: they are already function cells.
proof fn lemma_format_keeps_taken(v: nat, before: Seq<Seq<bool>>, after: Seq<Seq<bool>>)
    requires
        1 <= v <= 40,
        before == function_grid(v),
        square(after, (v * 4 + 17) as int),
        forall|x: int, y: int| 0 <= x < v * 4 + 17 && 0 <= y < v * 4 + 17 ==> #[trigger] after[y][x] == (format_cell((v * 4 + 17) as int, x, y) >= 0 || before[y][x]),
    ensures
        after == function_grid(v),
{
    let size = (v * 4 + 17) as int;
    assert forall|x: int, y: int| 0 <= x < size && 0 <= y < size implies #[trigger] after[y][x] == function_grid(v)[y][x] by {
        assert(after[y][x] == (format_cell(size, x, y) >= 0 || before[y][x]));
    }
    lemma_grid_ext(after, function_grid(v), size);
}

/// Masking a grid and drawing the format bits over it gives the finished symbol, when the
/// grid agrees with the unmasked symbol outside the format cells.
proof fn lemma_finished_from(
    v: nat,
    ecc_bits: u8,
    mask: u8,
    cw: Seq<u8>,
    base: Seq<Seq<bool>>,
    before: Seq<Seq<bool>>,
    taken: Seq<Seq<bool>>,
    after: Seq<Seq<bool>>,
)
    requires
        1 <= v <= 40,
        taken == function_grid(v),
        square(before, (v * 4 + 17) as int),
        square(after, (v * 4 + 17) as int),
        forall|x: int, y: int| 0 <= x < v * 4 + 17 && 0 <= y < v * 4 + 17 ==> #[trigger] base[y][x] == unmasked_cell(v, cw, x, y),
        forall|x: int, y: int| 0 <= x < v * 4 + 17 && 0 <= y < v * 4 + 17 && format_cell((v * 4 + 17) as int, x, y) < 0 ==> #[trigger] before[y][x] == base[y][x],
        forall|x: int, y: int| 0 <= x < v * 4 + 17 && 0 <= y < v * 4 + 17 ==> #[trigger] after[y][x] == if format_cell((v * 4 + 17) as int, x, y) >= 0 {
                bit16(format_info_word(ecc_bits, mask), format_cell((v * 4 + 17) as int, x, y))
            } else {
                masked(before, taken, mask)[y][x]
            },
    ensures
        after == symbol(v, ecc_bits, mask, cw),
{
    let size = (v * 4 + 17) as int;
    let target = symbol(v, ecc_bits, mask, cw);
    assert forall|x: int, y: int| 0 <= x < size && 0 <= y < size implies #[trigger] after[y][x] == target[y][x] by {
        assert(after[y][x] == if format_cell(size, x, y) >= 0 {
            bit16(format_info_word(ecc_bits, mask), format_cell(size, x, y))
        } else {
            masked(before, taken, mask)[y][x]
        });
        if format_cell(size, x, y) < 0 {
            assert(before[y][x] == base[y][x]);
            assert(base[y][x] == unmasked_cell(v, cw, x, y));
        }
    }
    lemma_grid_ext(after, target, size);
}

/// Masking the finished symbol again restores the unmasked symbol outside the format cells.
proof fn lemma_unmask(
    v: nat,
    ecc_bits: u8,
    mask: u8,
    cw: Seq<u8>,
    base: Seq<Seq<bool>>,
    finished: Seq<Seq<bool>>,
    taken: Seq<Seq<bool>>,
    after: Seq<Seq<bool>>,
)
    requires
        1 <= v <= 40,
        taken == function_grid(v),
        finished == symbol(v, ecc_bits, mask, cw),
        after == masked(finished, taken, mask),
        forall|x: int, y: int| 0 <= x < v * 4 + 17 && 0 <= y < v * 4 + 17 ==> #[trigger] base[y][x] == unmasked_cell(v, cw, x, y),
    ensures
        square(after, (v * 4 + 17) as int),
        forall|x: int, y: int| 0 <= x < v * 4 + 17 && 0 <= y < v * 4 + 17 && format_cell((v * 4 + 17) as int, x, y) < 0 ==> #[trigger] after[y][x] == base[y][x],
{
    let size = (v * 4 + 17) as int;
    assert forall|x: int, y: int| 0 <= x < size && 0 <= y < size && format_cell(size, x, y) < 0 implies #[trigger] after[y][x] == base[y][x] by {
        assert(base[y][x] == unmasked_cell(v, cw, x, y));
    }
}

/// Encodes `data` in `mode` with `options`.
fn encode_payload(mode: DataMode, data: &[u8], options: EncodeOptions) -> (r: Result<QrCode, QrError>)
    ensures
        encode_result(mode, data@, options, r),
{
    if options.min_version.value() > options.max_version.value() {
        return Err(QrError::InvalidVersion(options.min_version.value()));
    }
    let version = match choose_version(mode, data.len(), options) {
        Ok(version) => version,
        Err(e) => {
            return Err(e);
        },
    };
    let ghost v = version@ as nat;
    proof {
        lemma_first_fit(options.min_version@ as nat, options.max_version@ as nat, mode, data@.len(), options.min_error_correction);
    }
    let total_bits = total_bit_len(version, mode, data.len());
    let ecc = choose_error_correction(version, total_bits, options);
    proof {
        lemma_boosted_fits(v, total_bits as nat, options.min_error_correction);
    }
    let data_codewords = match build_data_codewords(version, ecc, mode, data) {
        Ok(bytes) => bytes,
        Err(e) => {
            return Err(e);
        },
    };
    let codewords = add_error_correction_and_interleave(version, ecc, data_codewords.as_slice());
    let ghost cw = codewords@;
    let mut matrix = MatrixBuilder::new(version);
    matrix.draw_function_patterns();
    let ghost patterns = matrix.modules@;
    proof {
        lemma_shape(v, ecc);
        matrix.function_modules.lemma_shape();
        lemma_grid_ext(matrix.function_modules@, function_grid(v), (v * 4 + 17) as int);
    }
    matrix.draw_codewords(codewords.as_slice());
    let ghost size = matrix.size as int;
    let ghost base = matrix.modules@;
    proof {
        matrix.modules.lemma_shape();
        assert forall|x: int, y: int| 0 <= x < size && 0 <= y < size implies #[trigger] base[y][x] == unmasked_cell(v, cw, x, y) by {
            if x == 6 {
                lemma_column_six(v, y);
            }
            assert(patterns[y][x] == function_dark(v, version_info_word(version@), x, y));
        }
    }
    let mask = matrix.finish_symbol(ecc, options.mask, Ghost(base), Ghost(cw));
    let code = QrCode::new(version, ecc, mask, matrix.modules);
    proof {
        assert(code.spec_modules()@ == symbol(v, ecc_format_bits(ecc), code.spec_mask()@, interleaved(v, ecc, data_codewords@)));
        assert(mask_chosen(options.mask, v, ecc_format_bits(ecc), interleaved(v, ecc, data_codewords@), code.spec_mask()@));
    }
    Ok(code)
}

/// The mode text is encoded in: numeric if all digits, alphanumeric if all in the charset,
/// bytes otherwise.
pub open spec fn text_mode(data: Seq<u8>) -> DataMode {
    if valid_for(DataMode::Numeric, data) {
        DataMode::Numeric
    } else if valid_for(DataMode::Alphanumeric, data) {
        DataMode::Alphanumeric
    } else {
        DataMode::Byte
    }
}

/// Encodes text in the most compact mode that carries all of its bytes.
pub fn encode_text(text: &str, options: EncodeOptions) -> (r: Result<QrCode, QrError>)
    ensures
        encode_result(text_mode(text.spec_bytes()), text.spec_bytes(), options, r),
{
    let bytes = text.as_bytes();
    let mode = classify_text(bytes);
    encode_payload(mode, bytes, options)
}

/// Encodes bytes in byte mode.
pub fn encode_bytes(data: &[u8], options: EncodeOptions) -> (r: Result<QrCode, QrError>)
    ensures
        encode_result(DataMode::Byte, data@, options, r),
{
    encode_payload(DataMode::Byte, data, options)
}

/// The function-module grid of `version`: finder, timing and alignment patterns, and the
/// format and version areas.
pub(crate) fn function_grid_of(version: Version) -> (r: BitGrid)
    ensures
        r.wf(),
        r.spec_size() == version_size(version@),
        r@ == function_grid(version@ as nat),
        r.spec_size() * r.spec_size() - count_cells(r@) == raw_data_modules(version@ as nat),
{
    let mut matrix = MatrixBuilder::new(version);
    matrix.draw_function_patterns();
    proof {
        matrix.function_modules.lemma_shape();
        lemma_grid_ext(matrix.function_modules@, function_grid(version@ as nat), matrix.size as int);
        crate::cell_count::lemma_function_grid_count(version@ as nat);
    }
    matrix.function_modules
}

proof fn lemma_byte_from_bits(x: u8, y: u8)
    by (bit_vector)
    requires
        ((x >> 7u8) & 1u8 != 0u8) == ((y >> 7u8) & 1u8 != 0u8),
        ((x >> 6u8) & 1u8 != 0u8) == ((y >> 6u8) & 1u8 != 0u8),
        ((x >> 5u8) & 1u8 != 0u8) == ((y >> 5u8) & 1u8 != 0u8),
        ((x >> 4u8) & 1u8 != 0u8) == ((y >> 4u8) & 1u8 != 0u8),
        ((x >> 3u8) & 1u8 != 0u8) == ((y >> 3u8) & 1u8 != 0u8),
        ((x >> 2u8) & 1u8 != 0u8) == ((y >> 2u8) & 1u8 != 0u8),
        ((x >> 1u8) & 1u8 != 0u8) == ((y >> 1u8) & 1u8 != 0u8),
        ((x >> 0u8) & 1u8 != 0u8) == ((y >> 0u8) & 1u8 != 0u8),
    ensures
        x == y,
{
}

/// Byte sequences of one length with the same bits are the same bytes.
proof fn lemma_bits_of_bytes_injective(a: Seq<u8>, b: Seq<u8>)
    requires
        a.len() == b.len(),
        bits_of_bytes(a) == bits_of_bytes(b),
    ensures
        a == b,
{
    assert forall|j: int| 0 <= j < a.len() implies a[j] == b[j] by {
        assert forall|k: int| 0 <= k < 8 implies #[trigger] byte_bit(a[j], k) == byte_bit(b[j], k) by {
            let i = 8 * j + k;
            assert(i / 8 == j && i % 8 == k);
            assert(0 <= i < a.len() * 8);
            assert(bits_of_bytes(a)[i] == byte_bit(a[i / 8], i % 8));
            assert(bits_of_bytes(b)[i] == byte_bit(b[i / 8], i % 8));
            assert(bits_of_bytes(a)[i] == bits_of_bytes(b)[i]);
        }
        assert(byte_bit(a[j], 0) == byte_bit(b[j], 0));
        assert(byte_bit(a[j], 1) == byte_bit(b[j], 1));
        assert(byte_bit(a[j], 2) == byte_bit(b[j], 2));
        assert(byte_bit(a[j], 3) == byte_bit(b[j], 3));
        assert(byte_bit(a[j], 4) == byte_bit(b[j], 4));
        assert(byte_bit(a[j], 5) == byte_bit(b[j], 5));
        assert(byte_bit(a[j], 6) == byte_bit(b[j], 6));
        assert(byte_bit(a[j], 7) == byte_bit(b[j], 7));
        lemma_byte_from_bits(a[j], b[j]);
    }
    assert(a =~= b);
}

/// Fixing the mask changes nothing but the mask: encoding with mask `m` gives the version and
/// level of the encoding under the options' own choice, and the same codewords under mask
/// `m`. Where the options fix no mask, the symbol chosen has a penalty no higher than the
/// symbol of any fixed mask, and lower than those of the masks numbered before its own.
#[verifier::spinoff_prover]
#[verifier::rlimit(100)]
pub proof fn lemma_mask_choice(
    mode: DataMode,
    data: Seq<u8>,
    options: EncodeOptions,
    code: QrCode,
    m: MaskPattern,
    fixed: QrCode,
)
    requires
        m@ < 8,
        encode_result(mode, data, options, Ok::<QrCode, QrError>(code)),
        encode_result(mode, data, (EncodeOptions { mask: Some(m), ..options }), Ok::<QrCode, QrError>(fixed)),
    ensures
        fixed.spec_mask()@ == m@,
        fixed.spec_version()@ == code.spec_version()@,
        fixed.spec_error_correction() == code.spec_error_correction(),
        options.mask == Some(m) ==> code.spec_mask()@ == m@ && fixed.spec_modules()@ == code.spec_modules()@,
        options.mask is None ==> ({
            let size = (code.spec_version()@ * 4 + 17) as int;
            &&& penalty(code.spec_modules()@, size) <= penalty(fixed.spec_modules()@, size)
            &&& m@ < code.spec_mask()@ ==> penalty(code.spec_modules()@, size) < penalty(fixed.spec_modules()@, size)
            &&& m@ == code.spec_mask()@ ==> fixed.spec_modules()@ == code.spec_modules()@
        }),
{
    let fixed_options = EncodeOptions { mask: Some(m), ..options };
    let v = first_fit(options.min_version@ as nat, options.max_version@ as nat, mode, data.len(), options.min_error_correction)->0;
    let total = segment_bits_len(v as u8, mode, data.len());
    let ecc = chosen_level(v, total, options);
    assert(chosen_level(v, total, fixed_options) == ecc);
    let cw1 = choose|cw: Seq<u8>|
        cw.len() == data_codewords(v, ecc) && bits_of_bytes(cw) == padded_bits(segment_bits(v as u8, mode, data), data_codewords(v, ecc) * 8)
            && #[trigger] code.spec_modules()@ == symbol(v, ecc_format_bits(ecc), code.spec_mask()@, interleaved(v, ecc, cw))
            && mask_chosen(options.mask, v, ecc_format_bits(ecc), interleaved(v, ecc, cw), code.spec_mask()@);
    let cw2 = choose|cw: Seq<u8>|
        cw.len() == data_codewords(v, ecc) && bits_of_bytes(cw) == padded_bits(segment_bits(v as u8, mode, data), data_codewords(v, ecc) * 8)
            && #[trigger] fixed.spec_modules()@ == symbol(v, ecc_format_bits(ecc), fixed.spec_mask()@, interleaved(v, ecc, cw))
            && mask_chosen(fixed_options.mask, v, ecc_format_bits(ecc), interleaved(v, ecc, cw), fixed.spec_mask()@);
    lemma_bits_of_bytes_injective(cw1, cw2);
    if options.mask is None {
        let size = (v * 4 + 17) as int;
        let placed = interleaved(v, ecc, cw1);
        assert(penalty(symbol(v, ecc_format_bits(ecc), code.spec_mask()@, placed), size) <= penalty(
            symbol(v, ecc_format_bits(ecc), m@, placed),
            size,
        ));
        if m@ < code.spec_mask()@ {
            assert(penalty(symbol(v, ecc_format_bits(ecc), m@, placed), size) > penalty(
                symbol(v, ecc_format_bits(ecc), code.spec_mask()@, placed),
                size,
            ));
        }
    }
}

} // verus!
