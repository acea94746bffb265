//! Adaptive binarization of a luminance image: a black point per 8x8 block,
//! a threshold averaged over the 5x5 blocks around it, and each pixel dark
//! when it is no lighter than its block's threshold.

use vstd::prelude::*;

verus! {

/// Sum of `f` over row `y`, columns `x0` up to `x1`.
pub open spec fn line_sum(f: spec_fn(int, int) -> int, y: int, x0: int, x1: int) -> int
    decreases x1 - x0,
{
    if x1 <= x0 {
        0
    } else {
        line_sum(f, y, x0, x1 - 1) + f(x1 - 1, y)
    }
}

/// Sum of `f` over columns `x0` up to `x1` and rows `y0` up to `y1`.
pub open spec fn area_sum(f: spec_fn(int, int) -> int, x0: int, x1: int, y0: int, y1: int) -> int
    decreases y1 - y0,
{
    if y1 <= y0 {
        0
    } else {
        area_sum(f, x0, x1, y0, y1 - 1) + line_sum(f, y1 - 1, x0, x1)
    }
}

/// Smallest of 255 and the values of `f` over row `y`, columns `x0` up to `x1`.
pub open spec fn line_min(f: spec_fn(int, int) -> int, y: int, x0: int, x1: int) -> int
    decreases x1 - x0,
{
    if x1 <= x0 {
        255
    } else {
        let m = line_min(f, y, x0, x1 - 1);
        if f(x1 - 1, y) < m {
            f(x1 - 1, y)
        } else {
            m
        }
    }
}

/// Smallest of 255 and the values of `f` over an area.
pub open spec fn area_min(f: spec_fn(int, int) -> int, x0: int, x1: int, y0: int, y1: int) -> int
    decreases y1 - y0,
{
    if y1 <= y0 {
        255
    } else {
        let m = area_min(f, x0, x1, y0, y1 - 1);
        let l = line_min(f, y1 - 1, x0, x1);
        if l < m {
            l
        } else {
            m
        }
    }
}

/// Largest of 0 and the values of `f` over row `y`, columns `x0` up to `x1`.
pub open spec fn line_max(f: spec_fn(int, int) -> int, y: int, x0: int, x1: int) -> int
    decreases x1 - x0,
{
    if x1 <= x0 {
        0
    } else {
        let m = line_max(f, y, x0, x1 - 1);
        if f(x1 - 1, y) > m {
            f(x1 - 1, y)
        } else {
            m
        }
    }
}

/// Largest of 0 and the values of `f` over an area.
pub open spec fn area_max(f: spec_fn(int, int) -> int, x0: int, x1: int, y0: int, y1: int) -> int
    decreases y1 - y0,
{
    if y1 <= y0 {
        0
    } else {
        let m = area_max(f, x0, x1, y0, y1 - 1);
        let l = line_max(f, y1 - 1, x0, x1);
        if l > m {
            l
        } else {
            m
        }
    }
}

/// Luminance of pixel (x, y).
pub open spec fn luma_at(luma: Seq<u8>, width: int) -> spec_fn(int, int) -> int {
    |x: int, y: int| luma[y * width + x] as int
}

/// End of block `b` along a side of `limit` pixels.
pub open spec fn block_end(b: int, limit: int) -> int {
    if 8 * b + 8 < limit {
        8 * b + 8
    } else {
        limit
    }
}

/// Number of blocks along a side of `limit` pixels.
pub open spec fn block_count(limit: int) -> int {
    (limit + 7) / 8
}

/// The black point of block (bx, by): half its darkest pixel when its contrast is at most 24,
/// else its mean.
pub open spec fn black_point(luma: Seq<u8>, width: int, height: int, bx: int, by: int) -> u8 {
    let f = luma_at(luma, width);
    let x0 = 8 * bx;
    let x1 = block_end(bx, width);
    let y0 = 8 * by;
    let y1 = block_end(by, height);
    let lo = area_min(f, x0, x1, y0, y1);
    let hi = area_max(f, x0, x1, y0, y1);
    if hi - lo <= 24 {
        (lo / 2) as u8
    } else {
        (area_sum(f, x0, x1, y0, y1) / ((x1 - x0) * (y1 - y0))) as u8
    }
}

/// The black points as a function of block coordinates.
pub open spec fn points_at(luma: Seq<u8>, width: int, height: int) -> spec_fn(int, int) -> int {
    |bx: int, by: int| black_point(luma, width, height, bx, by) as int
}

/// The threshold of block (bx, by): the mean black point of the blocks within two blocks of it.
pub open spec fn threshold(luma: Seq<u8>, width: int, height: int, bx: int, by: int) -> u8 {
    let cols = block_count(width);
    let rows = block_count(height);
    let left = if bx >= 2 {
        bx - 2
    } else {
        0
    };
    let right = if cols - 1 - bx > 2 {
        bx + 2
    } else {
        cols - 1
    };
    let top = if by >= 2 {
        by - 2
    } else {
        0
    };
    let bottom = if rows - 1 - by > 2 {
        by + 2
    } else {
        rows - 1
    };
    (area_sum(points_at(luma, width, height), left, right + 1, top, bottom + 1) / ((right - left + 1) * (bottom
        - top + 1))) as u8
}

/// Pixel (x, y) of the binary image: 1 where the luminance is at most its block's threshold.
pub open spec fn binary_pixel(luma: Seq<u8>, width: int, height: int, x: int, y: int) -> u8 {
    if luma[y * width + x] <= threshold(luma, width, height, x / 8, y / 8) {
        1
    } else {
        0
    }
}

/// Over a row of constant `c` (at most 255), the minimum, maximum and sum are `c`, `c` and
/// `c` times the length.
proof fn lemma_line_const(f: spec_fn(int, int) -> int, c: int, y: int, x0: int, x1: int)
    requires
        0 <= c <= 255,
        x0 <= x1,
        forall|x: int| x0 <= x < x1 ==> #[trigger] f(x, y) == c,
    ensures
        x0 < x1 ==> line_min(f, y, x0, x1) == c && line_max(f, y, x0, x1) == c,
        line_sum(f, y, x0, x1) == c * (x1 - x0),
    decreases x1 - x0,
{
    if x0 < x1 {
        lemma_line_const(f, c, y, x0, x1 - 1);
        assert(f(x1 - 1, y) == c);
        assert(line_min(f, y, x0, x0) == 255 && line_max(f, y, x0, x0) == 0);
        assert(line_min(f, y, x0, x1) == c);
        assert(line_max(f, y, x0, x1) == c);
        assert(c * (x1 - x0) == c * (x1 - 1 - x0) + c) by (nonlinear_arith);
    } else {
        assert(c * (x1 - x0) == 0) by (nonlinear_arith)
            requires
                x1 == x0,
        ;
    }
}

/// Over an area of constant `c` (at most 255), the minimum, maximum and sum are `c`, `c` and
/// `c` times the area.
proof fn lemma_area_const(f: spec_fn(int, int) -> int, c: int, x0: int, x1: int, y0: int, y1: int)
    requires
        0 <= c <= 255,
        x0 < x1,
        y0 <= y1,
        forall|x: int, y: int| x0 <= x < x1 && y0 <= y < y1 ==> #[trigger] f(x, y) == c,
    ensures
        y0 < y1 ==> area_min(f, x0, x1, y0, y1) == c && area_max(f, x0, x1, y0, y1) == c,
        area_sum(f, x0, x1, y0, y1) == c * ((x1 - x0) * (y1 - y0)),
    decreases y1 - y0,
{
    if y0 < y1 {
        lemma_area_const(f, c, x0, x1, y0, y1 - 1);
        assert forall|x: int| x0 <= x < x1 implies #[trigger] f(x, y1 - 1) == c by {}
        lemma_line_const(f, c, y1 - 1, x0, x1);
        assert(area_min(f, x0, x1, y0, y0) == 255 && area_max(f, x0, x1, y0, y0) == 0);
        assert(area_min(f, x0, x1, y0, y1) == c);
        assert(area_max(f, x0, x1, y0, y1) == c);
        assert(c * ((x1 - x0) * (y1 - y0)) == c * ((x1 - x0) * (y1 - 1 - y0)) + c * (x1 - x0)) by (nonlinear_arith);
    } else {
        assert(c * ((x1 - x0) * (y1 - y0)) == 0) by (nonlinear_arith)
            requires
                y1 == y0,
        ;
    }
}

/// In an image of one luminance `c`, every block's black point is half of `c`.
proof fn lemma_uniform_black_point(luma: Seq<u8>, width: int, height: int, c: u8, bx: int, by: int)
    requires
        width >= 1,
        height >= 1,
        luma.len() == width * height,
        forall|i: int| 0 <= i < luma.len() ==> #[trigger] luma[i] == c,
        0 <= bx < block_count(width),
        0 <= by < block_count(height),
    ensures
        black_point(luma, width, height, bx, by) == c / 2,
{
    let f = luma_at(luma, width);
    let x0 = 8 * bx;
    let x1 = block_end(bx, width);
    let y0 = 8 * by;
    let y1 = block_end(by, height);
    assert forall|x: int, y: int| x0 <= x < x1 && y0 <= y < y1 implies #[trigger] f(x, y) == c as int by {
        assert(0 <= y * width + x < width * height) by (nonlinear_arith)
            requires
                0 <= x < width,
                0 <= y < height,
        ;
    }
    lemma_area_const(f, c as int, x0, x1, y0, y1);
}

/// Binarizing an image of a single luminance `c`: every pixel is light when `c` is above 0,
/// and dark when `c` is 0. A uniform image has no contrast, so the threshold of every block
/// is half its luminance.
pub proof fn lemma_uniform_image(luma: Seq<u8>, width: int, height: int, c: u8, x: int, y: int)
    requires
        luma.len() == width * height,
        forall|i: int| 0 <= i < luma.len() ==> #[trigger] luma[i] == c,
        0 <= x < width,
        0 <= y < height,
    ensures
        threshold(luma, width, height, x / 8, y / 8) == c / 2,
        binary_pixel(luma, width, height, x, y) == if c == 0 {
            1u8
        } else {
            0u8
        },
{
    let bx = x / 8;
    let by = y / 8;
    let cols = block_count(width);
    let rows = block_count(height);
    let left = if bx >= 2 { bx - 2 } else { 0 };
    let right = if cols - 1 - bx > 2 { bx + 2 } else { cols - 1 };
    let top = if by >= 2 { by - 2 } else { 0 };
    let bottom = if rows - 1 - by > 2 { by + 2 } else { rows - 1 };
    let g = points_at(luma, width, height);
    assert forall|i: int, j: int| left <= i < right + 1 && top <= j < bottom + 1 implies #[trigger] g(i, j) == (c / 2) as int by {
        lemma_uniform_black_point(luma, width, height, c, i, j);
    }
    lemma_area_const(g, (c / 2) as int, left, right + 1, top, bottom + 1);
    let area = (right - left + 1) * (bottom - top + 1);
    assert(area > 0) by (nonlinear_arith)
        requires
            right - left + 1 > 0,
            bottom - top + 1 > 0,
            area == (right - left + 1) * (bottom - top + 1),
    ;
    assert(((c / 2) as int * area) / area == (c / 2) as int) by (nonlinear_arith)
        requires
            area > 0,
    ;
    assert(threshold(luma, width, height, bx, by) == c / 2);
    assert(0 <= y * width + x < width * height) by (nonlinear_arith)
        requires
            0 <= x < width,
            0 <= y < height,
    ;
    assert(luma[y * width + x] == c);
}

/// A black-and-white image, row by row; `inverted` swaps the meaning of the pixels.
#[derive(Clone, Debug)]
pub struct BinaryImage {
    pub width: usize,
    pub height: usize,
    pub pixels: Vec<u8>,
    pub inverted: bool,
}

impl BinaryImage {
    /// Whether pixel `index` (row-major) is dark.
    pub fn get_index(&self, index: usize) -> (r: bool)
        requires
            index < self.pixels@.len(),
        ensures
            r == ((self.pixels@[index as int] != 0) != self.inverted),
    {
        (self.pixels[index] != 0) != self.inverted
    }

    /// Whether pixel (x, y) is dark.
    pub fn get(&self, x: usize, y: usize) -> (r: bool)
        requires
            x < self.width,
            y < self.height,
            self.pixels@.len() == self.width * self.height,
            self.width * self.height <= usize::MAX,
        ensures
            r == ((self.pixels@[y * self.width + x] != 0) != self.inverted),
    {
        proof {
            assert(y * self.width + x < self.width * self.height) by (nonlinear_arith)
                requires
                    x < self.width,
                    y < self.height,
            ;
            assert(0 <= y * self.width) by (nonlinear_arith);
        }
        self.get_index(y * self.width + x)
    }

    /// The same image with dark and light swapped.
    pub fn into_inverted(self) -> (r: Self)
        ensures
            r.width == self.width,
            r.height == self.height,
            r.pixels@ == self.pixels@,
            r.inverted == !self.inverted,
    {
        let mut image = self;
        image.inverted = !image.inverted;
        image
    }
}

/// The smaller of two numbers.
pub open spec fn min2(a: int, b: int) -> int {
    if a < b {
        a
    } else {
        b
    }
}

/// The larger of two numbers.
pub open spec fn max2(a: int, b: int) -> int {
    if a > b {
        a
    } else {
        b
    }
}

/// The black point of block (bx, by).
fn block_black_point(luma: &[u8], width: usize, height: usize, bx: usize, by: usize) -> (r: u8)
    requires
        luma@.len() == width * height,
        width * height <= usize::MAX,
        8 * bx < width,
        8 * by < height,
    ensures
        r == black_point(luma@, width as int, height as int, bx as int, by as int),
{
    let ghost f = luma_at(luma@, width as int);
    let x0 = bx * 8;
    let x1 = if width - x0 > 8 {
        x0 + 8
    } else {
        width
    };
    let y0 = by * 8;
    let y1 = if height - y0 > 8 {
        y0 + 8
    } else {
        height
    };
    let mut sum: u32 = 0;
    let mut lo: u8 = 255;
    let mut hi: u8 = 0;
    let mut y = y0;
    while y < y1
        invariant
            luma@.len() == width * height,
            width * height <= usize::MAX,
            f == luma_at(luma@, width as int),
            x0 < x1 <= width,
            x1 <= x0 + 8,
            y0 < y1 <= height,
            y1 <= y0 + 8,
            y0 <= y <= y1,
            sum == area_sum(f, x0 as int, x1 as int, y0 as int, y as int),
            sum <= (y - y0) * (x1 - x0) * 255,
            lo == area_min(f, x0 as int, x1 as int, y0 as int, y as int),
            hi == area_max(f, x0 as int, x1 as int, y0 as int, y as int),
        decreases y1 - y,
    {
        proof {
            assert(y * width + x1 <= width * height) by (nonlinear_arith)
                requires
                    y < height,
                    x1 <= width,
            ;
        }
        let row = y * width;
        proof {
            assert((y - y0) * (x1 - x0) <= 56) by (nonlinear_arith)
                requires
                    y - y0 < 8,
                    x1 - x0 <= 8,
                    y >= y0,
                    x1 >= x0,
            ;
        }
        let ghost base_sum = sum as int;
        let ghost base_lo = lo as int;
        let ghost base_hi = hi as int;
        let mut x = x0;
        while x < x1
            invariant
                luma@.len() == width * height,
                width * height <= usize::MAX,
                f == luma_at(luma@, width as int),
                y0 <= y < y1,
                y1 <= y0 + 8,
                x0 <= x <= x1,
                x1 <= width,
                x1 <= x0 + 8,
                y < height,
                row == y * width,
                row + x1 <= width * height,
                sum == base_sum + line_sum(f, y as int, x0 as int, x as int),
                base_sum <= (y - y0) * (x1 - x0) * 255,
                (y - y0) * (x1 - x0) <= 56,
                sum <= base_sum + (x - x0) * 255,
                lo == min2(base_lo, line_min(f, y as int, x0 as int, x as int)),
                hi == max2(base_hi, line_max(f, y as int, x0 as int, x as int)),
                0 <= base_lo <= 255,
                0 <= base_hi <= 255,
            decreases x1 - x,
        {
            let value = luma[row + x];
            sum = sum + value as u32;
            if value < lo {
                lo = value;
            }
            if value > hi {
                hi = value;
            }
            x = x + 1;
        }
        proof {
            assert((y - y0) * (x1 - x0) * 255 + (x1 - x0) * 255 == (y + 1 - y0) * (x1 - x0) * 255) by (nonlinear_arith);
        }
        y = y + 1;
    }
    proof {
        assert((x1 - x0) * (y1 - y0) >= 1) by (nonlinear_arith)
            requires
                x1 > x0,
                y1 > y0,
        ;
        assert((x1 - x0) * (y1 - y0) <= 64) by (nonlinear_arith)
            requires
                x1 - x0 <= 8,
                y1 - y0 <= 8,
                x1 > x0,
                y1 > y0,
        ;
        assert((y1 - y0) * (x1 - x0) == (x1 - x0) * (y1 - y0)) by (nonlinear_arith);
    }
    let count = ((x1 - x0) * (y1 - y0)) as u32;
    if (hi as u32) <= (lo as u32) + 24 {
        lo / 2
    } else {
        proof {
            assert(sum / count <= 255) by (nonlinear_arith)
                requires
                    sum <= count * 255,
                    count >= 1,
            ;
        }
        (sum / count) as u8
    }
}

/// The threshold of block (bx, by) from the black points of all blocks, stored row by row.
fn block_threshold(
    points: &Vec<u8>,
    cols: usize,
    rows: usize,
    bx: usize,
    by: usize,
    Ghost(luma): Ghost<Seq<u8>>,
    Ghost(width): Ghost<int>,
    Ghost(height): Ghost<int>,
) -> (r: u8)
    requires
        cols == block_count(width),
        rows == block_count(height),
        cols >= 1,
        rows >= 1,
        cols * rows <= usize::MAX,
        points@.len() == cols * rows,
        bx < cols,
        by < rows,
        forall|i: int, j: int| 0 <= i < cols && 0 <= j < rows ==> #[trigger] points@[j * cols + i] == black_point(luma, width, height, i, j),
    ensures
        r == threshold(luma, width, height, bx as int, by as int),
{
    let ghost f = points_at(luma, width, height);
    let left = if bx >= 2 {
        bx - 2
    } else {
        0
    };
    let right = if cols - 1 - bx > 2 {
        bx + 2
    } else {
        cols - 1
    };
    let top = if by >= 2 {
        by - 2
    } else {
        0
    };
    let bottom = if rows - 1 - by > 2 {
        by + 2
    } else {
        rows - 1
    };
    let mut sum: u32 = 0;
    let mut samples: u32 = 0;
    let mut sy = top;
    while sy <= bottom
        invariant
            cols * rows <= usize::MAX,
            points@.len() == cols * rows,
            f == points_at(luma, width, height),
            forall|i: int, j: int| 0 <= i < cols && 0 <= j < rows ==> #[trigger] points@[j * cols + i] == black_point(luma, width, height, i, j),
            left <= right < cols,
            right - left < 5,
            top <= bottom < rows,
            bottom - top < 5,
            top <= sy <= bottom + 1,
            sum == area_sum(f, left as int, right + 1, top as int, sy as int),
            samples == (sy - top) * (right - left + 1),
            sum <= samples * 255,
            samples <= 25,
        decreases bottom + 1 - sy,
    {
        let ghost base = sum as int;
        let ghost base_samples = samples as int;
        proof {
            assert((sy - top) * (right - left + 1) + (right - left + 1) <= 25) by (nonlinear_arith)
                requires
                    sy - top + 1 <= 5,
                    right - left + 1 <= 5,
                    sy >= top,
                    right >= left,
            ;
        }
        let mut sx = left;
        while sx <= right
            invariant
                cols * rows <= usize::MAX,
                points@.len() == cols * rows,
                f == points_at(luma, width, height),
                forall|i: int, j: int| 0 <= i < cols && 0 <= j < rows ==> #[trigger] points@[j * cols + i] == black_point(luma, width, height, i, j),
                left <= right < cols,
                right - left < 5,
                top <= sy <= bottom,
                bottom < rows,
                bottom - top < 5,
                left <= sx <= right + 1,
                sum == base + line_sum(f, sy as int, left as int, sx as int),
                samples == base_samples + (sx - left),
                base_samples == (sy - top) * (right - left + 1),
                base <= base_samples * 255,
                sum <= samples * 255,
                base_samples + (right - left + 1) <= 25,
            decreases right + 1 - sx,
        {
            proof {
                assert(sy * cols + sx < cols * rows) by (nonlinear_arith)
                    requires
                        sx < cols,
                        sy < rows,
                ;
                assert(0 <= sy * cols) by (nonlinear_arith);
            }
            let value = points[sy * cols + sx];
            sum = sum + value as u32;
            samples = samples + 1;
            sx = sx + 1;
        }
        proof {
            assert((sy - top) * (right - left + 1) + (right - left + 1) == (sy + 1 - top) * (right - left + 1)) by (nonlinear_arith);
            assert((sy + 1 - top) * (right - left + 1) <= 25) by (nonlinear_arith)
                requires
                    sy + 1 - top <= 5,
                    right - left + 1 <= 5,
                    sy + 1 - top >= 1,
                    right - left + 1 >= 1,
            ;
        }
        sy = sy + 1;
    }
    proof {
        assert(samples >= 1) by (nonlinear_arith)
            requires
                samples == (sy - top) * (right - left + 1),
                sy - top >= 1,
                right - left + 1 >= 1,
        ;
        assert(sum / samples <= 255) by (nonlinear_arith)
            requires
                sum <= samples * 255,
                samples >= 1,
        ;
        assert((right - left + 1) * (bottom - top + 1) == samples) by (nonlinear_arith)
            requires
                samples == (sy - top) * (right - left + 1),
                sy == bottom + 1,
        ;
    }
    (sum / samples) as u8
}

/// The binary image of a luminance image: each pixel dark where it is no lighter than the
/// threshold of its block.
pub fn binarize(width: usize, height: usize, luma: &[u8]) -> (r: BinaryImage)
    requires
        width * height <= usize::MAX,
        luma@.len() == width * height,
    ensures
        r.width == width,
        r.height == height,
        !r.inverted,
        r.pixels@.len() == width * height,
        forall|x: int, y: int|
            0 <= x < width && 0 <= y < height ==> #[trigger] r.pixels@[y * width + x] == binary_pixel(luma@, width as int, height as int, x, y),
{
    if width == 0 || height == 0 {
        assert(width * height == 0) by (nonlinear_arith)
            requires
                width == 0 || height == 0,
        ;
        return BinaryImage { width, height, pixels: Vec::new(), inverted: false };
    }
    let cols = width / 8 + if width % 8 == 0 {
        0
    } else {
        1
    };
    let rows = height / 8 + if height % 8 == 0 {
        0
    } else {
        1
    };
    proof {
        assert(cols == block_count(width as int));
        assert(rows == block_count(height as int));
        assert(cols * rows <= width * height) by (nonlinear_arith)
            requires
                cols <= width,
                rows <= height,
                cols >= 1,
                rows >= 1,
        ;
    }
    let blocks = cols * rows;
    let mut points: Vec<u8> = Vec::new();
    let mut k: usize = 0;
    while k < blocks
        invariant
            blocks == cols * rows,
            cols == block_count(width as int),
            rows == block_count(height as int),
            cols >= 1,
            luma@.len() == width * height,
            width * height <= usize::MAX,
            k <= blocks,
            points@.len() == k,
            forall|j: int| 0 <= j < k ==> #[trigger] points@[j] == black_point(luma@, width as int, height as int, j % (cols as int), j / (cols as int)),
        decreases blocks - k,
    {
        let bx = k % cols;
        let by = k / cols;
        proof {
            assert(by < rows) by (nonlinear_arith)
                requires
                    k < cols * rows,
                    by == k / cols,
                    cols >= 1,
            ;
        }
        points.push(block_black_point(luma, width, height, bx, by));
        k = k + 1;
    }
    proof {
        assert forall|i: int, j: int| 0 <= i < cols && 0 <= j < rows implies #[trigger] points@[j * cols + i] == black_point(luma@, width as int, height as int, i, j) by {
            vstd::arithmetic::div_mod::lemma_fundamental_div_mod_converse(j * cols + i, cols as int, j, i);
            assert(j * cols + i < cols * rows) by (nonlinear_arith)
                requires
                    i < cols,
                    j < rows,
            ;
            assert(0 <= j * cols) by (nonlinear_arith)
                requires
                    j >= 0,
                    cols >= 1,
            ;
        }
    }
    let mut thresholds: Vec<u8> = Vec::new();
    let mut k: usize = 0;
    while k < blocks
        invariant
            blocks == cols * rows,
            cols == block_count(width as int),
            rows == block_count(height as int),
            cols >= 1,
            rows >= 1,
            cols * rows <= usize::MAX,
            points@.len() == cols * rows,
            forall|i: int, j: int| 0 <= i < cols && 0 <= j < rows ==> #[trigger] points@[j * cols + i] == black_point(luma@, width as int, height as int, i, j),
            k <= blocks,
            thresholds@.len() == k,
            forall|j: int| 0 <= j < k ==> #[trigger] thresholds@[j] == threshold(luma@, width as int, height as int, j % (cols as int), j / (cols as int)),
        decreases blocks - k,
    {
        let bx = k % cols;
        let by = k / cols;
        proof {
            assert(by < rows) by (nonlinear_arith)
                requires
                    k < cols * rows,
                    by == k / cols,
                    cols >= 1,
            ;
        }
        thresholds.push(block_threshold(&points, cols, rows, bx, by, Ghost(luma@), Ghost(width as int), Ghost(height as int)));
        k = k + 1;
    }
    let total = width * height;
    let mut pixels: Vec<u8> = Vec::new();
    let mut i: usize = 0;
    while i < total
        invariant
            total == width * height,
            luma@.len() == total,
            width >= 1,
            height >= 1,
            blocks == cols * rows,
            cols >= 1,
            cols == block_count(width as int),
            rows == block_count(height as int),
            thresholds@.len() == blocks,
            forall|j: int| 0 <= j < blocks ==> #[trigger] thresholds@[j] == threshold(luma@, width as int, height as int, j % (cols as int), j / (cols as int)),
            i <= total,
            pixels@.len() == i,
            forall|j: int| 0 <= j < i ==> #[trigger] pixels@[j] == binary_pixel(luma@, width as int, height as int, j % (width as int), j / (width as int)),
        decreases total - i,
    {
        let x = i % width;
        let y = i / width;
        proof {
            assert(y < height) by (nonlinear_arith)
                requires
                    i < width * height,
                    y == i / width,
                    width >= 1,
            ;
            assert(x / 8 < cols);
            assert(y / 8 < rows);
            assert((y / 8) * cols + x / 8 < cols * rows) by (nonlinear_arith)
                requires
                    x / 8 < cols,
                    y / 8 < rows,
            ;
            assert(0 <= (y / 8) * cols) by (nonlinear_arith);
        }
        let block = (y / 8) * cols + x / 8;
        proof {
            vstd::arithmetic::div_mod::lemma_fundamental_div_mod_converse(block as int, cols as int, (y / 8) as int, (x / 8) as int);
            vstd::arithmetic::div_mod::lemma_fundamental_div_mod(i as int, width as int);
            assert(i == y * width + x) by (nonlinear_arith)
                requires
                    i == width * (i / width) + i % width,
                    y == i / width,
                    x == i % width,
            ;
            assert(thresholds@[block as int] == threshold(luma@, width as int, height as int, (x / 8) as int, (y / 8) as int));
        }
        let threshold_value = thresholds[block];
        pixels.push(if luma[i] <= threshold_value {
            1u8
        } else {
            0u8
        });
        i = i + 1;
    }
    proof {
        assert forall|x: int, y: int| 0 <= x < width && 0 <= y < height implies #[trigger] pixels@[y * width + x] == binary_pixel(luma@, width as int, height as int, x, y) by {
            vstd::arithmetic::div_mod::lemma_fundamental_div_mod_converse(y * width + x, width as int, y, x);
            assert(y * width + x < width * height) by (nonlinear_arith)
                requires
                    x < width,
                    y < height,
            ;
            assert(0 <= y * width) by (nonlinear_arith)
                requires
                    y >= 0,
                    width >= 1,
            ;
        }
    }
    BinaryImage { width, height, pixels, inverted: false }
}

/// Pixel (x, y) of the image is dark.
pub open spec fn dark_at(image: BinaryImage, x: int, y: int) -> bool {
    (image.pixels@[y * image.width + x] != 0) != image.inverted
}

/// Pixel (x, y) comes before position (px, py) in row-major order.
pub open spec fn scanned_before(x: int, y: int, px: int, py: int) -> bool {
    y < py || (y == py && x < px)
}

/// The box (x0, y0) to (x1, y1) holds every dark pixel of the image scanned before (px, py),
/// and each of its sides touches one of them.
pub open spec fn bounds_so_far(image: BinaryImage, px: int, py: int, x0: int, y0: int, x1: int, y1: int) -> bool {
    &&& forall|x: int, y: int|
        0 <= x < image.width && 0 <= y < image.height && scanned_before(x, y, px, py) && #[trigger] dark_at(image, x, y)
            ==> x0 <= x <= x1 && y0 <= y <= y1
    &&& exists|y: int| 0 <= y < image.height && scanned_before(x0, y, px, py) && #[trigger] dark_at(image, x0, y)
    &&& exists|y: int| 0 <= y < image.height && scanned_before(x1, y, px, py) && #[trigger] dark_at(image, x1, y)
    &&& exists|x: int| 0 <= x < image.width && scanned_before(x, y0, px, py) && #[trigger] dark_at(image, x, y0)
    &&& exists|x: int| 0 <= x < image.width && scanned_before(x, y1, px, py) && #[trigger] dark_at(image, x, y1)
}

/// The smallest box holding every dark pixel, as (min x, min y, max x, max y); none where
/// no pixel is dark.
pub fn dark_bounds(image: &BinaryImage) -> (r: Option<(usize, usize, usize, usize)>)
    requires
        image.pixels@.len() == image.width * image.height,
    ensures
        r is None <==> forall|x: int, y: int| 0 <= x < image.width && 0 <= y < image.height ==> !#[trigger] dark_at(*image, x, y),
        r matches Some((x0, y0, x1, y1)) ==> x0 <= x1 < image.width && y0 <= y1 < image.height && bounds_so_far(
            *image,
            0,
            image.height as int,
            x0 as int,
            y0 as int,
            x1 as int,
            y1 as int,
        ),
{
    let width = image.width;
    let height = image.height;
    let area = image.pixels.len();
    let mut found = false;
    let mut min_x: usize = width;
    let mut min_y: usize = height;
    let mut max_x: usize = 0;
    let mut max_y: usize = 0;
    let mut y: usize = 0;
    while y < height
        invariant
            width == image.width,
            height == image.height,
            image.pixels@.len() == width * height,
            area == width * height,
            y <= height,
            !found ==> forall|x: int, py: int| 0 <= x < width && 0 <= py < height && scanned_before(x, py, 0, y as int) ==> !#[trigger] dark_at(*image, x, py),
            found ==> min_x <= max_x < width && min_y <= max_y < height && bounds_so_far(*image, 0, y as int, min_x as int, min_y as int, max_x as int, max_y as int),
        decreases height - y,
    {
        let mut x: usize = 0;
        while x < width
            invariant
                width == image.width,
                height == image.height,
                image.pixels@.len() == width * height,
                area == width * height,
                y < height,
                x <= width,
                !found ==> forall|px: int, py: int| 0 <= px < width && 0 <= py < height && scanned_before(px, py, x as int, y as int) ==> !#[trigger] dark_at(*image, px, py),
                found ==> min_x <= max_x < width && min_y <= max_y < height && bounds_so_far(*image, x as int, y as int, min_x as int, min_y as int, max_x as int, max_y as int),
            decreases width - x,
        {
            proof {
                assert(y * width + x < width * height) by (nonlinear_arith)
                    requires
                        x < width,
                        y < height,
                ;
                assert(0 <= y * width) by (nonlinear_arith);
            }
            if image.get_index(y * width + x) {
                assert(dark_at(*image, x as int, y as int));
                if !found {
                    min_x = x;
                    max_x = x;
                    min_y = y;
                    max_y = y;
                    found = true;
                } else {
                    if x < min_x {
                        min_x = x;
                    }
                    if x > max_x {
                        max_x = x;
                    }
                    if y < min_y {
                        min_y = y;
                    }
                    if y > max_y {
                        max_y = y;
                    }
                }
            }
            x = x + 1;
        }
        y = y + 1;
    }
    if found {
        Some((min_x, min_y, max_x, max_y))
    } else {
        None
    }
}

/// Number of dark pixels in a row from (x, y) rightwards, up to the first light one or the edge.
pub fn dark_run(image: &BinaryImage, x: usize, y: usize) -> (r: usize)
    requires
        image.pixels@.len() == image.width * image.height,
        x < image.width,
        y < image.height,
    ensures
        r <= image.width - x,
        forall|i: int| x <= i < x + r ==> #[trigger] dark_at(*image, i, y as int),
        x + r == image.width || !dark_at(*image, x + r, y as int),
{
    let area = image.pixels.len();
    let mut run: usize = 0;
    while x + run < image.width && image.get(x + run, y)
        invariant
            image.pixels@.len() == image.width * image.height,
            area == image.width * image.height,
            x < image.width,
            y < image.height,
            run <= image.width - x,
            forall|i: int| x <= i < x + run ==> #[trigger] dark_at(*image, i, y as int),
        decreases image.width - x - run,
    {
        run = run + 1;
    }
    run
}

} // verus!
