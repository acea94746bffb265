//! Where things stand in the module matrix: finder, timing, alignment, format
//! and version patterns, the zigzag order of data modules, and the masks.

use vstd::prelude::*;

use crate::tables::{alignment_positions, lemma_alignment_positions};

verus! {

/// Absolute value.
pub open spec fn abs(v: int) -> int {
    if v < 0 {
        -v
    } else {
        v
    }
}

/// Chebyshev distance of the offset (dx, dy) from the origin.
pub open spec fn cheb(dx: int, dy: int) -> int {
    if abs(dx) >= abs(dy) {
        abs(dx)
    } else {
        abs(dy)
    }
}

/// Whether (x, y) lies within `r` of (cx, cy) in both coordinates.
pub open spec fn near(cx: int, cy: int, x: int, y: int, r: int) -> bool {
    -r <= x - cx <= r && -r <= y - cy <= r
}

/// The colour a finder pattern centred at (cx, cy) gives the cell (x, y):
/// dark except the rings at distance 2 (light ring) and 4 (separator).
pub open spec fn finder_color(cx: int, cy: int, x: int, y: int) -> bool {
    cheb(x - cx, y - cy) != 2 && cheb(x - cx, y - cy) != 4
}

/// The colour an alignment pattern centred at (cx, cy) gives the cell (x, y).
pub open spec fn alignment_color(cx: int, cy: int, x: int, y: int) -> bool {
    cheb(x - cx, y - cy) != 1
}

/// The cell is covered by one of the three finder patterns with their separators.
pub open spec fn in_finder(size: int, x: int, y: int) -> bool {
    near(3, 3, x, y, 4) || near(size - 4, 3, x, y, 4) || near(3, size - 4, x, y, 4)
}

/// Finder colour of a cell covered by a finder pattern, the last drawn winning.
pub open spec fn finder_dark(size: int, x: int, y: int) -> bool {
    if near(3, size - 4, x, y, 4) {
        finder_color(3, size - 4, x, y)
    } else if near(size - 4, 3, x, y, 4) {
        finder_color(size - 4, 3, x, y)
    } else {
        finder_color(3, 3, x, y)
    }
}

/// The cell belongs to a timing pattern: row 6 or column 6 between the finders.
pub open spec fn in_timing(size: int, x: int, y: int) -> bool {
    (x == 6 && 8 <= y < size - 8) || (y == 6 && 8 <= x < size - 8)
}

/// Timing colour: dark on even coordinates along the line; the horizontal line is drawn last.
pub open spec fn timing_dark(size: int, x: int, y: int) -> bool {
    if y == 6 && 8 <= x < size - 8 {
        x % 2 == 0
    } else {
        y % 2 == 0
    }
}

/// An alignment centre (px, py) is used unless it collides with a finder.
pub open spec fn alignment_center_used(size: int, px: int, py: int) -> bool {
    !((px == 6 && (py == 6 || py == size - 7)) || (px == size - 7 && py == 6))
}

/// The cell lies within an alignment pattern of the version.
pub open spec fn in_alignment(version: nat, x: int, y: int) -> bool {
    let p = alignment_positions(version);
    let size = (version * 4 + 17) as int;
    exists|i: int, j: int|
        0 <= i < p.len() && 0 <= j < p.len() && alignment_center_used(size, p[i] as int, p[j] as int)
            && #[trigger] near(p[i] as int, p[j] as int, x, y, 2)
}

/// Alignment colour of a cell within an alignment pattern.
pub open spec fn alignment_dark(version: nat, x: int, y: int) -> bool {
    let p = alignment_positions(version);
    let size = (version * 4 + 17) as int;
    exists|i: int, j: int|
        0 <= i < p.len() && 0 <= j < p.len() && alignment_center_used(size, p[i] as int, p[j] as int)
            && #[trigger] near(p[i] as int, p[j] as int, x, y, 2) && alignment_color(
            p[i] as int,
            p[j] as int,
            x,
            y,
        )
}

/// Cells kept for the format information, including the single dark module.
pub open spec fn in_format_area(size: int, x: int, y: int) -> bool {
    ||| (x == 8 && 0 <= y <= 8 && y != 6)
    ||| (y == 8 && 0 <= x <= 8 && x != 6)
    ||| (y == 8 && size - 8 <= x < size)
    ||| (x == 8 && size - 8 <= y < size)
}

/// The always-dark module beside the lower left finder.
pub open spec fn is_dark_module(size: int, x: int, y: int) -> bool {
    x == 8 && y == size - 8
}

/// Cells of the two version information blocks (versions 7 and up).
pub open spec fn in_version_area(version: nat, x: int, y: int) -> bool {
    let size = (version * 4 + 17) as int;
    version >= 7 && ((size - 11 <= x <= size - 9 && 0 <= y <= 5) || (size - 11 <= y <= size - 9
        && 0 <= x <= 5))
}

/// Index of the version information bit shown at (x, y).
pub open spec fn version_bit_index(version: nat, x: int, y: int) -> int {
    let size = (version * 4 + 17) as int;
    if size - 11 <= x <= size - 9 && 0 <= y <= 5 {
        (x - (size - 11)) + 3 * y
    } else {
        (y - (size - 11)) + 3 * x
    }
}

/// Bit `i` of a word.
pub open spec fn bit_of(bits: u32, i: int) -> bool {
    (bits >> (i as u32)) & 1u32 != 0u32
}

/// The cell is a function module: any part of a pattern or a reserved area.
pub open spec fn is_function(version: nat, x: int, y: int) -> bool {
    let size = (version * 4 + 17) as int;
    0 <= x < size && 0 <= y < size && (in_finder(size, x, y) || in_timing(size, x, y) || in_alignment(
        version,
        x,
        y,
    ) || in_format_area(size, x, y) || in_version_area(version, x, y))
}

/// The colour of a function module after the patterns are drawn, before the format bits.
pub open spec fn function_dark(version: nat, version_bits: u32, x: int, y: int) -> bool {
    let size = (version * 4 + 17) as int;
    if in_version_area(version, x, y) {
        bit_of(version_bits, version_bit_index(version, x, y))
    } else if is_dark_module(size, x, y) {
        true
    } else if in_alignment(version, x, y) {
        alignment_dark(version, x, y)
    } else if in_timing(size, x, y) {
        timing_dark(size, x, y)
    } else if in_finder(size, x, y) {
        finder_dark(size, x, y)
    } else {
        false
    }
}

/// Whether mask pattern `mask` flips the data module at (x, y).
pub open spec fn mask_flips(mask: u8, x: int, y: int) -> bool {
    if mask == 0 {
        (x + y) % 2 == 0
    } else if mask == 1 {
        y % 2 == 0
    } else if mask == 2 {
        x % 3 == 0
    } else if mask == 3 {
        (x + y) % 3 == 0
    } else if mask == 4 {
        (y / 2 + x / 3) % 2 == 0
    } else if mask == 5 {
        (x * y) % 2 + (x * y) % 3 == 0
    } else if mask == 6 {
        ((x * y) % 2 + (x * y) % 3) % 2 == 0
    } else if mask == 7 {
        ((x + y) % 2 + (x * y) % 3) % 2 == 0
    } else {
        false
    }
}

/// `g` has `size` rows of `size` cells.
pub open spec fn square(g: Seq<Seq<bool>>, size: int) -> bool {
    g.len() == size && forall|y: int| 0 <= y < size ==> #[trigger] g[y].len() == size
}

/// Every cell of `g` in the region `done` has the colour `color`; every other cell is as in `base`.
pub open spec fn painted(
    g: Seq<Seq<bool>>,
    base: Seq<Seq<bool>>,
    size: int,
    done: spec_fn(int, int) -> bool,
    color: spec_fn(int, int) -> bool,
) -> bool {
    forall|x: int, y: int|
        0 <= x < size && 0 <= y < size ==> #[trigger] g[y][x] == if done(x, y) {
            color(x, y)
        } else {
            base[y][x]
        }
}

/// Painting one more cell extends the painted region by that cell.
pub proof fn lemma_paint_cell(
    before: Seq<Seq<bool>>,
    after: Seq<Seq<bool>>,
    base: Seq<Seq<bool>>,
    size: int,
    done: spec_fn(int, int) -> bool,
    done2: spec_fn(int, int) -> bool,
    color: spec_fn(int, int) -> bool,
    px: int,
    py: int,
)
    requires
        square(before, size),
        painted(before, base, size, done, color),
        0 <= px < size,
        0 <= py < size,
        after == before.update(py, before[py].update(px, color(px, py))),
        forall|x: int, y: int|
            0 <= x < size && 0 <= y < size ==> #[trigger] done2(x, y) == (done(x, y) || (x == px && y
                == py)),
    ensures
        square(after, size),
        painted(after, base, size, done2, color),
{
    assert forall|x: int, y: int| 0 <= x < size && 0 <= y < size implies #[trigger] after[y][x] == if done2(
        x,
        y,
    ) {
        color(x, y)
    } else {
        base[y][x]
    } by {
        assert(done2(x, y) == (done(x, y) || (x == px && y == py)));
        if x == px && y == py {
        } else {
            assert(after[y][x] == before[y][x]);
        }
    }
}

/// A painted region may be described by any predicate that agrees with it on the grid.
pub proof fn lemma_paint_same(
    g: Seq<Seq<bool>>,
    base: Seq<Seq<bool>>,
    size: int,
    done: spec_fn(int, int) -> bool,
    done2: spec_fn(int, int) -> bool,
    color: spec_fn(int, int) -> bool,
    color2: spec_fn(int, int) -> bool,
)
    requires
        painted(g, base, size, done, color),
        forall|x: int, y: int|
            0 <= x < size && 0 <= y < size ==> #[trigger] done2(x, y) == done(x, y),
        forall|x: int, y: int|
            0 <= x < size && 0 <= y < size && done(x, y) ==> #[trigger] color2(x, y) == color(x, y),
    ensures
        painted(g, base, size, done2, color2),
{
    assert forall|x: int, y: int| 0 <= x < size && 0 <= y < size implies #[trigger] g[y][x] == if done2(
        x,
        y,
    ) {
        color2(x, y)
    } else {
        base[y][x]
    } by {
        assert(done2(x, y) == done(x, y));
        if done(x, y) {
            assert(color2(x, y) == color(x, y));
        }
    }
}

/// The pair of position indices (a, b) comes before (i, j) in the drawing order.
pub open spec fn pair_before(a: int, b: int, i: int, j: int) -> bool {
    a < i || (a == i && b < j)
}

/// The cell lies within one of the alignment patterns drawn before the pair (i, j).
pub open spec fn alignment_drawn(version: nat, i: int, j: int, x: int, y: int) -> bool {
    let p = alignment_positions(version);
    let size = (version * 4 + 17) as int;
    exists|a: int, b: int|
        0 <= a < p.len() && 0 <= b < p.len() && pair_before(a, b, i, j) && alignment_center_used(
            size,
            p[a] as int,
            p[b] as int,
        ) && #[trigger] near(p[a] as int, p[b] as int, x, y, 2)
}

/// Alignment colour of a cell within an alignment pattern drawn before the pair (i, j).
pub open spec fn alignment_drawn_dark(version: nat, i: int, j: int, x: int, y: int) -> bool {
    let p = alignment_positions(version);
    let size = (version * 4 + 17) as int;
    exists|a: int, b: int|
        0 <= a < p.len() && 0 <= b < p.len() && pair_before(a, b, i, j) && alignment_center_used(
            size,
            p[a] as int,
            p[b] as int,
        ) && #[trigger] near(p[a] as int, p[b] as int, x, y, 2) && alignment_color(
            p[a] as int,
            p[b] as int,
            x,
            y,
        )
}

/// Two alignment patterns never share a cell.
pub proof fn lemma_alignment_disjoint(version: nat, a: int, b: int, c: int, d: int, x: int, y: int)
    requires
        1 <= version <= 40,
        0 <= a < alignment_positions(version).len(),
        0 <= b < alignment_positions(version).len(),
        0 <= c < alignment_positions(version).len(),
        0 <= d < alignment_positions(version).len(),
        near(
            alignment_positions(version)[a] as int,
            alignment_positions(version)[b] as int,
            x,
            y,
            2,
        ),
        near(
            alignment_positions(version)[c] as int,
            alignment_positions(version)[d] as int,
            x,
            y,
            2,
        ),
    ensures
        a == c,
        b == d,
{
    lemma_alignment_positions(version);
    let p = alignment_positions(version);
    if a < c {
        assert(p[a] + 12 <= p[c]);
    }
    if c < a {
        assert(p[c] + 12 <= p[a]);
    }
    if b < d {
        assert(p[b] + 12 <= p[d]);
    }
    if d < b {
        assert(p[d] + 12 <= p[b]);
    }
}

/// Drawing the pattern of the pair (i, j), if it is used, adds exactly its cells.
pub proof fn lemma_alignment_drawn_step(version: nat, i: int, j: int, x: int, y: int)
    requires
        1 <= version <= 40,
        0 <= i < alignment_positions(version).len(),
        0 <= j < alignment_positions(version).len(),
    ensures
        ({
            let p = alignment_positions(version);
            let size = (version * 4 + 17) as int;
            let here = alignment_center_used(size, p[i] as int, p[j] as int) && near(
                p[i] as int,
                p[j] as int,
                x,
                y,
                2,
            );
            &&& alignment_drawn(version, i, j + 1, x, y) == (here || alignment_drawn(
                version,
                i,
                j,
                x,
                y,
            ))
            &&& alignment_drawn_dark(version, i, j + 1, x, y) == if here {
                alignment_color(p[i] as int, p[j] as int, x, y)
            } else {
                alignment_drawn_dark(version, i, j, x, y)
            }
        }),
{
    let p = alignment_positions(version);
    let size = (version * 4 + 17) as int;
    let here = alignment_center_used(size, p[i] as int, p[j] as int) && near(
        p[i] as int,
        p[j] as int,
        x,
        y,
        2,
    );
    if here {
        assert(near(p[i] as int, p[j] as int, x, y, 2));
        assert(alignment_drawn(version, i, j + 1, x, y));
        if alignment_drawn_dark(version, i, j + 1, x, y) {
            let (a, b) = choose|a: int, b: int|
                0 <= a < p.len() && 0 <= b < p.len() && pair_before(a, b, i, j + 1)
                    && alignment_center_used(size, p[a] as int, p[b] as int) && #[trigger] near(
                    p[a] as int,
                    p[b] as int,
                    x,
                    y,
                    2,
                ) && alignment_color(p[a] as int, p[b] as int, x, y);
            lemma_alignment_disjoint(version, a, b, i, j, x, y);
        }
        if alignment_color(p[i] as int, p[j] as int, x, y) {
            assert(alignment_drawn_dark(version, i, j + 1, x, y));
        }
    } else {
        if alignment_drawn(version, i, j + 1, x, y) {
            let (a, b) = choose|a: int, b: int|
                0 <= a < p.len() && 0 <= b < p.len() && pair_before(a, b, i, j + 1)
                    && alignment_center_used(size, p[a] as int, p[b] as int) && #[trigger] near(
                    p[a] as int,
                    p[b] as int,
                    x,
                    y,
                    2,
                );
            assert(pair_before(a, b, i, j));
            assert(near(p[a] as int, p[b] as int, x, y, 2));
        }
        if alignment_drawn(version, i, j, x, y) {
            let (a, b) = choose|a: int, b: int|
                0 <= a < p.len() && 0 <= b < p.len() && pair_before(a, b, i, j)
                    && alignment_center_used(size, p[a] as int, p[b] as int) && #[trigger] near(
                    p[a] as int,
                    p[b] as int,
                    x,
                    y,
                    2,
                );
            assert(pair_before(a, b, i, j + 1));
        }
        if alignment_drawn_dark(version, i, j + 1, x, y) {
            let (a, b) = choose|a: int, b: int|
                0 <= a < p.len() && 0 <= b < p.len() && pair_before(a, b, i, j + 1)
                    && alignment_center_used(size, p[a] as int, p[b] as int) && #[trigger] near(
                    p[a] as int,
                    p[b] as int,
                    x,
                    y,
                    2,
                ) && alignment_color(p[a] as int, p[b] as int, x, y);
            assert(pair_before(a, b, i, j));
        }
        if alignment_drawn_dark(version, i, j, x, y) {
            let (a, b) = choose|a: int, b: int|
                0 <= a < p.len() && 0 <= b < p.len() && pair_before(a, b, i, j)
                    && alignment_center_used(size, p[a] as int, p[b] as int) && #[trigger] near(
                    p[a] as int,
                    p[b] as int,
                    x,
                    y,
                    2,
                ) && alignment_color(p[a] as int, p[b] as int, x, y);
            assert(pair_before(a, b, i, j + 1));
        }
    }
}

/// Finishing a row of pairs: nothing more is drawn between (i, len) and (i + 1, 0);
/// and after the last row the drawn cells are exactly the alignment cells.
pub proof fn lemma_alignment_drawn_row(version: nat, i: int, x: int, y: int)
    requires
        1 <= version <= 40,
        0 <= i <= alignment_positions(version).len(),
    ensures
        i < alignment_positions(version).len() ==> alignment_drawn(version, i, alignment_positions(version).len() as int, x, y)
            == alignment_drawn(version, i + 1, 0, x, y),
        i < alignment_positions(version).len() ==> alignment_drawn_dark(version, i, alignment_positions(version).len() as int, x, y)
            == alignment_drawn_dark(version, i + 1, 0, x, y),
        i == alignment_positions(version).len() ==> alignment_drawn(version, i, 0, x, y) == in_alignment(version, x, y),
        i == alignment_positions(version).len() ==> alignment_drawn_dark(version, i, 0, x, y) == alignment_dark(version, x, y),
        i == 0 ==> !alignment_drawn(version, 0, 0, x, y),
        i == 0 ==> !alignment_drawn_dark(version, 0, 0, x, y),
{
    let p = alignment_positions(version);
    let n = p.len() as int;
    let size = (version * 4 + 17) as int;
    if i < n {
        if alignment_drawn(version, i, n, x, y) {
            let (a, b) = choose|a: int, b: int|
                0 <= a < p.len() && 0 <= b < p.len() && pair_before(a, b, i, n)
                    && alignment_center_used(size, p[a] as int, p[b] as int) && #[trigger] near(
                    p[a] as int,
                    p[b] as int,
                    x,
                    y,
                    2,
                );
            assert(pair_before(a, b, i + 1, 0));
        }
        if alignment_drawn(version, i + 1, 0, x, y) {
            let (a, b) = choose|a: int, b: int|
                0 <= a < p.len() && 0 <= b < p.len() && pair_before(a, b, i + 1, 0)
                    && alignment_center_used(size, p[a] as int, p[b] as int) && #[trigger] near(
                    p[a] as int,
                    p[b] as int,
                    x,
                    y,
                    2,
                );
            assert(pair_before(a, b, i, n));
        }
        if alignment_drawn_dark(version, i, n, x, y) {
            let (a, b) = choose|a: int, b: int|
                0 <= a < p.len() && 0 <= b < p.len() && pair_before(a, b, i, n)
                    && alignment_center_used(size, p[a] as int, p[b] as int) && #[trigger] near(
                    p[a] as int,
                    p[b] as int,
                    x,
                    y,
                    2,
                ) && alignment_color(p[a] as int, p[b] as int, x, y);
            assert(pair_before(a, b, i + 1, 0));
        }
        if alignment_drawn_dark(version, i + 1, 0, x, y) {
            let (a, b) = choose|a: int, b: int|
                0 <= a < p.len() && 0 <= b < p.len() && pair_before(a, b, i + 1, 0)
                    && alignment_center_used(size, p[a] as int, p[b] as int) && #[trigger] near(
                    p[a] as int,
                    p[b] as int,
                    x,
                    y,
                    2,
                ) && alignment_color(p[a] as int, p[b] as int, x, y);
            assert(pair_before(a, b, i, n));
        }
    }
    if i == n {
        if in_alignment(version, x, y) {
            let (a, b) = choose|a: int, b: int|
                0 <= a < p.len() && 0 <= b < p.len() && alignment_center_used(size, p[a] as int, p[b] as int)
                    && #[trigger] near(p[a] as int, p[b] as int, x, y, 2);
            assert(pair_before(a, b, i, 0));
        }
        if alignment_dark(version, x, y) {
            let (a, b) = choose|a: int, b: int|
                0 <= a < p.len() && 0 <= b < p.len() && alignment_center_used(size, p[a] as int, p[b] as int)
                    && #[trigger] near(p[a] as int, p[b] as int, x, y, 2) && alignment_color(p[a] as int, p[b] as int, x, y);
            assert(pair_before(a, b, i, 0));
        }
    }
}

/// Number of cells visited by the zigzag walk over a matrix of side `size` (all columns but 6).
pub open spec fn zig_len(size: int) -> int {
    (size - 1) * size
}

/// Right column of the `c`-th column pair of the zigzag walk; column 6 is skipped.
pub open spec fn zig_right(size: int, c: int) -> int {
    if size - 1 - 2 * c > 6 {
        size - 1 - 2 * c
    } else {
        size - 2 - 2 * c
    }
}

/// Whether the column pair whose right column is `right` is walked upwards.
pub open spec fn zig_upward(right: int) -> bool {
    ((right + 1) / 2) % 2 == 0
}

/// Column of the `t`-th cell of the zigzag walk.
pub open spec fn zig_x(size: int, t: int) -> int {
    zig_right(size, t / (2 * size)) - (t % (2 * size)) % 2
}

/// Row of the `t`-th cell of the zigzag walk.
pub open spec fn zig_y(size: int, t: int) -> int {
    let right = zig_right(size, t / (2 * size));
    let vertical = (t % (2 * size)) / 2;
    if zig_upward(right) {
        size - 1 - vertical
    } else {
        vertical
    }
}

/// Position of the cell (x, y) in the zigzag walk.
pub open spec fn zig_index(size: int, x: int, y: int) -> int {
    let c = if x > 6 {
        (size - 1 - x) / 2
    } else {
        (size - 2 - x) / 2
    };
    let right = zig_right(size, c);
    let vertical = if zig_upward(right) {
        size - 1 - y
    } else {
        y
    };
    c * (2 * size) + vertical * 2 + (right - x)
}

/// The zigzag walk visits a cell of the matrix outside column 6, and its index is its position.
pub proof fn lemma_zig_cell(size: int, t: int)
    requires
        21 <= size,
        size % 2 == 1,
        0 <= t < zig_len(size),
    ensures
        0 <= zig_x(size, t) < size,
        zig_x(size, t) != 6,
        0 <= zig_y(size, t) < size,
        zig_index(size, zig_x(size, t), zig_y(size, t)) == t,
{
    let d = 2 * size;
    let q = t / d;
    let r = t % d;
    vstd::arithmetic::div_mod::lemma_fundamental_div_mod(t, d);
    assert(0 <= r < d);
    assert(q * d <= t);
    assert(0 <= q) by (nonlinear_arith)
        requires
            t >= 0,
            d > 0,
            q == t / d,
    ;
    assert(2 * q < size - 1) by (nonlinear_arith)
        requires
            q * d <= t,
            t < (size - 1) * size,
            d == 2 * size,
            size > 0,
    ;
    let x = zig_x(size, t);
    let c = if x > 6 {
        (size - 1 - x) / 2
    } else {
        (size - 2 - x) / 2
    };
    assert(c == q);
    assert(t == q * d + (r / 2) * 2 + r % 2);
}

/// Every cell outside column 6 has a position in the zigzag walk, and the walk visits it there.
pub proof fn lemma_zig_index(size: int, x: int, y: int)
    requires
        21 <= size,
        size % 2 == 1,
        0 <= x < size,
        0 <= y < size,
        x != 6,
    ensures
        0 <= zig_index(size, x, y) < zig_len(size),
        zig_x(size, zig_index(size, x, y)) == x,
        zig_y(size, zig_index(size, x, y)) == y,
{
    let d = 2 * size;
    let c = if x > 6 {
        (size - 1 - x) / 2
    } else {
        (size - 2 - x) / 2
    };
    let right = zig_right(size, c);
    let vertical = if zig_upward(right) {
        size - 1 - y
    } else {
        y
    };
    let r = vertical * 2 + (right - x);
    assert(0 <= r < d);
    assert(0 <= c);
    assert(2 * c < size - 1);
    let t = zig_index(size, x, y);
    assert(t == c * d + r);
    vstd::arithmetic::div_mod::lemma_fundamental_div_mod_converse(t, d, c, r);
    assert(2 * (c + 1) <= size - 1);
    assert((c + 1) * d <= (size - 1) * size) by (nonlinear_arith)
        requires
            2 * (c + 1) <= size - 1,
            d == 2 * size,
            size > 0,
    ;
    assert(0 <= t < (size - 1) * size) by (nonlinear_arith)
        requires
            (c + 1) * d <= (size - 1) * size,
            t == c * d + r,
            0 <= r < d,
            0 <= c,
            2 * c < size - 1,
            d == 2 * size,
    ;
}

/// Number of free (not taken) cells among the first `t` cells of the zigzag walk.
pub open spec fn free_before(taken: Seq<Seq<bool>>, size: int, t: int) -> nat
    decreases t,
{
    if t <= 0 {
        0
    } else {
        free_before(taken, size, t - 1) + if taken[zig_y(size, t - 1)][zig_x(size, t - 1)] {
            0nat
        } else {
            1nat
        }
    }
}

/// Column of the `i`-th format bit of the copy beside the upper left finder.
pub open spec fn format_first_x(i: int) -> int {
    if i <= 7 {
        8
    } else if i == 8 {
        7
    } else {
        14 - i
    }
}

/// Row of the `i`-th format bit of the copy beside the upper left finder.
pub open spec fn format_first_y(i: int) -> int {
    if i <= 5 {
        i
    } else if i == 6 {
        7
    } else {
        8
    }
}

/// Column of the `i`-th format bit of the copy split between the other two finders.
pub open spec fn format_second_x(size: int, i: int) -> int {
    if i < 8 {
        size - 1 - i
    } else {
        8
    }
}

/// Row of the `i`-th format bit of the copy split between the other two finders.
pub open spec fn format_second_y(size: int, i: int) -> int {
    if i < 8 {
        8
    } else {
        size - 15 + i
    }
}

/// Index of the format bit shown at (x, y), or -1 where none is.
pub open spec fn format_cell(size: int, x: int, y: int) -> int {
    if x == 8 && 0 <= y <= 5 {
        y
    } else if x == 8 && y == 7 {
        6
    } else if x == 8 && y == 8 {
        7
    } else if y == 8 && x == 7 {
        8
    } else if y == 8 && 0 <= x <= 5 {
        14 - x
    } else if y == 8 && size - 8 <= x < size {
        size - 1 - x
    } else if x == 8 && size - 7 <= y < size {
        y - size + 15
    } else {
        -1
    }
}

/// Bit `i` of a 16-bit word.
pub open spec fn bit16(bits: u16, i: int) -> bool {
    (bits >> (i as u16)) & 1u16 != 0u16
}

} // verus!
