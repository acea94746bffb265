//! The penalty that decides between the eight masks: long runs, finder-like
//! stretches, 2x2 blocks of one colour, and the balance of dark and light.

use vstd::prelude::*;

use crate::bit_buffer::two_pow;
use crate::bit_grid::{count_cells, BitGrid};

verus! {

/// Length of the run of equal cells that ends at position `j` of `s`.
pub open spec fn run_len_at(s: Seq<bool>, j: int) -> nat
    decreases j,
{
    if j <= 0 {
        1
    } else if s[j] == s[j - 1] {
        run_len_at(s, j - 1) + 1
    } else {
        1
    }
}

/// Penalty of the run ending at `j`, if a maximal run of five or more cells ends there:
/// its length minus two.
pub open spec fn run_term(s: Seq<bool>, j: int) -> nat {
    if (j == s.len() - 1 || s[j + 1] != s[j]) && run_len_at(s, j) >= 5 {
        (run_len_at(s, j) - 2) as nat
    } else {
        0
    }
}

/// Penalty of the maximal runs that end before position `k`.
pub open spec fn run_penalty(s: Seq<bool>, k: int) -> nat
    decreases k,
{
    if k <= 0 {
        0
    } else {
        run_penalty(s, k - 1) + run_term(s, k - 1)
    }
}

/// The `count` cells of `s` from `start` read as a binary number, first cell most significant.
pub open spec fn pack_bits(s: Seq<bool>, start: int, count: nat) -> nat
    decreases count,
{
    if count == 0 {
        0
    } else {
        pack_bits(s, start, (count - 1) as nat) * 2 + if s[start + count - 1] {
            1nat
        } else {
            0nat
        }
    }
}

/// The eleven cells from `x` read 10111010000 or 00001011101 (dark = 1).
pub open spec fn finder_like(s: Seq<bool>, x: int) -> bool {
    pack_bits(s, x, 11) == 0x5D0 || pack_bits(s, x, 11) == 0x5D
}

/// Number of finder-like stretches starting before `k`.
pub open spec fn finder_count(s: Seq<bool>, k: int) -> nat
    decreases k,
{
    if k <= 0 {
        0
    } else {
        finder_count(s, k - 1) + if finder_like(s, k - 1) {
            1nat
        } else {
            0nat
        }
    }
}

/// Penalty of one row or column: its runs, and 40 for each finder-like stretch.
pub open spec fn line_penalty(s: Seq<bool>) -> nat {
    run_penalty(s, s.len() as int) + 40 * finder_count(s, s.len() - 10)
}

/// Column `x` of a grid given by rows.
pub open spec fn column(g: Seq<Seq<bool>>, x: int) -> Seq<bool> {
    Seq::new(g.len(), |y: int| g[y][x])
}

/// Penalty of the first `k` rows.
pub open spec fn rows_penalty(g: Seq<Seq<bool>>, k: int) -> nat
    decreases k,
{
    if k <= 0 {
        0
    } else {
        rows_penalty(g, k - 1) + line_penalty(g[k - 1])
    }
}

/// Penalty of the first `k` columns.
pub open spec fn columns_penalty(g: Seq<Seq<bool>>, k: int) -> nat
    decreases k,
{
    if k <= 0 {
        0
    } else {
        columns_penalty(g, k - 1) + line_penalty(column(g, k - 1))
    }
}

/// The 2x2 block with upper left cell (x, y) has one colour.
pub open spec fn same_block(g: Seq<Seq<bool>>, x: int, y: int) -> bool {
    g[y][x] == g[y][x + 1] && g[y][x] == g[y + 1][x] && g[y][x] == g[y + 1][x + 1]
}

/// Number of one-coloured 2x2 blocks in row `y` with upper left column below `k`.
pub open spec fn blocks_in_row(g: Seq<Seq<bool>>, y: int, k: int) -> nat
    decreases k,
{
    if k <= 0 {
        0
    } else {
        blocks_in_row(g, y, k - 1) + if same_block(g, k - 1, y) {
            1nat
        } else {
            0nat
        }
    }
}

/// Number of one-coloured 2x2 blocks with upper left row below `k` and column below `w`.
pub open spec fn blocks_upto(g: Seq<Seq<bool>>, w: int, k: int) -> nat
    decreases k,
{
    if k <= 0 {
        0
    } else {
        blocks_upto(g, w, k - 1) + blocks_in_row(g, k - 1, w)
    }
}

/// Ten points for each full five percent by which the dark share strays from one half,
/// beyond the first.
pub open spec fn balance_penalty(dark: nat, total: nat) -> nat {
    let imbalance = if dark * 20 >= total * 10 {
        dark * 20 - total * 10
    } else {
        total * 10 - dark * 20
    };
    let steps = (imbalance + total - 1) / (total as int);
    if steps >= 1 {
        ((steps - 1) * 10) as nat
    } else {
        0
    }
}

/// The total mask penalty of a square grid of side `size`.
pub open spec fn penalty(g: Seq<Seq<bool>>, size: int) -> nat {
    rows_penalty(g, size) + columns_penalty(g, size) + 3 * blocks_upto(g, size - 1, size - 1)
        + balance_penalty(count_cells(g), (size * size) as nat)
}

/// The eleven cells of row `y` from column `x`, read as a binary number.
pub(crate) fn row_pattern(grid: &BitGrid, x: usize, y: usize) -> (r: u16)
    requires
        grid.wf(),
        grid.spec_size() <= 177,
        x + 11 <= grid.spec_size(),
        y < grid.spec_size(),
    ensures
        r == pack_bits(grid@[y as int], x as int, 11),
{
    let mut bits: u16 = 0;
    let mut offset: usize = 0;
    while offset < 11
        invariant
            grid.wf(),
            grid.spec_size() <= 177,
            x + 11 <= grid.spec_size(),
            y < grid.spec_size(),
            offset <= 11,
            bits == pack_bits(grid@[y as int], x as int, offset as nat),
            bits < two_pow(offset as nat),
        decreases 11 - offset,
    {
        proof {
            lemma_two_pow_bound(offset as nat);
        }
        let cell = grid.get(x + offset, y);
        bits = bits * 2 + if cell {
            1u16
        } else {
            0u16
        };
        offset = offset + 1;
    }
    bits
}

/// The eleven cells of column `x` from row `y`, read as a binary number.
pub(crate) fn column_pattern(grid: &BitGrid, x: usize, y: usize) -> (r: u16)
    requires
        grid.wf(),
        grid.spec_size() <= 177,
        x < grid.spec_size(),
        y + 11 <= grid.spec_size(),
    ensures
        r == pack_bits(column(grid@, x as int), y as int, 11),
{
    proof {
        grid.lemma_shape();
    }
    let mut bits: u16 = 0;
    let mut offset: usize = 0;
    while offset < 11
        invariant
            grid.wf(),
            grid.spec_size() <= 177,
            x < grid.spec_size(),
            y + 11 <= grid.spec_size(),
            grid@.len() == grid.spec_size(),
            offset <= 11,
            bits == pack_bits(column(grid@, x as int), y as int, offset as nat),
            bits < two_pow(offset as nat),
        decreases 11 - offset,
    {
        proof {
            lemma_two_pow_bound(offset as nat);
        }
        let cell = grid.get(x, y + offset);
        bits = bits * 2 + if cell {
            1u16
        } else {
            0u16
        };
        offset = offset + 1;
    }
    bits
}

/// Powers of two up to the tenth stay within 1024.
proof fn lemma_two_pow_bound(n: nat)
    requires
        n <= 10,
    ensures
        two_pow(n) <= 1024,
    decreases 10 - n,
{
    if n < 10 {
        lemma_two_pow_bound(n + 1);
    } else {
        reveal_with_fuel(two_pow, 11);
    }
}


/// Penalty of row `y`: its runs and its finder-like stretches.
pub(crate) fn row_penalty(grid: &BitGrid, y: usize) -> (r: usize)
    requires
        grid.wf(),
        21 <= grid.spec_size() <= 177,
        y < grid.spec_size(),
    ensures
        r == line_penalty(grid@[y as int]),
        r <= 41 * 177,
{
    proof {
        grid.lemma_shape();
    }
    let ghost row = grid@[y as int];
    let size = grid.size();
    let mut score: usize = 0;
    let mut run_color = grid.get(0, y);
    let mut run_len: usize = 1;
    let mut x: usize = 1;
    while x < size
        invariant
            grid.wf(),
            size == grid.spec_size(),
            21 <= size <= 177,
            y < size,
            row == grid@[y as int],
            row.len() == size,
            1 <= x <= size,
            run_len == run_len_at(row, x - 1),
            run_color == row[x - 1],
            score == run_penalty(row, x - 1),
            score + run_len <= x,
        decreases size - x,
    {
        let dark = grid.get(x, y);
        if dark == run_color {
            run_len = run_len + 1;
        } else {
            if run_len >= 5 {
                score = score + (run_len - 2);
            }
            run_color = dark;
            run_len = 1;
        }
        x = x + 1;
    }
    if run_len >= 5 {
        score = score + (run_len - 2);
    }
    proof {
        assert(score == run_penalty(row, size as int));
    }
    let mut x: usize = 0;
    while x + 11 <= size
        invariant
            grid.wf(),
            size == grid.spec_size(),
            21 <= size <= 177,
            y < size,
            row == grid@[y as int],
            row.len() == size,
            x <= size - 10,
            score == run_penalty(row, size as int) + 40 * finder_count(row, x as int),
            score <= size + 40 * x,
        decreases size - x,
    {
        let pattern = row_pattern(grid, x, y);
        if pattern == 0x5D0u16 || pattern == 0x5Du16 {
            score = score + 40;
        }
        x = x + 1;
    }
    score
}

/// Penalty of column `x`: its runs and its finder-like stretches.
pub(crate) fn column_penalty(grid: &BitGrid, x: usize) -> (r: usize)
    requires
        grid.wf(),
        21 <= grid.spec_size() <= 177,
        x < grid.spec_size(),
    ensures
        r == line_penalty(column(grid@, x as int)),
        r <= 41 * 177,
{
    proof {
        grid.lemma_shape();
    }
    let ghost col = column(grid@, x as int);
    let size = grid.size();
    let mut score: usize = 0;
    let mut run_color = grid.get(x, 0);
    let mut run_len: usize = 1;
    let mut y: usize = 1;
    while y < size
        invariant
            grid.wf(),
            size == grid.spec_size(),
            21 <= size <= 177,
            x < size,
            col == column(grid@, x as int),
            col.len() == size,
            1 <= y <= size,
            run_len == run_len_at(col, y - 1),
            run_color == col[y - 1],
            score == run_penalty(col, y - 1),
            score + run_len <= y,
        decreases size - y,
    {
        let dark = grid.get(x, y);
        if dark == run_color {
            run_len = run_len + 1;
        } else {
            if run_len >= 5 {
                score = score + (run_len - 2);
            }
            run_color = dark;
            run_len = 1;
        }
        y = y + 1;
    }
    if run_len >= 5 {
        score = score + (run_len - 2);
    }
    proof {
        assert(score == run_penalty(col, size as int));
    }
    let mut y: usize = 0;
    while y + 11 <= size
        invariant
            grid.wf(),
            size == grid.spec_size(),
            21 <= size <= 177,
            x < size,
            col == column(grid@, x as int),
            col.len() == size,
            y <= size - 10,
            score == run_penalty(col, size as int) + 40 * finder_count(col, y as int),
            score <= size + 40 * y,
        decreases size - y,
    {
        let pattern = column_pattern(grid, x, y);
        if pattern == 0x5D0u16 || pattern == 0x5Du16 {
            score = score + 40;
        }
        y = y + 1;
    }
    score
}

/// Number of one-coloured 2x2 blocks.
pub(crate) fn block_count(grid: &BitGrid) -> (r: usize)
    requires
        grid.wf(),
        21 <= grid.spec_size() <= 177,
    ensures
        r == blocks_upto(grid@, grid.spec_size() - 1, grid.spec_size() - 1),
        r <= 177 * 177,
{
    proof {
        grid.lemma_shape();
    }
    let size = grid.size();
    let mut count: usize = 0;
    let mut y: usize = 0;
    while y < size - 1
        invariant
            grid.wf(),
            size == grid.spec_size(),
            21 <= size <= 177,
            y <= size - 1,
            count == blocks_upto(grid@, size - 1, y as int),
            count <= y * 177,
        decreases size - y,
    {
        let ghost before = count;
        let mut x: usize = 0;
        while x < size - 1
            invariant
                grid.wf(),
                size == grid.spec_size(),
                21 <= size <= 177,
                y < size - 1,
                x <= size - 1,
                count == before + blocks_in_row(grid@, y as int, x as int),
                before == blocks_upto(grid@, size - 1, y as int),
                before <= y * 177,
                count <= before + x,
            decreases size - x,
        {
            let dark = grid.get(x, y);
            if dark == grid.get(x + 1, y) && dark == grid.get(x, y + 1) && dark == grid.get(x + 1, y + 1) {
                count = count + 1;
            }
            x = x + 1;
        }
        y = y + 1;
    }
    count
}

} // verus!
