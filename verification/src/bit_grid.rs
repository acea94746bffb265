//! A square matrix of bits, stored row by row in 64-bit words.

use vstd::prelude::*;

verus! {

/// Bit `k` of the word `w`.
pub open spec fn word_bit(w: u64, k: int) -> bool {
    (w >> (k as u64)) & 1u64 != 0u64
}

/// Position of the cell (x, y) in the row-major order of a grid of side `size`.
pub open spec fn cell_index(size: nat, x: int, y: int) -> int {
    y * size + x
}

/// Number of `true` entries of a sequence.
pub open spec fn count_true(s: Seq<bool>) -> nat
    decreases s.len(),
{
    if s.len() == 0 {
        0
    } else {
        count_true(s.drop_last()) + if s.last() {
            1nat
        } else {
            0nat
        }
    }
}

/// Number of `true` cells over all rows.
pub open spec fn count_cells(rows: Seq<Seq<bool>>) -> nat
    decreases rows.len(),
{
    if rows.len() == 0 {
        0
    } else {
        count_cells(rows.drop_last()) + count_true(rows.last())
    }
}

/// The rows of a grid laid end to end.
pub open spec fn row_major(rows: Seq<Seq<bool>>, size: nat) -> Seq<bool> {
    Seq::new(size * size, |i: int| rows[i / (size as int)][i % (size as int)])
}

/// A square grid of dark (true) and light (false) cells.
#[derive(Clone, Debug, PartialEq, Eq)]
pub struct BitGrid {
    size: usize,
    words: Vec<u64>,
}

impl View for BitGrid {
    type V = Seq<Seq<bool>>;

    /// The rows of the grid: the cell (x, y) is `view[y][x]`.
    closed spec fn view(&self) -> Seq<Seq<bool>> {
        Seq::new(
            self.size as nat,
            |y: int|
                Seq::new(
                    self.size as nat,
                    |x: int|
                        word_bit(
                            self.words@[cell_index(self.size as nat, x, y) / 64],
                            cell_index(self.size as nat, x, y) % 64,
                        ),
                ),
        )
    }
}

proof fn lemma_cell_in_range(size: nat, x: int, y: int)
    requires
        0 <= x < size,
        0 <= y < size,
    ensures
        0 <= cell_index(size, x, y) < size * size,
{
    assert(0 <= y * size + x < size * size) by (nonlinear_arith)
        requires
            0 <= x < size,
            0 <= y < size,
    ;
}

proof fn lemma_word_bit_set(w: u64, k: u64, j: u64)
    requires
        k < 64,
        j < 64,
    ensures
        word_bit(w | (1u64 << k), j as int) == (j == k || word_bit(w, j as int)),
        word_bit(w & !(1u64 << k), j as int) == (j != k && word_bit(w, j as int)),
{
    assert(((w | (1u64 << k)) >> j) & 1u64 != 0u64 <==> (j == k || (w >> j) & 1u64 != 0u64))
        by (bit_vector)
        requires
            k < 64,
            j < 64,
    ;
    assert(((w & !(1u64 << k)) >> j) & 1u64 != 0u64 <==> (j != k && (w >> j) & 1u64 != 0u64))
        by (bit_vector)
        requires
            k < 64,
            j < 64,
    ;
}

proof fn lemma_cell_index_unique(size: nat, x1: int, y1: int, x2: int, y2: int)
    requires
        0 <= x1 < size,
        0 <= y1 < size,
        0 <= x2 < size,
        0 <= y2 < size,
        cell_index(size, x1, y1) == cell_index(size, x2, y2),
    ensures
        x1 == x2,
        y1 == y2,
{
    vstd::arithmetic::div_mod::lemma_fundamental_div_mod_converse(y1 * size + x1, size as int, y1, x1);
    vstd::arithmetic::div_mod::lemma_fundamental_div_mod_converse(y2 * size + x2, size as int, y2, x2);
}

impl BitGrid {
    /// Side length of the grid.
    pub closed spec fn spec_size(&self) -> nat {
        self.size as nat
    }

    /// Internal consistency: enough words for every cell, and the bits past the last cell clear.
    pub closed spec fn wf(&self) -> bool {
        &&& self.size * self.size + 63 <= usize::MAX
        &&& self.words@.len() == (self.size * self.size + 63) / 64
        &&& forall|i: int|
            self.size * self.size <= i < self.words@.len() * 64 ==> !#[trigger] word_bit(self.words@[i / 64], i % 64)
    }

    /// The cell at column `x`, row `y`.
    pub open spec fn cell(&self, x: int, y: int) -> bool {
        self@[y][x]
    }

    /// The view has `size` rows of `size` cells.
    pub proof fn lemma_shape(&self)
        ensures
            self@.len() == self.spec_size(),
            forall|y: int| 0 <= y < self.spec_size() ==> #[trigger] self@[y].len() == self.spec_size(),
    {
    }

    /// A grid of side `size` with every cell light.
    pub fn new(size: usize) -> (grid: Self)
        requires
            size * size + 63 <= usize::MAX,
        ensures
            grid.wf(),
            grid.spec_size() == size,
            grid@ == Seq::new(size as nat, |y: int| Seq::new(size as nat, |x: int| false)),
    {
        assert(0 <= size * size) by (nonlinear_arith);
        let word_len = (size * size + 63) / 64;
        let words = vec![0u64; word_len];
        let grid = BitGrid { size, words };
        proof {
            assert forall|y: int| 0 <= y < size implies #[trigger] grid@[y] =~= Seq::new(size as nat, |x: int| false) by {
                assert forall|x: int| 0 <= x < size implies !#[trigger] grid@[y][x] by {
                    lemma_cell_in_range(size as nat, x, y);
                    let i = cell_index(size as nat, x, y);
                    assert(grid.words@[i / 64] == 0u64);
                    let k = (i % 64) as u64;
                    assert((0u64 >> k) & 1u64 == 0u64) by (bit_vector);
                }
            }
            assert(grid@ =~= Seq::new(size as nat, |y: int| Seq::new(size as nat, |x: int| false)));
            assert forall|i: int| size * size <= i < grid.words@.len() * 64 implies !#[trigger] word_bit(grid.words@[i / 64], i % 64) by {
                assert(0 <= i / 64 < word_len);
                assert(grid.words@[i / 64] == 0u64);
                let k = (i % 64) as u64;
                assert((0u64 >> k) & 1u64 == 0u64) by (bit_vector);
            }
        }
        grid
    }

    /// Side length of the grid.
    pub fn size(&self) -> (r: usize)
        ensures
            r == self.spec_size(),
    {
        self.size
    }

    /// Whether the cell (x, y) is dark.
    pub fn get(&self, x: usize, y: usize) -> (r: bool)
        requires
            self.wf(),
            x < self.spec_size(),
            y < self.spec_size(),
        ensures
            r == self.cell(x as int, y as int),
    {
        proof {
            lemma_cell_in_range(self.size as nat, x as int, y as int);
        }
        let bit_index = y * self.size + x;
        let word = self.words[bit_index / 64];
        ((word >> ((bit_index % 64) as u64)) & 1) != 0
    }

    /// Makes the cell (x, y) dark or light.
    pub fn set(&mut self, x: usize, y: usize, dark: bool)
        requires
            old(self).wf(),
            x < old(self).spec_size(),
            y < old(self).spec_size(),
        ensures
            final(self).wf(),
            final(self).spec_size() == old(self).spec_size(),
            final(self)@ == old(self)@.update(y as int, old(self)@[y as int].update(x as int, dark)),
    {
        proof {
            lemma_cell_in_range(self.size as nat, x as int, y as int);
        }
        let bit_index = y * self.size + x;
        let word_index = bit_index / 64;
        let shift = (bit_index % 64) as u64;
        let ghost old_view = self@;
        let ghost old_words = self.words@;
        let mask = 1u64 << shift;
        let word = self.words[word_index];
        let updated = if dark {
            word | mask
        } else {
            word & !mask
        };
        self.words.set(word_index, updated);
        proof {
            let target = old_view.update(y as int, old_view[y as int].update(x as int, dark));
            assert forall|yy: int| 0 <= yy < self.size implies #[trigger] self@[yy] =~= target[yy] by {
                assert forall|xx: int| 0 <= xx < self.size implies #[trigger] self@[yy][xx] == target[yy][xx] by {
                    lemma_cell_in_range(self.size as nat, xx, yy);
                    let i = cell_index(self.size as nat, xx, yy);
                    lemma_word_bit_set(word, shift, (i % 64) as u64);
                    if i / 64 != word_index as int {
                        assert(self.words@[i / 64] == old_words[i / 64]);
                    } else if i != bit_index as int {
                        assert(i % 64 != bit_index as int % 64);
                    }
                    if xx != x || yy != y {
                        if i == bit_index as int {
                            lemma_cell_index_unique(self.size as nat, xx, yy, x as int, y as int);
                        }
                    }
                }
            }
            assert(self@ =~= target);
            assert forall|i: int| self.size * self.size <= i < self.words@.len() * 64 implies !#[trigger] word_bit(self.words@[i / 64], i % 64) by {
                assert(!word_bit(old_words[i / 64], i % 64));
                if i / 64 == word_index as int {
                    lemma_word_bit_set(word, shift, (i % 64) as u64);
                    assert(i % 64 != bit_index as int % 64);
                }
            }
        }
    }

    /// Flips the cell (x, y) between dark and light.
    pub fn invert(&mut self, x: usize, y: usize)
        requires
            old(self).wf(),
            x < old(self).spec_size(),
            y < old(self).spec_size(),
        ensures
            final(self).wf(),
            final(self).spec_size() == old(self).spec_size(),
            final(self)@ == old(self)@.update(
                y as int,
                old(self)@[y as int].update(x as int, !old(self).cell(x as int, y as int)),
            ),
    {
        let dark = self.get(x, y);
        self.set(x, y, !dark);
    }

    /// Number of dark cells.
    pub fn count_dark(&self) -> (r: usize)
        requires
            self.wf(),
        ensures
            r == count_cells(self@),
            r <= self.spec_size() * self.spec_size(),
    {
        let mut count: usize = 0;
        let mut y: usize = 0;
        while y < self.size
            invariant
                self.wf(),
                y <= self.size,
                count <= y * self.size,
                count == count_cells(self@.subrange(0, y as int)),
            decreases self.size - y,
        {
            let ghost before = count;
            let mut x: usize = 0;
            while x < self.size
                invariant
                    self.wf(),
                    y < self.size,
                    x <= self.size,
                    count <= y * self.size + x,
                    count == before + count_true(self@[y as int].subrange(0, x as int)),
                decreases self.size - x,
            {
                proof {
                    lemma_cell_in_range(self.size as nat, x as int, y as int);
                    assert(self@[y as int].subrange(0, x + 1).drop_last() =~= self@[y as int].subrange(0, x as int));
                }
                if self.get(x, y) {
                    count = count + 1;
                }
                x = x + 1;
            }
            proof {
                assert(self@[y as int].subrange(0, self.size as int) =~= self@[y as int]);
                assert(self@.subrange(0, y + 1).drop_last() =~= self@.subrange(0, y as int));
                assert((y + 1) * self.size == y * self.size + self.size) by (nonlinear_arith);
            }
            y = y + 1;
        }
        proof {
            assert(self@.subrange(0, self.size as int) =~= self@);
        }
        count
    }

    /// Writes the cells in row-major order as bytes 1 (dark) and 0 (light).
    pub fn fill_row_major_bytes(&self, bytes: &mut [u8])
        requires
            self.wf(),
            old(bytes)@.len() == self.spec_size() * self.spec_size(),
        ensures
            final(bytes)@ == row_major(self@, self.spec_size()).map_values(
                |dark: bool| if dark { 1u8 } else { 0u8 },
            ),
    {
        let n = self.size;
        let mut y: usize = 0;
        while y < n
            invariant
                self.wf(),
                n == self.size,
                bytes@.len() == n * n,
                y <= n,
                forall|i: int|
                    0 <= i < y * n ==> bytes@[i] == (if self@[i / (n as int)][i % (n as int)] {
                        1u8
                    } else {
                        0u8
                    }),
            decreases n - y,
        {
            let mut x: usize = 0;
            while x < n
                invariant
                    self.wf(),
                    n == self.size,
                    bytes@.len() == n * n,
                    y < n,
                    x <= n,
                    forall|i: int|
                        0 <= i < y * n + x ==> bytes@[i] == (if self@[i / (n as int)][i % (n as int)] {
                            1u8
                        } else {
                            0u8
                        }),
                decreases n - x,
            {
                proof {
                    lemma_cell_in_range(n as nat, x as int, y as int);
                    vstd::arithmetic::div_mod::lemma_fundamental_div_mod_converse(
                        y * n + x,
                        n as int,
                        y as int,
                        x as int,
                    );
                }
                let dark = self.get(x, y);
                bytes[y * n + x] = if dark {
                    1
                } else {
                    0
                };
                x = x + 1;
            }
            proof {
                assert((y + 1) * n == y * n + n) by (nonlinear_arith);
            }
            y = y + 1;
        }
        assert(bytes@ =~= row_major(self@, n as nat).map_values(|dark: bool| if dark { 1u8 } else { 0u8 }));
    }

    /// The cells in row-major order as bytes 1 (dark) and 0 (light).
    pub fn to_row_major_bytes(&self) -> (r: Vec<u8>)
        requires
            self.wf(),
        ensures
            r@ == row_major(self@, self.spec_size()).map_values(
                |dark: bool| if dark { 1u8 } else { 0u8 },
            ),
    {
        let mut bytes = vec![0u8; self.size * self.size];
        self.fill_row_major_bytes(bytes.as_mut_slice());
        bytes
    }
}

} // verus!
