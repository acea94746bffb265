//! Counting the cells of a symbol that carry data: the zigzag walk visits every column but
//! the vertical timing column, and column by column the function patterns leave exactly
//! `raw_data_modules(v)` cells free.

use vstd::prelude::*;

use crate::bit_grid::{count_cells, count_true};
use crate::encode::function_grid;
use crate::layout::{alignment_center_used, free_before, in_alignment, is_function, near, zig_len, zig_right, zig_upward, zig_x, zig_y};
use crate::tables::{alignment_count, alignment_positions, lemma_alignment_positions, raw_data_modules};
use crate::roundtrip::free_cells;

verus! {

/// Number of `z` in `lo..hi` that satisfy `p`.
pub open spec fn count_in(p: spec_fn(int) -> bool, lo: int, hi: int) -> nat
    decreases hi - lo,
{
    if hi <= lo {
        0
    } else {
        count_in(p, lo, hi - 1) + if p(hi - 1) {
            1nat
        } else {
            0nat
        }
    }
}

/// Sum of `f(z)` over `z` in `lo..hi`.
pub open spec fn sum_in(f: spec_fn(int) -> int, lo: int, hi: int) -> int
    decreases hi - lo,
{
    if hi <= lo {
        0
    } else {
        sum_in(f, lo, hi - 1) + f(hi - 1)
    }
}

proof fn lemma_count_split(p: spec_fn(int) -> bool, lo: int, mid: int, hi: int)
    requires
        lo <= mid <= hi,
    ensures
        count_in(p, lo, hi) == count_in(p, lo, mid) + count_in(p, mid, hi),
    decreases hi - mid,
{
    if hi > mid {
        lemma_count_split(p, lo, mid, hi - 1);
    }
}

proof fn lemma_count_ext(p: spec_fn(int) -> bool, q: spec_fn(int) -> bool, lo: int, hi: int)
    requires
        forall|z: int| lo <= z < hi ==> #[trigger] p(z) == q(z),
    ensures
        count_in(p, lo, hi) == count_in(q, lo, hi),
    decreases hi - lo,
{
    if hi > lo {
        lemma_count_ext(p, q, lo, hi - 1);
    }
}

proof fn lemma_count_const(p: spec_fn(int) -> bool, lo: int, hi: int, b: bool)
    requires
        lo <= hi,
        forall|z: int| lo <= z < hi ==> #[trigger] p(z) == b,
    ensures
        count_in(p, lo, hi) == if b {
            (hi - lo) as nat
        } else {
            0nat
        },
    decreases hi - lo,
{
    if hi > lo {
        lemma_count_const(p, lo, hi - 1, b);
    }
}

proof fn lemma_count_not(p: spec_fn(int) -> bool, q: spec_fn(int) -> bool, lo: int, hi: int)
    requires
        lo <= hi,
        forall|z: int| lo <= z < hi ==> #[trigger] q(z) == !p(z),
    ensures
        count_in(q, lo, hi) == (hi - lo) - count_in(p, lo, hi),
    decreases hi - lo,
{
    if hi > lo {
        lemma_count_not(p, q, lo, hi - 1);
    }
}

proof fn lemma_sum_split(f: spec_fn(int) -> int, lo: int, mid: int, hi: int)
    requires
        lo <= mid <= hi,
    ensures
        sum_in(f, lo, hi) == sum_in(f, lo, mid) + sum_in(f, mid, hi),
    decreases hi - mid,
{
    if hi > mid {
        lemma_sum_split(f, lo, mid, hi - 1);
    }
}

proof fn lemma_sum_two(f: spec_fn(int) -> int, lo: int)
    ensures
        sum_in(f, lo, lo + 2) == f(lo) + f(lo + 1),
{
    assert(sum_in(f, lo, lo) == 0);
    assert(sum_in(f, lo, lo + 1) == sum_in(f, lo, lo) + f(lo));
    assert(sum_in(f, lo, lo + 2) == sum_in(f, lo, lo + 1) + f(lo + 1));
}

/// A sum whose terms are `a`, plus `b` where `p` holds.
proof fn lemma_sum_affine(f: spec_fn(int) -> int, p: spec_fn(int) -> bool, a: int, b: int, lo: int, hi: int)
    requires
        lo <= hi,
        forall|z: int| lo <= z < hi ==> #[trigger] f(z) == a + if p(z) {
            b
        } else {
            0
        },
    ensures
        sum_in(f, lo, hi) == a * (hi - lo) + b * count_in(p, lo, hi),
    decreases hi - lo,
{
    if hi > lo {
        lemma_sum_affine(f, p, a, b, lo, hi - 1);
        assert(sum_in(f, lo, hi) == sum_in(f, lo, hi - 1) + f(hi - 1));
        assert(f(hi - 1) == a + if p(hi - 1) {
            b
        } else {
            0
        });
        assert(a * (hi - lo) == a * (hi - 1 - lo) + a) by (nonlinear_arith);
        assert(b * count_in(p, lo, hi) == b * count_in(p, lo, hi - 1) + if p(hi - 1) {
            b
        } else {
            0
        }) by (nonlinear_arith)
            requires
                count_in(p, lo, hi) == count_in(p, lo, hi - 1) + if p(hi - 1) {
                    1nat
                } else {
                    0nat
                },
        ;
    } else {
        assert(a * (hi - lo) == 0) by (nonlinear_arith)
            requires
                hi == lo,
        ;
        assert(count_in(p, lo, hi) == 0);
        assert(b * 0 == 0);
    }
}

/// Side of the symbol of version `v`.
pub open spec fn side(v: nat) -> int {
    (v * 4 + 17) as int
}

/// The rows of column `x` that are free of function patterns.
pub open spec fn free_rows(v: nat, x: int) -> spec_fn(int) -> bool {
    |y: int| !is_function(v, x, y)
}

/// The rows of column `x` taken by function patterns.
pub open spec fn function_rows(v: nat, x: int) -> spec_fn(int) -> bool {
    |y: int| is_function(v, x, y)
}

/// Number of free cells in column `x`.
pub open spec fn column_free(v: nat) -> spec_fn(int) -> int {
    |x: int| count_in(free_rows(v, x), 0, side(v)) as int
}

/// The coordinates within two of one of the first `k` middle alignment coordinates (those
/// other than the first, 6, and the last, `side - 7`).
pub open spec fn near_upto(v: nat, k: int) -> spec_fn(int) -> bool {
    |z: int|
        exists|j: int|
            1 <= j < k && j < alignment_positions(v).len() - 1 && #[trigger] alignment_positions(v)[j] - 2 <= z
                <= alignment_positions(v)[j] + 2
}

/// The coordinates within two of a middle alignment coordinate.
pub open spec fn near_middle(v: nat) -> spec_fn(int) -> bool {
    near_upto(v, alignment_positions(v).len() - 1)
}

/// Number of middle alignment coordinates.
pub open spec fn middle_count(v: nat) -> int {
    if alignment_positions(v).len() >= 2 {
        alignment_positions(v).len() - 2
    } else {
        0
    }
}

/// Within two of the first alignment coordinate, 6.
pub open spec fn near_first(z: int) -> bool {
    4 <= z <= 8
}

/// Within two of the last alignment coordinate, `side - 7`.
pub open spec fn near_last(v: nat, z: int) -> bool {
    side(v) - 9 <= z <= side(v) - 5
}

/// Middle alignment coordinates keep clear of the finder and version areas.
proof fn lemma_middle_range(v: nat, z: int)
    requires
        1 <= v <= 40,
        near_middle(v)(z),
    ensures
        16 <= z <= side(v) - 17,
{
    lemma_alignment_positions(v);
    let p = alignment_positions(v);
    let j = choose|j: int| 1 <= j < p.len() - 1 && j < p.len() - 1 && #[trigger] p[j] - 2 <= z <= p[j] + 2;
    assert(p[0] + 12 <= p[j]);
    assert(p[j] + 12 <= p[p.len() - 1]);
}

/// Which cells the alignment patterns cover, by the coordinates they are near.
proof fn lemma_alignment_cells(v: nat, x: int, y: int)
    requires
        1 <= v <= 40,
    ensures
        in_alignment(v, x, y) == (v >= 2 && ((near_middle(v)(x) && (near_middle(v)(y) || near_first(y) || near_last(v, y)))
            || (near_first(x) && near_middle(v)(y)) || (near_last(v, x) && (near_middle(v)(y) || near_last(v, y))))),
{
    lemma_alignment_positions(v);
    let p = alignment_positions(v);
    let n = p.len() as int;
    let s = side(v);
    if in_alignment(v, x, y) {
        let (i, j) = choose|i: int, j: int|
            0 <= i < p.len() && 0 <= j < p.len() && alignment_center_used(s, p[i] as int, p[j] as int)
                && #[trigger] near(p[i] as int, p[j] as int, x, y, 2);
        assert(v >= 2);
        if 0 < i < n - 1 {
            assert(near_middle(v)(x));
        }
        if 0 < j < n - 1 {
            assert(near_middle(v)(y));
        }
        if i > 0 {
            assert(p[0] + 12 <= p[i]);
        }
        if j > 0 {
            assert(p[0] + 12 <= p[j]);
        }
        if i < n - 1 {
            assert(p[i] + 12 <= p[n - 1]);
        }
        if j < n - 1 {
            assert(p[j] + 12 <= p[n - 1]);
        }
    }
    if v >= 2 {
        if near_middle(v)(x) {
            let i = choose|i: int| 1 <= i < n - 1 && i < p.len() - 1 && #[trigger] p[i] - 2 <= x <= p[i] + 2;
            assert(p[0] + 12 <= p[i]);
            assert(p[i] + 12 <= p[n - 1]);
            if near_middle(v)(y) {
                let j = choose|j: int| 1 <= j < n - 1 && j < p.len() - 1 && #[trigger] p[j] - 2 <= y <= p[j] + 2;
                assert(near(p[i] as int, p[j] as int, x, y, 2));
            } else if near_first(y) {
                assert(near(p[i] as int, p[0] as int, x, y, 2));
            } else if near_last(v, y) {
                assert(near(p[i] as int, p[n - 1] as int, x, y, 2));
            }
        }
        if near_middle(v)(y) {
            let j = choose|j: int| 1 <= j < n - 1 && j < p.len() - 1 && #[trigger] p[j] - 2 <= y <= p[j] + 2;
            assert(p[0] + 12 <= p[j]);
            assert(p[j] + 12 <= p[n - 1]);
            if near_first(x) {
                assert(near(p[0] as int, p[j] as int, x, y, 2));
            } else if near_last(v, x) {
                assert(near(p[n - 1] as int, p[j] as int, x, y, 2));
            }
        }
        if near_last(v, x) && near_last(v, y) {
            assert(near(p[n - 1] as int, p[n - 1] as int, x, y, 2));
        }
    }
}

/// The first `k` middle alignment coordinates cover five coordinates each.
proof fn lemma_count_upto(v: nat, k: int, lo: int, hi: int)
    requires
        2 <= v <= 40,
        1 <= k <= alignment_positions(v).len() - 1,
        lo <= hi,
        k >= 2 ==> lo <= alignment_positions(v)[1] - 2 && alignment_positions(v)[k - 1] + 3 <= hi,
    ensures
        count_in(near_upto(v, k), lo, hi) == 5 * (k - 1),
    decreases k,
{
    lemma_alignment_positions(v);
    let p = alignment_positions(v);
    if k == 1 {
        lemma_count_const(near_upto(v, k), lo, hi, false);
    } else {
        let a = p[k - 1] - 2;
        if k >= 3 {
            assert(p[k - 2] + 12 <= p[k - 1]);
        }
        if k > 2 {
            assert(p[1] + 12 <= p[k - 1]);
        }
        lemma_count_upto(v, k - 1, lo, a);
        assert forall|z: int| lo <= z < a implies #[trigger] near_upto(v, k)(z) == near_upto(v, k - 1)(z) by {
            if near_upto(v, k)(z) {
                let j = choose|j: int| 1 <= j < k && j < p.len() - 1 && #[trigger] p[j] - 2 <= z <= p[j] + 2;
                assert(j < k - 1);
            }
        }
        lemma_count_ext(near_upto(v, k), near_upto(v, k - 1), lo, a);
        assert forall|z: int| a <= z < a + 5 implies #[trigger] near_upto(v, k)(z) == true by {
            assert(p[k - 1] - 2 <= z <= p[k - 1] + 2);
        }
        lemma_count_const(near_upto(v, k), a, a + 5, true);
        assert forall|z: int| a + 5 <= z < hi implies #[trigger] near_upto(v, k)(z) == false by {
            if near_upto(v, k)(z) {
                let j = choose|j: int| 1 <= j < k && j < p.len() - 1 && #[trigger] p[j] - 2 <= z <= p[j] + 2;
                if j < k - 1 {
                    assert(p[j] + 12 <= p[k - 1]);
                }
            }
        }
        lemma_count_const(near_upto(v, k), a + 5, hi, false);
        lemma_count_split(near_upto(v, k), lo, a, hi);
        lemma_count_split(near_upto(v, k), a, a + 5, hi);
    }
}

/// Over a range that reaches past them, the middle alignment coordinates cover five
/// coordinates each.
proof fn lemma_count_middle(v: nat, lo: int, hi: int)
    requires
        1 <= v <= 40,
        lo <= 16,
        side(v) - 16 <= hi,
        lo <= hi,
    ensures
        count_in(near_middle(v), lo, hi) == 5 * middle_count(v),
{
    lemma_alignment_positions(v);
    let p = alignment_positions(v);
    if v == 1 {
        assert forall|z: int| lo <= z < hi implies #[trigger] near_middle(v)(z) == false by {}
        lemma_count_const(near_middle(v), lo, hi, false);
    } else {
        let n = p.len() as int;
        if n >= 3 {
            assert(p[0] + 12 <= p[1]);
            assert(p[n - 2] + 12 <= p[n - 1]);
        }
        lemma_count_upto(v, n - 1, lo, hi);
    }
}

/// Within one column pair of the walk, after `k` rows of it: the free cells seen are those of
/// the `k` rows walked, at the bottom when walking up and at the top when walking down.
proof fn lemma_pair_progress(v: nat, c: int, k: int)
    requires
        1 <= v <= 40,
        0 <= c,
        2 * c < side(v) - 1,
        0 <= k <= side(v),
    ensures
        ({
            let s = side(v);
            let r = zig_right(s, c);
            let g = function_grid(v);
            free_before(g, s, 2 * s * c + 2 * k) == free_before(g, s, 2 * s * c) + if zig_upward(r) {
                count_in(free_rows(v, r), s - k, s) + count_in(free_rows(v, r - 1), s - k, s)
            } else {
                count_in(free_rows(v, r), 0, k) + count_in(free_rows(v, r - 1), 0, k)
            }
        }),
    decreases k,
{
    let s = side(v);
    let r = zig_right(s, c);
    let g = function_grid(v);
    let d = 2 * s;
    if k > 0 {
        lemma_pair_progress(v, c, k - 1);
        let t0 = c * d + 2 * (k - 1);
        assert(2 * s * c == c * d) by (nonlinear_arith)
            requires
                d == 2 * s,
        ;
        vstd::arithmetic::div_mod::lemma_fundamental_div_mod_converse(t0, d, c, 2 * (k - 1));
        vstd::arithmetic::div_mod::lemma_fundamental_div_mod_converse(t0 + 1, d, c, 2 * (k - 1) + 1);
        assert(zig_x(s, t0) == r);
        assert(zig_x(s, t0 + 1) == r - 1);
        let y = if zig_upward(r) {
            s - k
        } else {
            k - 1
        };
        assert(zig_y(s, t0) == y);
        assert(zig_y(s, t0 + 1) == y);
        assert(1 <= r < s);
        assert(g[y][r] == is_function(v, r, y));
        assert(g[y][r - 1] == is_function(v, r - 1, y));
        assert(free_before(g, s, t0 + 2) == free_before(g, s, t0 + 1) + if g[y][r - 1] {
            0nat
        } else {
            1nat
        });
        assert(free_before(g, s, t0 + 1) == free_before(g, s, t0) + if g[y][r] {
            0nat
        } else {
            1nat
        });
        assert(t0 + 2 == 2 * s * c + 2 * k);
        assert(free_rows(v, r)(y) == !is_function(v, r, y));
        assert(free_rows(v, r - 1)(y) == !is_function(v, r - 1, y));
        if zig_upward(r) {
            lemma_count_split(free_rows(v, r), s - k, s - k + 1, s);
            lemma_count_split(free_rows(v, r - 1), s - k, s - k + 1, s);
            assert(count_in(free_rows(v, r), s - k, s - k) == 0);
            assert(count_in(free_rows(v, r - 1), s - k, s - k) == 0);
            assert(count_in(free_rows(v, r), s - k, s - k + 1) == count_in(free_rows(v, r), s - k, s - k) + if free_rows(v, r)(s - k) {
                1nat
            } else {
                0nat
            });
            assert(count_in(free_rows(v, r - 1), s - k, s - k + 1) == count_in(free_rows(v, r - 1), s - k, s - k) + if free_rows(v, r - 1)(s - k) {
                1nat
            } else {
                0nat
            });
        } else {
            assert(count_in(free_rows(v, r), 0, k) == count_in(free_rows(v, r), 0, k - 1) + if free_rows(v, r)(k - 1) {
                1nat
            } else {
                0nat
            });
            assert(count_in(free_rows(v, r - 1), 0, k) == count_in(free_rows(v, r - 1), 0, k - 1) + if free_rows(v, r - 1)(k - 1) {
                1nat
            } else {
                0nat
            });
        }
    } else {
        assert(count_in(free_rows(v, r), s, s) == 0);
        assert(count_in(free_rows(v, r - 1), s, s) == 0);
        assert(count_in(free_rows(v, r), 0, 0) == 0);
        assert(count_in(free_rows(v, r - 1), 0, 0) == 0);
    }
}

/// The free cells of the walk before column pair `c`, when all pairs so far lie right of
/// the timing column: those of the columns from `side - 2c` on.
proof fn lemma_walk_right(v: nat, c: int)
    requires
        1 <= v <= 40,
        0 <= c,
        2 * c <= side(v) - 7,
    ensures
        free_before(function_grid(v), side(v), 2 * side(v) * c) == sum_in(column_free(v), side(v) - 2 * c, side(v)),
    decreases c,
{
    let s = side(v);
    if c > 0 {
        lemma_walk_right(v, c - 1);
        lemma_pair_progress(v, c - 1, s);
        assert(zig_right(s, c - 1) == s - 1 - 2 * (c - 1));
        assert(2 * s * c == 2 * s * (c - 1) + 2 * s) by (nonlinear_arith);
        lemma_sum_split(column_free(v), s - 2 * c, s - 2 * c + 2, s);
        lemma_sum_two(column_free(v), s - 2 * c);
    } else {
        assert(2 * s * c == 0) by (nonlinear_arith)
            requires
                c == 0,
        ;
        assert(sum_in(column_free(v), s, s) == 0);
        assert(free_before(function_grid(v), s, 0) == 0);
    }
}

/// The free cells of the walk before column pair `c0 + d`, with `c0` the pairs right of the
/// timing column: those of all columns right of it and of the columns from `6 - 2d` to 6.
proof fn lemma_walk_left(v: nat, d: int)
    requires
        1 <= v <= 40,
        0 <= d <= 3,
    ensures
        free_before(function_grid(v), side(v), 2 * side(v) * ((side(v) - 7) / 2 + d)) == sum_in(column_free(v), 7, side(v))
            + sum_in(column_free(v), 6 - 2 * d, 6),
    decreases d,
{
    let s = side(v);
    let c0 = (s - 7) / 2;
    assert(2 * c0 == s - 7);
    if d == 0 {
        lemma_walk_right(v, c0);
    } else {
        lemma_walk_left(v, d - 1);
        let c = c0 + d - 1;
        lemma_pair_progress(v, c, s);
        assert(zig_right(s, c) == 5 - 2 * (d - 1));
        assert(2 * s * (c0 + d) == 2 * s * c + 2 * s) by (nonlinear_arith)
            requires
                c == c0 + d - 1,
        ;
        lemma_sum_split(column_free(v), 6 - 2 * d, 6 - 2 * d + 2, 6);
        lemma_sum_two(column_free(v), 6 - 2 * d);
    }
}

/// The free cells of a version are the free cells of all columns but the timing column.
proof fn lemma_free_cells_by_column(v: nat)
    requires
        1 <= v <= 40,
    ensures
        free_cells(v) == sum_in(column_free(v), 0, 6) + sum_in(column_free(v), 7, side(v)),
{
    let s = side(v);
    lemma_walk_left(v, 3);
    assert(2 * s * ((s - 7) / 2 + 3) == zig_len(s)) by (nonlinear_arith)
        requires
            s == v * 4 + 17,
            (s - 7) / 2 * 2 == s - 7,
    ;
}

/// The number of function cells in column `x`, by the kind of column.
pub open spec fn column_functions(v: nat, x: int) -> int {
    let s = side(v);
    let v7: int = if v >= 7 {
        1
    } else {
        0
    };
    let a2: int = if v >= 2 {
        1
    } else {
        0
    };
    let m = middle_count(v);
    if x < 4 {
        17 + 3 * v7
    } else if x < 6 {
        17 + 3 * v7 + 5 * m
    } else if x <= 8 {
        17 + 5 * m
    } else if x < s - 11 {
        if near_middle(v)(x) {
            5 * m + 10
        } else {
            1
        }
    } else if x < s - 9 {
        1 + 6 * v7
    } else if x == s - 9 {
        1 + 6 * v7 + a2 * (5 * m + 5)
    } else if x < s - 4 {
        9 + a2 * (5 * m + 5)
    } else {
        9
    }
}

/// What decides whether a cell is a function cell.
proof fn lemma_cell_facts(v: nat, x: int, y: int)
    requires
        1 <= v <= 40,
    ensures
        in_alignment(v, x, y) == (v >= 2 && ((near_middle(v)(x) && (near_middle(v)(y) || near_first(y) || near_last(v, y)))
            || (near_first(x) && near_middle(v)(y)) || (near_last(v, x) && (near_middle(v)(y) || near_last(v, y))))),
        near_middle(v)(x) ==> 16 <= x <= side(v) - 17,
        near_middle(v)(y) ==> 16 <= y <= side(v) - 17,
{
    lemma_alignment_cells(v, x, y);
    if near_middle(v)(x) {
        lemma_middle_range(v, x);
    }
    if near_middle(v)(y) {
        lemma_middle_range(v, y);
    }
}

proof fn lemma_rows_const(v: nat, x: int, a: int, b: int, val: bool)
    requires
        a <= b,
        forall|y: int| a <= y < b ==> #[trigger] is_function(v, x, y) == val,
    ensures
        count_in(function_rows(v, x), a, b) == if val {
            (b - a) as nat
        } else {
            0nat
        },
{
    assert forall|y: int| a <= y < b implies #[trigger] function_rows(v, x)(y) == val by {
        assert(is_function(v, x, y) == val);
    }
    lemma_count_const(function_rows(v, x), a, b, val);
}

proof fn lemma_rows_middle(v: nat, x: int, a: int, b: int)
    requires
        1 <= v <= 40,
        a <= b,
        a <= 16,
        side(v) - 16 <= b,
        forall|y: int| a <= y < b ==> #[trigger] is_function(v, x, y) == near_middle(v)(y),
    ensures
        count_in(function_rows(v, x), a, b) == 5 * middle_count(v),
{
    assert forall|y: int| a <= y < b implies #[trigger] function_rows(v, x)(y) == near_middle(v)(y) by {
        assert(is_function(v, x, y) == near_middle(v)(y));
    }
    lemma_count_ext(function_rows(v, x), near_middle(v), a, b);
    lemma_count_middle(v, a, b);
}

proof fn lemma_column_a(v: nat, x: int)
    requires
        1 <= v <= 40,
        0 <= x < side(v),
        (x < 4),
    ensures
        count_in(function_rows(v, x), 0, side(v)) == column_functions(v, x),
{
    let s = side(v);
    if near_middle(v)(x) {
        lemma_middle_range(v, x);
    }
    assert forall|y: int| 0 <= y < 9 implies #[trigger] is_function(v, x, y) == (true) by {
        lemma_cell_facts(v, x, y);
    }
    lemma_rows_const(v, x, 0, 9, true);
    assert forall|y: int| 9 <= y < s - 11 implies #[trigger] is_function(v, x, y) == (false) by {
        lemma_cell_facts(v, x, y);
    }
    lemma_rows_const(v, x, 9, s - 11, false);
    assert forall|y: int| s - 11 <= y < s - 8 implies #[trigger] is_function(v, x, y) == (v >= 7) by {
        lemma_cell_facts(v, x, y);
    }
    lemma_rows_const(v, x, s - 11, s - 8, v >= 7);
    assert forall|y: int| s - 8 <= y < s implies #[trigger] is_function(v, x, y) == (true) by {
        lemma_cell_facts(v, x, y);
    }
    lemma_rows_const(v, x, s - 8, s, true);
    lemma_count_split(function_rows(v, x), 0, 9, s);
    lemma_count_split(function_rows(v, x), 9, s - 11, s);
    lemma_count_split(function_rows(v, x), s - 11, s - 8, s);
}

proof fn lemma_column_b(v: nat, x: int)
    requires
        1 <= v <= 40,
        0 <= x < side(v),
        (4 <= x < 6),
    ensures
        count_in(function_rows(v, x), 0, side(v)) == column_functions(v, x),
{
    let s = side(v);
    if near_middle(v)(x) {
        lemma_middle_range(v, x);
    }
    assert forall|y: int| 0 <= y < 9 implies #[trigger] is_function(v, x, y) == (true) by {
        lemma_cell_facts(v, x, y);
    }
    lemma_rows_const(v, x, 0, 9, true);
    assert forall|y: int| 9 <= y < s - 11 implies #[trigger] is_function(v, x, y) == near_middle(v)(y) by {
        lemma_cell_facts(v, x, y);
    }
    lemma_rows_middle(v, x, 9, s - 11);
    assert forall|y: int| s - 11 <= y < s - 8 implies #[trigger] is_function(v, x, y) == (v >= 7) by {
        lemma_cell_facts(v, x, y);
    }
    lemma_rows_const(v, x, s - 11, s - 8, v >= 7);
    assert forall|y: int| s - 8 <= y < s implies #[trigger] is_function(v, x, y) == (true) by {
        lemma_cell_facts(v, x, y);
    }
    lemma_rows_const(v, x, s - 8, s, true);
    lemma_count_split(function_rows(v, x), 0, 9, s);
    lemma_count_split(function_rows(v, x), 9, s - 11, s);
    lemma_count_split(function_rows(v, x), s - 11, s - 8, s);
}

proof fn lemma_column_c(v: nat, x: int)
    requires
        1 <= v <= 40,
        0 <= x < side(v),
        (7 <= x <= 8),
    ensures
        count_in(function_rows(v, x), 0, side(v)) == column_functions(v, x),
{
    let s = side(v);
    if near_middle(v)(x) {
        lemma_middle_range(v, x);
    }
    assert forall|y: int| 0 <= y < 9 implies #[trigger] is_function(v, x, y) == (true) by {
        lemma_cell_facts(v, x, y);
    }
    lemma_rows_const(v, x, 0, 9, true);
    assert forall|y: int| 9 <= y < s - 8 implies #[trigger] is_function(v, x, y) == near_middle(v)(y) by {
        lemma_cell_facts(v, x, y);
    }
    lemma_rows_middle(v, x, 9, s - 8);
    assert forall|y: int| s - 8 <= y < s implies #[trigger] is_function(v, x, y) == (true) by {
        lemma_cell_facts(v, x, y);
    }
    lemma_rows_const(v, x, s - 8, s, true);
    lemma_count_split(function_rows(v, x), 0, 9, s);
    lemma_count_split(function_rows(v, x), 9, s - 8, s);
}

proof fn lemma_column_d_near(v: nat, x: int)
    requires
        1 <= v <= 40,
        0 <= x < side(v),
        (9 <= x < side(v) - 11 && near_middle(v)(x)),
    ensures
        count_in(function_rows(v, x), 0, side(v)) == column_functions(v, x),
{
    let s = side(v);
    if near_middle(v)(x) {
        lemma_middle_range(v, x);
    }
    assert forall|y: int| 0 <= y < 4 implies #[trigger] is_function(v, x, y) == (false) by {
        lemma_cell_facts(v, x, y);
    }
    lemma_rows_const(v, x, 0, 4, false);
    assert forall|y: int| 4 <= y < 9 implies #[trigger] is_function(v, x, y) == (true) by {
        lemma_cell_facts(v, x, y);
    }
    lemma_rows_const(v, x, 4, 9, true);
    assert forall|y: int| 9 <= y < s - 9 implies #[trigger] is_function(v, x, y) == near_middle(v)(y) by {
        lemma_cell_facts(v, x, y);
    }
    lemma_rows_middle(v, x, 9, s - 9);
    assert forall|y: int| s - 9 <= y < s - 4 implies #[trigger] is_function(v, x, y) == (true) by {
        lemma_cell_facts(v, x, y);
    }
    lemma_rows_const(v, x, s - 9, s - 4, true);
    assert forall|y: int| s - 4 <= y < s implies #[trigger] is_function(v, x, y) == (false) by {
        lemma_cell_facts(v, x, y);
    }
    lemma_rows_const(v, x, s - 4, s, false);
    lemma_count_split(function_rows(v, x), 0, 4, s);
    lemma_count_split(function_rows(v, x), 4, 9, s);
    lemma_count_split(function_rows(v, x), 9, s - 9, s);
    lemma_count_split(function_rows(v, x), s - 9, s - 4, s);
}

proof fn lemma_column_d_far(v: nat, x: int)
    requires
        1 <= v <= 40,
        0 <= x < side(v),
        (9 <= x < side(v) - 11 && !near_middle(v)(x)),
    ensures
        count_in(function_rows(v, x), 0, side(v)) == column_functions(v, x),
{
    let s = side(v);
    if near_middle(v)(x) {
        lemma_middle_range(v, x);
    }
    assert forall|y: int| 0 <= y < 6 implies #[trigger] is_function(v, x, y) == (false) by {
        lemma_cell_facts(v, x, y);
    }
    lemma_rows_const(v, x, 0, 6, false);
    assert forall|y: int| 6 <= y < 7 implies #[trigger] is_function(v, x, y) == (true) by {
        lemma_cell_facts(v, x, y);
    }
    lemma_rows_const(v, x, 6, 7, true);
    assert forall|y: int| 7 <= y < s implies #[trigger] is_function(v, x, y) == (false) by {
        lemma_cell_facts(v, x, y);
    }
    lemma_rows_const(v, x, 7, s, false);
    lemma_count_split(function_rows(v, x), 0, 6, s);
    lemma_count_split(function_rows(v, x), 6, 7, s);
}

proof fn lemma_column_e(v: nat, x: int)
    requires
        1 <= v <= 40,
        0 <= x < side(v),
        (side(v) - 11 <= x < side(v) - 9),
    ensures
        count_in(function_rows(v, x), 0, side(v)) == column_functions(v, x),
{
    let s = side(v);
    if near_middle(v)(x) {
        lemma_middle_range(v, x);
    }
    assert forall|y: int| 0 <= y < 6 implies #[trigger] is_function(v, x, y) == (v >= 7) by {
        lemma_cell_facts(v, x, y);
    }
    lemma_rows_const(v, x, 0, 6, v >= 7);
    assert forall|y: int| 6 <= y < 7 implies #[trigger] is_function(v, x, y) == (true) by {
        lemma_cell_facts(v, x, y);
    }
    lemma_rows_const(v, x, 6, 7, true);
    assert forall|y: int| 7 <= y < s implies #[trigger] is_function(v, x, y) == (false) by {
        lemma_cell_facts(v, x, y);
    }
    lemma_rows_const(v, x, 7, s, false);
    lemma_count_split(function_rows(v, x), 0, 6, s);
    lemma_count_split(function_rows(v, x), 6, 7, s);
}

proof fn lemma_column_f(v: nat, x: int)
    requires
        1 <= v <= 40,
        0 <= x < side(v),
        (x == side(v) - 9),
    ensures
        count_in(function_rows(v, x), 0, side(v)) == column_functions(v, x),
{
    let s = side(v);
    if near_middle(v)(x) {
        lemma_middle_range(v, x);
    }
    assert forall|y: int| 0 <= y < 6 implies #[trigger] is_function(v, x, y) == (v >= 7) by {
        lemma_cell_facts(v, x, y);
    }
    lemma_rows_const(v, x, 0, 6, v >= 7);
    assert forall|y: int| 6 <= y < 7 implies #[trigger] is_function(v, x, y) == (true) by {
        lemma_cell_facts(v, x, y);
    }
    lemma_rows_const(v, x, 6, 7, true);
    assert forall|y: int| 7 <= y < 9 implies #[trigger] is_function(v, x, y) == (false) by {
        lemma_cell_facts(v, x, y);
    }
    lemma_rows_const(v, x, 7, 9, false);
    assert forall|y: int| 9 <= y < s - 9 implies #[trigger] is_function(v, x, y) == near_middle(v)(y) by {
        lemma_cell_facts(v, x, y);
    }
    lemma_rows_middle(v, x, 9, s - 9);
    assert forall|y: int| s - 9 <= y < s - 4 implies #[trigger] is_function(v, x, y) == (v >= 2) by {
        lemma_cell_facts(v, x, y);
    }
    lemma_rows_const(v, x, s - 9, s - 4, v >= 2);
    assert forall|y: int| s - 4 <= y < s implies #[trigger] is_function(v, x, y) == (false) by {
        lemma_cell_facts(v, x, y);
    }
    lemma_rows_const(v, x, s - 4, s, false);
    lemma_count_split(function_rows(v, x), 0, 6, s);
    lemma_count_split(function_rows(v, x), 6, 7, s);
    lemma_count_split(function_rows(v, x), 7, 9, s);
    lemma_count_split(function_rows(v, x), 9, s - 9, s);
    lemma_count_split(function_rows(v, x), s - 9, s - 4, s);
}

proof fn lemma_column_g(v: nat, x: int)
    requires
        1 <= v <= 40,
        0 <= x < side(v),
        (side(v) - 8 <= x < side(v) - 4),
    ensures
        count_in(function_rows(v, x), 0, side(v)) == column_functions(v, x),
{
    let s = side(v);
    if near_middle(v)(x) {
        lemma_middle_range(v, x);
    }
    assert forall|y: int| 0 <= y < 9 implies #[trigger] is_function(v, x, y) == (true) by {
        lemma_cell_facts(v, x, y);
    }
    lemma_rows_const(v, x, 0, 9, true);
    assert forall|y: int| 9 <= y < s - 9 implies #[trigger] is_function(v, x, y) == near_middle(v)(y) by {
        lemma_cell_facts(v, x, y);
    }
    lemma_rows_middle(v, x, 9, s - 9);
    assert forall|y: int| s - 9 <= y < s - 4 implies #[trigger] is_function(v, x, y) == (v >= 2) by {
        lemma_cell_facts(v, x, y);
    }
    lemma_rows_const(v, x, s - 9, s - 4, v >= 2);
    assert forall|y: int| s - 4 <= y < s implies #[trigger] is_function(v, x, y) == (false) by {
        lemma_cell_facts(v, x, y);
    }
    lemma_rows_const(v, x, s - 4, s, false);
    lemma_count_split(function_rows(v, x), 0, 9, s);
    lemma_count_split(function_rows(v, x), 9, s - 9, s);
    lemma_count_split(function_rows(v, x), s - 9, s - 4, s);
}

proof fn lemma_column_h(v: nat, x: int)
    requires
        1 <= v <= 40,
        0 <= x < side(v),
        (side(v) - 4 <= x < side(v)),
    ensures
        count_in(function_rows(v, x), 0, side(v)) == column_functions(v, x),
{
    let s = side(v);
    if near_middle(v)(x) {
        lemma_middle_range(v, x);
    }
    assert forall|y: int| 0 <= y < 9 implies #[trigger] is_function(v, x, y) == (true) by {
        lemma_cell_facts(v, x, y);
    }
    lemma_rows_const(v, x, 0, 9, true);
    assert forall|y: int| 9 <= y < s implies #[trigger] is_function(v, x, y) == (false) by {
        lemma_cell_facts(v, x, y);
    }
    lemma_rows_const(v, x, 9, s, false);
    lemma_count_split(function_rows(v, x), 0, 9, s);
}


/// Each column outside the timing column holds `column_functions` function cells.
proof fn lemma_column_count(v: nat, x: int)
    requires
        1 <= v <= 40,
        0 <= x < side(v),
        x != 6,
    ensures
        count_in(function_rows(v, x), 0, side(v)) == column_functions(v, x),
{
    let s = side(v);
    if x < 4 {
        lemma_column_a(v, x);
    } else if x < 6 {
        lemma_column_b(v, x);
    } else if x <= 8 {
        lemma_column_c(v, x);
    } else if x < s - 11 {
        if near_middle(v)(x) {
            lemma_column_d_near(v, x);
        } else {
            lemma_column_d_far(v, x);
        }
    } else if x < s - 9 {
        lemma_column_e(v, x);
    } else if x == s - 9 {
        lemma_column_f(v, x);
    } else if x < s - 4 {
        lemma_column_g(v, x);
    } else {
        lemma_column_h(v, x);
    }
}

/// The free cells of column `x` are those its function cells leave.
proof fn lemma_column_free(v: nat, x: int)
    requires
        1 <= v <= 40,
        0 <= x < side(v),
        x != 6,
    ensures
        column_free(v)(x) == side(v) - column_functions(v, x),
{
    assert forall|y: int| 0 <= y < side(v) implies #[trigger] free_rows(v, x)(y) == !function_rows(v, x)(y) by {}
    lemma_count_not(function_rows(v, x), free_rows(v, x), 0, side(v));
    lemma_column_count(v, x);
}

/// The free cells of all columns but the timing column, summed range by range.
proof fn lemma_column_sums(v: nat)
    requires
        1 <= v <= 40,
    ensures
        ({
            let s = side(v);
            let v7: int = if v >= 7 {
                1
            } else {
                0
            };
            let a2: int = if v >= 2 {
                1
            } else {
                0
            };
            let m = middle_count(v);
            sum_in(column_free(v), 0, 6) + sum_in(column_free(v), 7, s) == 4 * (s - 17 - 3 * v7) + 2 * (s - 17 - 3 * v7 - 5 * m)
                + 2 * (s - 17 - 5 * m) + ((s - 1) * (s - 20) - (5 * m + 9) * (5 * m)) + 2 * (s - 1 - 6 * v7) + (s - 1 - 6 * v7 - a2 * (5
                * m + 5)) + 4 * (s - 9 - a2 * (5 * m + 5)) + 4 * (s - 9)
        }),
{
    let s = side(v);
    let v7: int = if v >= 7 {
        1
    } else {
        0
    };
    let a2: int = if v >= 2 {
        1
    } else {
        0
    };
    let m = middle_count(v);
    let f = column_free(v);
    assert forall|x: int| 0 <= x < 4 implies #[trigger] f(x) == s - 17 - 3 * v7 + if near_middle(v)(x) {
        0int
    } else {
        0int
    } by {
        lemma_column_free(v, x);
    }
    lemma_sum_affine(f, near_middle(v), s - 17 - 3 * v7, 0, 0, 4);
    assert(sum_in(f, 0, 4) == 4 * (s - 17 - 3 * v7)) by (nonlinear_arith)
        requires
            sum_in(f, 0, 4) == (s - 17 - 3 * v7) * ((4) - (0)) + 0 * count_in(near_middle(v), 0, 4),
    ;
    assert forall|x: int| 4 <= x < 6 implies #[trigger] f(x) == s - 17 - 3 * v7 - 5 * m + if near_middle(v)(x) {
        0int
    } else {
        0int
    } by {
        lemma_column_free(v, x);
    }
    lemma_sum_affine(f, near_middle(v), s - 17 - 3 * v7 - 5 * m, 0, 4, 6);
    assert(sum_in(f, 4, 6) == 2 * (s - 17 - 3 * v7 - 5 * m)) by (nonlinear_arith)
        requires
            sum_in(f, 4, 6) == (s - 17 - 3 * v7 - 5 * m) * ((6) - (4)) + 0 * count_in(near_middle(v), 4, 6),
    ;
    assert forall|x: int| 7 <= x < 9 implies #[trigger] f(x) == s - 17 - 5 * m + if near_middle(v)(x) {
        0int
    } else {
        0int
    } by {
        lemma_column_free(v, x);
    }
    lemma_sum_affine(f, near_middle(v), s - 17 - 5 * m, 0, 7, 9);
    assert(sum_in(f, 7, 9) == 2 * (s - 17 - 5 * m)) by (nonlinear_arith)
        requires
            sum_in(f, 7, 9) == (s - 17 - 5 * m) * ((9) - (7)) + 0 * count_in(near_middle(v), 7, 9),
    ;
    assert forall|x: int| 9 <= x < s - 11 implies #[trigger] f(x) == s - 1 + if near_middle(v)(x) {
        -(5 * m + 9)
    } else {
        0int
    } by {
        lemma_column_free(v, x);
    }
    lemma_sum_affine(f, near_middle(v), s - 1, -(5 * m + 9), 9, s - 11);
    lemma_count_middle(v, 9, s - 11);
    assert(sum_in(f, 9, s - 11) == (s - 1) * (s - 20) - (5 * m + 9) * (5 * m)) by (nonlinear_arith)
        requires
            sum_in(f, 9, s - 11) == (s - 1) * ((s - 11) - 9) + (-(5 * m + 9)) * count_in(near_middle(v), 9, s - 11),
            count_in(near_middle(v), 9, s - 11) == 5 * m,
    ;
    assert forall|x: int| s - 11 <= x < s - 9 implies #[trigger] f(x) == s - 1 - 6 * v7 + if near_middle(v)(x) {
        0int
    } else {
        0int
    } by {
        lemma_column_free(v, x);
    }
    lemma_sum_affine(f, near_middle(v), s - 1 - 6 * v7, 0, s - 11, s - 9);
    assert(sum_in(f, s - 11, s - 9) == 2 * (s - 1 - 6 * v7)) by (nonlinear_arith)
        requires
            sum_in(f, s - 11, s - 9) == (s - 1 - 6 * v7) * ((s - 9) - (s - 11)) + 0 * count_in(near_middle(v), s - 11, s - 9),
    ;
    assert forall|x: int| s - 9 <= x < s - 8 implies #[trigger] f(x) == s - 1 - 6 * v7 - a2 * (5 * m + 5) + if near_middle(v)(x) {
        0int
    } else {
        0int
    } by {
        lemma_column_free(v, x);
    }
    lemma_sum_affine(f, near_middle(v), s - 1 - 6 * v7 - a2 * (5 * m + 5), 0, s - 9, s - 8);
    assert(sum_in(f, s - 9, s - 8) == 1 * (s - 1 - 6 * v7 - a2 * (5 * m + 5))) by (nonlinear_arith)
        requires
            sum_in(f, s - 9, s - 8) == (s - 1 - 6 * v7 - a2 * (5 * m + 5)) * ((s - 8) - (s - 9)) + 0 * count_in(near_middle(v), s - 9, s - 8),
    ;
    assert forall|x: int| s - 8 <= x < s - 4 implies #[trigger] f(x) == s - 9 - a2 * (5 * m + 5) + if near_middle(v)(x) {
        0int
    } else {
        0int
    } by {
        lemma_column_free(v, x);
    }
    lemma_sum_affine(f, near_middle(v), s - 9 - a2 * (5 * m + 5), 0, s - 8, s - 4);
    assert(sum_in(f, s - 8, s - 4) == 4 * (s - 9 - a2 * (5 * m + 5))) by (nonlinear_arith)
        requires
            sum_in(f, s - 8, s - 4) == (s - 9 - a2 * (5 * m + 5)) * ((s - 4) - (s - 8)) + 0 * count_in(near_middle(v), s - 8, s - 4),
    ;
    assert forall|x: int| s - 4 <= x < s implies #[trigger] f(x) == s - 9 + if near_middle(v)(x) {
        0int
    } else {
        0int
    } by {
        lemma_column_free(v, x);
    }
    lemma_sum_affine(f, near_middle(v), s - 9, 0, s - 4, s);
    assert(sum_in(f, s - 4, s) == 4 * (s - 9)) by (nonlinear_arith)
        requires
            sum_in(f, s - 4, s) == (s - 9) * ((s) - (s - 4)) + 0 * count_in(near_middle(v), s - 4, s),
    ;
    lemma_sum_split(f, 0, 4, 6);
    lemma_sum_split(f, 7, 9, s);
    lemma_sum_split(f, 9, s - 11, s);
    lemma_sum_split(f, s - 11, s - 9, s);
    lemma_sum_split(f, s - 9, s - 8, s);
    lemma_sum_split(f, s - 8, s - 4, s);
}

/// Every version has exactly as many free cells, outside its function patterns, as
/// `raw_data_modules` counts: the zigzag walk places every codeword bit.
pub proof fn lemma_free_cells_count(v: nat)
    requires
        1 <= v <= 40,
    ensures
        free_cells(v) == raw_data_modules(v),
{
    let s = side(v);
    lemma_free_cells_by_column(v);
    lemma_column_sums(v);
    let m = middle_count(v);
    let base = (16 * v + 128) * v + 64;
    if v == 1 {
        assert(alignment_positions(v).len() == 0);
        assert(raw_data_modules(v) == 208) by (nonlinear_arith)
            requires
                v == 1,
        ;
        assert(s == 21);
    } else {
        let n = alignment_count(v) as int;
        assert(alignment_positions(v).len() == n);
        assert(m == n - 2);
        let alignment = (25 * n - 10) * n - 55;
        assert(alignment >= 25) by (nonlinear_arith)
            requires
                n >= 2,
                alignment == (25 * n - 10) * n - 55,
        ;
        assert(base - alignment - 36 >= 0) by (nonlinear_arith)
            requires
                2 <= v <= 40,
                n == v / 7 + 2,
                alignment == (25 * n - 10) * n - 55,
                base == (16 * v + 128) * v + 64,
        ;
        if v >= 7 {
            assert(raw_data_modules(v) == base - alignment - 36);
        } else {
            assert(n == 2);
            assert(alignment == 25) by (nonlinear_arith)
                requires
                    n == 2,
                    alignment == (25 * n - 10) * n - 55,
            ;
            assert(raw_data_modules(v) == base - alignment);
        }
    }
    let v7: int = if v >= 7 {
        1
    } else {
        0
    };
    let a2: int = if v >= 2 {
        1
    } else {
        0
    };
    assert(free_cells(v) == raw_data_modules(v)) by (nonlinear_arith)
        requires
            s == v * 4 + 17,
            v == 1 ==> m == 0 && s == 21 && raw_data_modules(v) == 208,
            2 <= v <= 6 ==> m == 0 && raw_data_modules(v) == base - 25,
            v >= 7 ==> m == v / 7 && raw_data_modules(v) == base - ((25 * (m + 2) - 10) * (m + 2) - 55) - 36,
            base == (16 * v + 128) * v + 64,
            1 <= v <= 40,
            v7 == (if v >= 7 {
                1int
            } else {
                0int
            }),
            a2 == (if v >= 2 {
                1int
            } else {
                0int
            }),
            free_cells(v) == 4 * (s - 17 - 3 * v7) + 2 * (s - 17 - 3 * v7 - 5 * m) + 2 * (s - 17 - 5 * m) + ((s - 1) * (s
                - 20) - (5 * m + 9) * (5 * m)) + 2 * (s - 1 - 6 * v7) + (s - 1 - 6 * v7 - a2 * (5 * m + 5)) + 4 * (s - 9 - a2 * (5
                * m + 5)) + 4 * (s - 9),
    ;
}

/// The cells of column `x` that satisfy `p`, as a predicate on the row.
pub open spec fn column_of(p: spec_fn(int, int) -> bool, x: int) -> spec_fn(int) -> bool {
    |y: int| p(x, y)
}

/// The cells of row `y` that satisfy `p`, as a predicate on the column.
pub open spec fn row_of(p: spec_fn(int, int) -> bool, y: int) -> spec_fn(int) -> bool {
    |x: int| p(x, y)
}

/// The number of cells of each row of width `w` that satisfy `p`.
pub open spec fn row_counts(p: spec_fn(int, int) -> bool, w: int) -> spec_fn(int) -> int {
    |y: int| count_in(row_of(p, y), 0, w) as int
}

/// The number of cells of each column of height `h` that satisfy `p`.
pub open spec fn column_counts(p: spec_fn(int, int) -> bool, h: int) -> spec_fn(int) -> int {
    |x: int| count_in(column_of(p, x), 0, h) as int
}

/// A sum whose terms each add one where `p` holds to those of another sum.
proof fn lemma_sum_plus(f: spec_fn(int) -> int, g: spec_fn(int) -> int, p: spec_fn(int) -> bool, lo: int, hi: int)
    requires
        lo <= hi,
        forall|z: int| lo <= z < hi ==> #[trigger] f(z) == g(z) + if p(z) {
            1int
        } else {
            0int
        },
    ensures
        sum_in(f, lo, hi) == sum_in(g, lo, hi) + count_in(p, lo, hi),
    decreases hi - lo,
{
    if hi > lo {
        lemma_sum_plus(f, g, p, lo, hi - 1);
        assert(f(hi - 1) == g(hi - 1) + if p(hi - 1) {
            1int
        } else {
            0int
        });
    }
}

/// A sum whose terms are `c` less those of another sum.
proof fn lemma_sum_complement(f: spec_fn(int) -> int, g: spec_fn(int) -> int, c: int, lo: int, hi: int)
    requires
        lo <= hi,
        forall|z: int| lo <= z < hi ==> #[trigger] f(z) == c - g(z),
    ensures
        sum_in(f, lo, hi) == c * (hi - lo) - sum_in(g, lo, hi),
    decreases hi - lo,
{
    if hi > lo {
        lemma_sum_complement(f, g, c, lo, hi - 1);
        assert(f(hi - 1) == c - g(hi - 1));
        assert(c * (hi - lo) == c * (hi - 1 - lo) + c) by (nonlinear_arith);
    } else {
        assert(c * (hi - lo) == 0) by (nonlinear_arith)
            requires
                hi == lo,
        ;
    }
}

/// Counting the cells of a rectangle row by row or column by column gives the same number.
proof fn lemma_count_swap(p: spec_fn(int, int) -> bool, w: int, h: int)
    requires
        0 <= w,
        0 <= h,
    ensures
        sum_in(row_counts(p, w), 0, h) == sum_in(column_counts(p, h), 0, w),
    decreases h,
{
    if h == 0 {
        assert forall|x: int| 0 <= x < w implies #[trigger] column_counts(p, 0)(x) == 0 + if column_of(p, 0)(x) {
            0int
        } else {
            0int
        } by {}
        lemma_sum_affine(column_counts(p, 0), column_of(p, 0), 0, 0, 0, w);
        assert(0 * w == 0);
        assert(0 * count_in(column_of(p, 0), 0, w) == 0);
    } else {
        lemma_count_swap(p, w, h - 1);
        assert forall|x: int| 0 <= x < w implies #[trigger] column_counts(p, h)(x) == column_counts(p, h - 1)(x) + if row_of(p, h - 1)(x) {
            1int
        } else {
            0int
        } by {
            assert(count_in(column_of(p, x), 0, h) == count_in(column_of(p, x), 0, h - 1) + if column_of(p, x)(h - 1) {
                1nat
            } else {
                0nat
            });
        }
        lemma_sum_plus(column_counts(p, h), column_counts(p, h - 1), row_of(p, h - 1), 0, w);
        assert(sum_in(row_counts(p, w), 0, h) == sum_in(row_counts(p, w), 0, h - 1) + row_counts(p, w)(h - 1));
    }
}

/// The `true` entries of a sequence, counted as a predicate on its positions.
proof fn lemma_count_true(r: Seq<bool>, q: spec_fn(int) -> bool)
    requires
        forall|i: int| 0 <= i < r.len() ==> #[trigger] q(i) == r[i],
    ensures
        count_true(r) == count_in(q, 0, r.len() as int),
    decreases r.len(),
{
    if r.len() > 0 {
        let d = r.drop_last();
        assert forall|i: int| 0 <= i < d.len() implies #[trigger] q(i) == d[i] by {
            assert(q(i) == r[i]);
        }
        lemma_count_true(d, q);
        assert(q(r.len() - 1) == r.last());
    }
}

/// The cells of all rows, counted row after row.
proof fn lemma_count_cells(g: Seq<Seq<bool>>, f: spec_fn(int) -> int)
    requires
        forall|y: int| 0 <= y < g.len() ==> #[trigger] f(y) == count_true(g[y]) as int,
    ensures
        count_cells(g) == sum_in(f, 0, g.len() as int),
    decreases g.len(),
{
    if g.len() > 0 {
        let d = g.drop_last();
        assert forall|y: int| 0 <= y < d.len() implies #[trigger] f(y) == count_true(d[y]) as int by {
            assert(f(y) == count_true(g[y]) as int);
        }
        lemma_count_cells(d, f);
        assert(f(g.len() - 1) == count_true(g.last()) as int);
    }
}

/// The function grid of a version: its cells outside the function patterns number exactly
/// `raw_data_modules(v)`, so the grid the decoder reads with and the capacity tables agree.
pub proof fn lemma_function_grid_count(v: nat)
    requires
        1 <= v <= 40,
    ensures
        side(v) * side(v) - count_cells(function_grid(v)) == raw_data_modules(v),
{
    let s = side(v);
    let g = function_grid(v);
    let p = |x: int, y: int| is_function(v, x, y);
    assert forall|y: int| 0 <= y < g.len() implies #[trigger] row_counts(p, s)(y) == count_true(g[y]) as int by {
        assert forall|x: int| 0 <= x < g[y].len() implies #[trigger] row_of(p, y)(x) == g[y][x] by {}
        lemma_count_true(g[y], row_of(p, y));
    }
    lemma_count_cells(g, row_counts(p, s));
    lemma_count_swap(p, s, s);
    // Column by column: every column but the timing column holds `s - column_free` function
    // cells, and the timing column is function cells throughout.
    let cf = column_free(v);
    assert forall|x: int| 0 <= x < s && x != 6 implies #[trigger] column_counts(p, s)(x) == s - cf(x) by {
        assert forall|y: int| 0 <= y < s implies #[trigger] free_rows(v, x)(y) == !column_of(p, x)(y) by {}
        lemma_count_not(column_of(p, x), free_rows(v, x), 0, s);
    }
    assert forall|y: int| 0 <= y < s implies #[trigger] column_of(p, 6)(y) == true by {}
    lemma_count_const(column_of(p, 6), 0, s, true);
    lemma_sum_complement(column_counts(p, s), cf, s, 0, 6);
    lemma_sum_complement(column_counts(p, s), cf, s, 7, s);
    lemma_sum_split(column_counts(p, s), 0, 6, s);
    lemma_sum_split(column_counts(p, s), 6, 7, s);
    assert(sum_in(column_counts(p, s), 6, 7) == s) by {
        assert(sum_in(column_counts(p, s), 6, 6) == 0);
    }
    lemma_free_cells_by_column(v);
    lemma_free_cells_count(v);
    assert(s * (s - 7) + s * 6 + s == s * s) by (nonlinear_arith);
}

} // verus!
