//! Counting cells of a grid that satisfy a predicate.
//!
//! The game's bookkeeping (flag counter, win detection, mine placement) is
//! specified with exact counts over the index space of the grid: `count1`
//! counts the indices of one row that satisfy a predicate, `count2` counts
//! the positions of a `rows x cols` rectangle. The lemmas below are the
//! algebra the engine's proofs need: bounds, congruence, the effect of
//! changing one position, comparison of two predicates, rectangles and
//! complements.

use vstd::prelude::*;

verus! {

/// Number of indices `i` in `[0, n)` with `f(i)`.
pub open spec fn count1(f: spec_fn(int) -> bool, n: int) -> int
    decreases n,
{
    if n <= 0 {
        0
    } else {
        count1(f, n - 1) + if f(n - 1) {
            1int
        } else {
            0int
        }
    }
}

/// Number of positions `(i, j)` in `[0, rows) x [0, cols)` with `f(i, j)`.
pub open spec fn count2(f: spec_fn(int, int) -> bool, rows: int, cols: int) -> int
    decreases rows,
{
    if rows <= 0 {
        0
    } else {
        count2(f, rows - 1, cols) + count1(|j: int| f(rows - 1, j), cols)
    }
}

pub proof fn lemma_count1_bounds(f: spec_fn(int) -> bool, n: int)
    requires
        n >= 0,
    ensures
        0 <= count1(f, n) <= n,
    decreases n,
{
    if n > 0 {
        lemma_count1_bounds(f, n - 1);
    }
}

pub proof fn lemma_count1_congruent(f: spec_fn(int) -> bool, g: spec_fn(int) -> bool, n: int)
    requires
        forall|i: int| 0 <= i < n ==> #[trigger] f(i) == g(i),
    ensures
        count1(f, n) == count1(g, n),
    decreases n,
{
    if n > 0 {
        lemma_count1_congruent(f, g, n - 1);
    }
}

/// Changing the predicate at exactly one index shifts the count by the
/// difference of the two indicator values there.
pub proof fn lemma_count1_diff_one(
    f: spec_fn(int) -> bool,
    g: spec_fn(int) -> bool,
    n: int,
    k: int,
)
    requires
        0 <= k < n,
        forall|i: int| 0 <= i < n && i != k ==> #[trigger] f(i) == g(i),
    ensures
        count1(g, n) == count1(f, n) + (if g(k) {
            1int
        } else {
            0int
        }) - (if f(k) {
            1int
        } else {
            0int
        }),
    decreases n,
{
    if k == n - 1 {
        lemma_count1_congruent(f, g, n - 1);
    } else {
        lemma_count1_diff_one(f, g, n - 1, k);
    }
}

/// A pointwise-weaker predicate counts no more; the counts agree only if the
/// predicates agree everywhere on the range.
pub proof fn lemma_count1_le(f: spec_fn(int) -> bool, g: spec_fn(int) -> bool, n: int)
    requires
        n >= 0,
        forall|i: int| 0 <= i < n && #[trigger] f(i) ==> g(i),
    ensures
        count1(f, n) <= count1(g, n),
        count1(f, n) == count1(g, n) ==> forall|i: int| 0 <= i < n ==> #[trigger] f(i) == g(i),
    decreases n,
{
    if n > 0 {
        lemma_count1_le(f, g, n - 1);
    }
}

pub proof fn lemma_count1_zero(f: spec_fn(int) -> bool, n: int)
    requires
        n >= 0,
        forall|i: int| 0 <= i < n ==> !(#[trigger] f(i)),
    ensures
        count1(f, n) == 0,
    decreases n,
{
    if n > 0 {
        lemma_count1_zero(f, n - 1);
    }
}

/// A predicate that holds exactly on the interval `[lo, hi]` counts its length.
pub proof fn lemma_count1_interval(f: spec_fn(int) -> bool, lo: int, hi: int, n: int)
    requires
        0 <= lo <= hi < n,
        forall|i: int| 0 <= i < n ==> #[trigger] f(i) == (lo <= i <= hi),
    ensures
        count1(f, n) == hi - lo + 1,
    decreases n,
{
    if hi == n - 1 {
        if lo == n - 1 {
            lemma_count1_zero(f, n - 1);
        } else {
            lemma_count1_interval(f, lo, hi - 1, n - 1);
        }
    } else {
        lemma_count1_interval(f, lo, hi, n - 1);
    }
}

pub proof fn lemma_count1_complement(f: spec_fn(int) -> bool, g: spec_fn(int) -> bool, n: int)
    requires
        n >= 0,
        forall|i: int| 0 <= i < n ==> #[trigger] g(i) == !f(i),
    ensures
        count1(f, n) + count1(g, n) == n,
    decreases n,
{
    if n > 0 {
        lemma_count1_complement(f, g, n - 1);
    }
}

pub proof fn lemma_count2_bounds(f: spec_fn(int, int) -> bool, rows: int, cols: int)
    requires
        rows >= 0,
        cols >= 0,
    ensures
        0 <= count2(f, rows, cols) <= rows * cols,
    decreases rows,
{
    if rows > 0 {
        lemma_count2_bounds(f, rows - 1, cols);
        lemma_count1_bounds(|j: int| f(rows - 1, j), cols);
        assert((rows - 1) * cols + cols == rows * cols) by (nonlinear_arith);
    }
}

pub proof fn lemma_count2_congruent(
    f: spec_fn(int, int) -> bool,
    g: spec_fn(int, int) -> bool,
    rows: int,
    cols: int,
)
    requires
        forall|i: int, j: int| 0 <= i < rows && 0 <= j < cols ==> #[trigger] f(i, j) == g(i, j),
    ensures
        count2(f, rows, cols) == count2(g, rows, cols),
    decreases rows,
{
    if rows > 0 {
        lemma_count2_congruent(f, g, rows - 1, cols);
        lemma_count1_congruent(|j: int| f(rows - 1, j), |j: int| g(rows - 1, j), cols);
    }
}

/// Changing the predicate at exactly one position shifts the count by the
/// difference of the two indicator values there.
pub proof fn lemma_count2_diff_one(
    f: spec_fn(int, int) -> bool,
    g: spec_fn(int, int) -> bool,
    rows: int,
    cols: int,
    a: int,
    b: int,
)
    requires
        0 <= a < rows,
        0 <= b < cols,
        forall|i: int, j: int|
            0 <= i < rows && 0 <= j < cols && (i != a || j != b) ==> #[trigger] f(i, j) == g(i,
            j),
    ensures
        count2(g, rows, cols) == count2(f, rows, cols) + (if g(a, b) {
            1int
        } else {
            0int
        }) - (if f(a, b) {
            1int
        } else {
            0int
        }),
    decreases rows,
{
    if a == rows - 1 {
        lemma_count2_congruent(f, g, rows - 1, cols);
        lemma_count1_diff_one(|j: int| f(rows - 1, j), |j: int| g(rows - 1, j), cols, b);
    } else {
        lemma_count2_diff_one(f, g, rows - 1, cols, a, b);
        lemma_count1_congruent(|j: int| f(rows - 1, j), |j: int| g(rows - 1, j), cols);
    }
}

/// A pointwise-weaker predicate counts no more; the counts agree only if the
/// predicates agree everywhere on the rectangle.
pub proof fn lemma_count2_le(
    f: spec_fn(int, int) -> bool,
    g: spec_fn(int, int) -> bool,
    rows: int,
    cols: int,
)
    requires
        rows >= 0,
        cols >= 0,
        forall|i: int, j: int| 0 <= i < rows && 0 <= j < cols && #[trigger] f(i, j) ==> g(i, j),
    ensures
        count2(f, rows, cols) <= count2(g, rows, cols),
        count2(f, rows, cols) == count2(g, rows, cols) ==> forall|i: int, j: int|
            0 <= i < rows && 0 <= j < cols ==> #[trigger] f(i, j) == g(i, j),
    decreases rows,
{
    if rows > 0 {
        let fr = |j: int| f(rows - 1, j);
        let gr = |j: int| g(rows - 1, j);
        lemma_count2_le(f, g, rows - 1, cols);
        lemma_count1_le(fr, gr, cols);
        if count2(f, rows, cols) == count2(g, rows, cols) {
            assert(count2(f, rows - 1, cols) == count2(g, rows - 1, cols));
            assert(count1(fr, cols) == count1(gr, cols));
            assert forall|i: int, j: int| 0 <= i < rows && 0 <= j < cols implies #[trigger] f(
                i,
                j,
            ) == g(i, j) by {
                if i == rows - 1 {
                    assert(fr(j) == gr(j));
                }
            }
        }
    }
}

pub proof fn lemma_count2_zero(f: spec_fn(int, int) -> bool, rows: int, cols: int)
    requires
        rows >= 0,
        cols >= 0,
        forall|i: int, j: int| 0 <= i < rows && 0 <= j < cols ==> !(#[trigger] f(i, j)),
    ensures
        count2(f, rows, cols) == 0,
    decreases rows,
{
    if rows > 0 {
        lemma_count2_zero(f, rows - 1, cols);
        lemma_count1_zero(|j: int| f(rows - 1, j), cols);
    }
}

/// A predicate that holds exactly on the rectangle `[r0, r1] x [c0, c1]`
/// counts its area.
pub proof fn lemma_count2_rect(
    f: spec_fn(int, int) -> bool,
    r0: int,
    r1: int,
    c0: int,
    c1: int,
    rows: int,
    cols: int,
)
    requires
        0 <= r0 <= r1 < rows,
        0 <= c0 <= c1 < cols,
        forall|i: int, j: int|
            0 <= i < rows && 0 <= j < cols ==> #[trigger] f(i, j) == (r0 <= i <= r1 && c0 <= j
                <= c1),
    ensures
        count2(f, rows, cols) == (r1 - r0 + 1) * (c1 - c0 + 1),
    decreases rows,
{
    if r1 == rows - 1 {
        lemma_count1_interval(|j: int| f(rows - 1, j), c0, c1, cols);
        if r0 == rows - 1 {
            lemma_count2_zero(f, rows - 1, cols);
            assert(1 * (c1 - c0 + 1) == c1 - c0 + 1) by (nonlinear_arith);
        } else {
            lemma_count2_rect(f, r0, r1 - 1, c0, c1, rows - 1, cols);
            assert((r1 - 1 - r0 + 1) * (c1 - c0 + 1) + (c1 - c0 + 1) == (r1 - r0 + 1) * (c1 - c0
                + 1)) by (nonlinear_arith);
        }
    } else {
        lemma_count2_rect(f, r0, r1, c0, c1, rows - 1, cols);
        lemma_count1_zero(|j: int| f(rows - 1, j), cols);
    }
}

pub proof fn lemma_count2_complement(
    f: spec_fn(int, int) -> bool,
    g: spec_fn(int, int) -> bool,
    rows: int,
    cols: int,
)
    requires
        rows >= 0,
        cols >= 0,
        forall|i: int, j: int| 0 <= i < rows && 0 <= j < cols ==> #[trigger] g(i, j) == !f(i, j),
    ensures
        count2(f, rows, cols) + count2(g, rows, cols) == rows * cols,
    decreases rows,
{
    if rows > 0 {
        let fr = |j: int| f(rows - 1, j);
        let gr = |j: int| g(rows - 1, j);
        lemma_count2_complement(f, g, rows - 1, cols);
        assert(forall|j: int| 0 <= j < cols ==> #[trigger] gr(j) == !fr(j));
        lemma_count1_complement(fr, gr, cols);
        assert(count1(fr, cols) + count1(gr, cols) == cols);
        assert(count2(f, rows, cols) == count2(f, rows - 1, cols) + count1(fr, cols));
        assert(count2(g, rows, cols) == count2(g, rows - 1, cols) + count1(gr, cols));
        assert((rows - 1) * cols + cols == rows * cols) by (nonlinear_arith);
    } else {
        assert(rows * cols == 0) by (nonlinear_arith)
            requires rows == 0;
    }
}

/// One row's worth of a two-dimensional count, with the row's predicate given
/// under its own name.
pub proof fn lemma_count2_row_unfold(
    f: spec_fn(int, int) -> bool,
    g: spec_fn(int) -> bool,
    n: int,
    cols: int,
)
    requires
        n >= 1,
        cols >= 0,
        forall|j: int| 0 <= j < cols ==> #[trigger] g(j) == f(n - 1, j),
    ensures
        count2(f, n, cols) == count2(f, n - 1, cols) + count1(g, cols),
{
    lemma_count1_congruent(|j: int| f(n - 1, j), g, cols);
}

/// If the predicate holds somewhere on the rectangle, the count is positive.
pub proof fn lemma_count2_pos(f: spec_fn(int, int) -> bool, rows: int, cols: int, a: int, b: int)
    requires
        0 <= a < rows,
        0 <= b < cols,
        f(a, b),
    ensures
        count2(f, rows, cols) >= 1,
{
    let s = |i: int, j: int| i == a && j == b;
    lemma_count2_rect(s, a, a, b, b, rows, cols);
    assert((a - a + 1) * (b - b + 1) == 1) by (nonlinear_arith);
    lemma_count2_le(s, f, rows, cols);
}

} // verus!
