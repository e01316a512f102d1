//! Finite sums of integers, and the few rules of calculation that the laws
//! of determinants need.

use vstd::prelude::*;

verus! {

/// `f(0) + f(1) + ... + f(n - 1)`.
pub open spec fn sum(f: spec_fn(int) -> int, n: int) -> int
    decreases n,
{
    if n <= 0 {
        0
    } else {
        sum(f, n - 1) + f(n - 1)
    }
}

/// Sums of terms that are equal one by one are equal.
pub proof fn lemma_sum_eq(f: spec_fn(int) -> int, g: spec_fn(int) -> int, n: int)
    requires
        forall|k: int| 0 <= k < n ==> #[trigger] f(k) == g(k),
    ensures
        sum(f, n) == sum(g, n),
    decreases n,
{
    if n > 0 {
        lemma_sum_eq(f, g, n - 1);
    }
}

/// A sum of zeros is zero.
pub proof fn lemma_sum_zero(f: spec_fn(int) -> int, n: int)
    requires
        forall|k: int| 0 <= k < n ==> #[trigger] f(k) == 0,
    ensures
        sum(f, n) == 0,
    decreases n,
{
    if n > 0 {
        lemma_sum_zero(f, n - 1);
    }
}

/// The sum of `f(k) + g(k)` is the sum of `f` plus the sum of `g`.
pub proof fn lemma_sum_add(
    f: spec_fn(int) -> int,
    g: spec_fn(int) -> int,
    both: spec_fn(int) -> int,
    n: int,
)
    requires
        forall|k: int| 0 <= k < n ==> #[trigger] both(k) == f(k) + g(k),
    ensures
        sum(both, n) == sum(f, n) + sum(g, n),
    decreases n,
{
    if n > 0 {
        lemma_sum_add(f, g, both, n - 1);
    }
}

/// The sum of `c * f(k)` is `c` times the sum of `f`.
pub proof fn lemma_sum_scale(
    c: int,
    f: spec_fn(int) -> int,
    scaled: spec_fn(int) -> int,
    n: int,
)
    requires
        forall|k: int| 0 <= k < n ==> #[trigger] scaled(k) == c * f(k),
    ensures
        sum(scaled, n) == c * sum(f, n),
    decreases n,
{
    if n > 0 {
        lemma_sum_scale(c, f, scaled, n - 1);
        let rest = sum(f, n - 1);
        let last = f(n - 1);
        assert(c * (rest + last) == c * rest + c * last) by (nonlinear_arith);
    } else {
        assert(c * 0 == 0) by (nonlinear_arith);
    }
}

/// A sum is its first term plus the sum of the terms after it.
pub proof fn lemma_sum_shift(f: spec_fn(int) -> int, tail: spec_fn(int) -> int, n: int)
    requires
        n >= 1,
        forall|k: int| 0 <= k < n - 1 ==> #[trigger] tail(k) == f(k + 1),
    ensures
        sum(f, n) == f(0) + sum(tail, n - 1),
    decreases n,
{
    if n > 1 {
        lemma_sum_shift(f, tail, n - 1);
    } else {
        assert(sum(f, 0) == 0);
        assert(sum(f, 1) == sum(f, 0) + f(0));
    }
}

/// A sum that passes over one index is the whole sum less the term at that
/// index: `passing(k)` is `f(k)` before the index and `f(k + 1)` from it on.
pub proof fn lemma_sum_hole(
    f: spec_fn(int) -> int,
    passing: spec_fn(int) -> int,
    hole: int,
    n: int,
)
    requires
        0 <= hole < n,
        forall|k: int|
            0 <= k < n - 1 ==> #[trigger] passing(k) == f(
                if k < hole {
                    k
                } else {
                    k + 1
                },
            ),
    ensures
        sum(passing, n - 1) == sum(f, n) - f(hole),
    decreases n,
{
    if hole == n - 1 {
        lemma_sum_eq(passing, f, n - 1);
    } else {
        lemma_sum_hole(f, passing, hole, n - 1);
    }
}

/// A sum of sums can be taken in either order: `rows_first(i)` is the sum
/// of `h(i, j)` over `j`, and `cols_first(j)` the sum over `i`.
pub proof fn lemma_sum_swap(
    h: spec_fn(int, int) -> int,
    rows_first: spec_fn(int) -> int,
    cols_first: spec_fn(int) -> int,
    rows: int,
    cols: int,
)
    requires
        forall|i: int| 0 <= i < rows ==> #[trigger] rows_first(i) == sum(|j: int| h(i, j), cols),
        forall|j: int| 0 <= j < cols ==> #[trigger] cols_first(j) == sum(|i: int| h(i, j), rows),
    ensures
        sum(rows_first, rows) == sum(cols_first, cols),
    decreases rows,
{
    if rows <= 0 {
        lemma_sum_zero(cols_first, cols);
    } else {
        let shorter = |j: int| sum(|i: int| h(i, j), rows - 1);
        let last = |j: int| h(rows - 1, j);
        lemma_sum_swap(h, rows_first, shorter, rows - 1, cols);
        lemma_sum_add(shorter, last, cols_first, cols);
    }
}

} // verus!
