//! The determinant of a transpose: a determinant can be expanded down the
//! first column as well as along the first row, and so a matrix and its
//! transpose have the same determinant.

use crate::determinant::{cofactor_of, det, expansion, lemma_submatrix_square, sign, submatrix_of};
use crate::matrix::{is_square, transpose_of};
use crate::sums::{lemma_sum_scale, lemma_sum_shift, lemma_sum_swap, sum};
use vstd::prelude::*;

verus! {

/// The sum of the first `upto` terms of the expansion down a column: each
/// entry of the column times its cofactor.
pub open spec fn column_expansion(m: Seq<Seq<int>>, col: int, upto: int) -> int
    decreases upto,
{
    if upto <= 0 {
        0
    } else {
        column_expansion(m, col, upto - 1) + m[upto - 1][col] * cofactor_of(m, upto - 1, col)
    }
}

/// The sign of a sum is the product of the signs.
pub proof fn lemma_sign_of_sum(a: int, b: int)
    ensures
        sign(a + b) == sign(a) * sign(b),
        sign(a + 1) == -sign(a),
{
}

/// An expansion along a row is the sum of its terms.
pub proof fn lemma_expansion_is_sum(
    m: Seq<Seq<int>>,
    row: int,
    upto: int,
    terms: spec_fn(int) -> int,
)
    requires
        forall|j: int| 0 <= j < upto ==> #[trigger] terms(j) == m[row][j] * cofactor_of(m, row, j),
    ensures
        expansion(m, row, upto) == sum(terms, upto),
    decreases upto,
{
    if upto > 0 {
        lemma_expansion_is_sum(m, row, upto - 1, terms);
    }
}

/// An expansion down a column is the sum of its terms.
pub proof fn lemma_column_expansion_is_sum(
    m: Seq<Seq<int>>,
    col: int,
    upto: int,
    terms: spec_fn(int) -> int,
)
    requires
        forall|i: int| 0 <= i < upto ==> #[trigger] terms(i) == m[i][col] * cofactor_of(m, i, col),
    ensures
        column_expansion(m, col, upto) == sum(terms, upto),
    decreases upto,
{
    if upto > 0 {
        lemma_column_expansion_is_sum(m, col, upto - 1, terms);
    }
}

/// The determinant of a matrix with at least one row is its expansion along
/// the first row.
pub proof fn lemma_det_is_expansion(m: Seq<Seq<int>>)
    requires
        m.len() >= 1,
    ensures
        det(m) == expansion(m, 0, m.len() as int),
{
    if m.len() == 1 {
        reveal_with_fuel(expansion, 2);
        assert(submatrix_of(m, 0, 0).len() == 0);
        assert(cofactor_of(m, 0, 0) == 1);
        assert(m[0][0] * 1 == m[0][0]) by (nonlinear_arith);
    }
}

/// Taking away the first row and a later column, then a row and the first
/// column, leaves what the other order leaves.
pub proof fn lemma_removal_commutes(m: Seq<Seq<int>>, i: int, j: int)
    requires
        is_square(m),
        m.len() >= 2,
        0 <= i < m.len() - 1,
        0 <= j < m.len() - 1,
    ensures
        submatrix_of(submatrix_of(m, 0, j + 1), i, 0) == submatrix_of(
            submatrix_of(m, i + 1, 0),
            0,
            j,
        ),
{
    let left = submatrix_of(submatrix_of(m, 0, j + 1), i, 0);
    let right = submatrix_of(submatrix_of(m, i + 1, 0), 0, j);
    assert(left =~~= right);
}

/// The product of four factors, regrouped.
pub proof fn lemma_regroup(a: int, b: int, s: int, sa: int, sb: int, d: int)
    requires
        s == sa * sb,
    ensures
        a * b * s * d == (a * sa) * (b * sb * d),
        a * b * s * d == (b * sb) * (a * sa * d),
{
    assert(a * b * (sa * sb) * d == (a * sa) * (b * sb * d)) by (nonlinear_arith);
    assert(a * b * (sa * sb) * d == (b * sb) * (a * sa * d)) by (nonlinear_arith);
}

/// The expansion down the first column gives the determinant.
pub proof fn lemma_first_column(m: Seq<Seq<int>>)
    requires
        is_square(m),
        m.len() >= 1,
    ensures
        column_expansion(m, 0, m.len() as int) == det(m),
    decreases m.len(),
{
    let n = m.len() as int;
    lemma_det_is_expansion(m);
    let along_row = |j: int| m[0][j] * cofactor_of(m, 0, j);
    let down_column = |i: int| m[i][0] * cofactor_of(m, i, 0);
    lemma_expansion_is_sum(m, 0, n, along_row);
    lemma_column_expansion_is_sum(m, 0, n, down_column);
    let row_tail = |j: int| along_row(j + 1);
    let column_tail = |i: int| down_column(i + 1);
    lemma_sum_shift(along_row, row_tail, n);
    lemma_sum_shift(down_column, column_tail, n);
    let h = |i: int, j: int|
        m[0][j + 1] * m[i + 1][0] * sign(i + j + 1) * det(
            submatrix_of(submatrix_of(m, 0, j + 1), i, 0),
        );
    assert forall|j: int| 0 <= j < n - 1 implies #[trigger] row_tail(j) == sum(
        |i: int| h(i, j),
        n - 1,
    ) by {
        let s = submatrix_of(m, 0, j + 1);
        lemma_submatrix_square(m, 0, j + 1);
        lemma_first_column(s);
        let inner = |i: int| s[i][0] * cofactor_of(s, i, 0);
        lemma_column_expansion_is_sum(s, 0, n - 1, inner);
        let c = m[0][j + 1] * sign(j + 1);
        assert forall|i: int| 0 <= i < n - 1 implies #[trigger] h(i, j) == c * inner(i) by {
            lemma_sign_of_sum(i, j + 1);
            assert(s[i][0] == m[i + 1][0]);
            lemma_regroup(
                m[0][j + 1],
                m[i + 1][0],
                sign(i + j + 1),
                sign(j + 1),
                sign(i),
                det(submatrix_of(s, i, 0)),
            );
            assert(cofactor_of(s, i, 0) == sign(i) * det(submatrix_of(s, i, 0)));
            assert(s[i][0] * (sign(i) * det(submatrix_of(s, i, 0))) == m[i + 1][0] * sign(i)
                * det(submatrix_of(s, i, 0))) by (nonlinear_arith)
                requires
                    s[i][0] == m[i + 1][0],
            ;
        }
        lemma_sum_scale(c, inner, |i: int| h(i, j), n - 1);
        assert(m[0][j + 1] * (sign(j + 1) * det(s)) == c * det(s)) by (nonlinear_arith)
            requires
                c == m[0][j + 1] * sign(j + 1),
        ;
    }
    assert forall|i: int| 0 <= i < n - 1 implies #[trigger] column_tail(i) == sum(
        |j: int| h(i, j),
        n - 1,
    ) by {
        let t = submatrix_of(m, i + 1, 0);
        lemma_submatrix_square(m, i + 1, 0);
        lemma_det_is_expansion(t);
        let inner = |j: int| t[0][j] * cofactor_of(t, 0, j);
        lemma_expansion_is_sum(t, 0, n - 1, inner);
        let c = m[i + 1][0] * sign(i + 1);
        assert forall|j: int| 0 <= j < n - 1 implies #[trigger] h(i, j) == c * inner(j) by {
            lemma_sign_of_sum(j, i + 1);
            lemma_removal_commutes(m, i, j);
            assert(t[0][j] == m[0][j + 1]);
            let d = det(submatrix_of(t, 0, j));
            lemma_regroup(m[0][j + 1], m[i + 1][0], sign(i + j + 1), sign(j), sign(i + 1), d);
            assert(cofactor_of(t, 0, j) == sign(j) * d);
            assert(t[0][j] * (sign(j) * d) == m[0][j + 1] * sign(j) * d) by (nonlinear_arith)
                requires
                    t[0][j] == m[0][j + 1],
            ;
        }
        lemma_sum_scale(c, inner, |j: int| h(i, j), n - 1);
        assert(m[i + 1][0] * (sign(i + 1) * det(t)) == c * det(t)) by (nonlinear_arith)
            requires
                c == m[i + 1][0] * sign(i + 1),
        ;
    }
    lemma_sum_swap(h, column_tail, row_tail, n - 1, n - 1);
}

/// The transpose without row `i` and column `j` is the transpose of the
/// matrix without row `j` and column `i`.
pub proof fn lemma_transpose_submatrix(m: Seq<Seq<int>>, i: int, j: int)
    requires
        is_square(m),
        0 <= i < m.len(),
        0 <= j < m.len(),
    ensures
        submatrix_of(transpose_of(m, m.len()), i, j) == transpose_of(
            submatrix_of(m, j, i),
            (m.len() - 1) as nat,
        ),
{
    let left = submatrix_of(transpose_of(m, m.len()), i, j);
    let right = transpose_of(submatrix_of(m, j, i), (m.len() - 1) as nat);
    assert(left =~~= right);
}

/// A square matrix and its transpose have the same determinant.
pub proof fn lemma_det_of_transpose(m: Seq<Seq<int>>)
    requires
        is_square(m),
    ensures
        det(transpose_of(m, m.len())) == det(m),
    decreases m.len(),
{
    let n = m.len() as int;
    let t = transpose_of(m, m.len());
    if n >= 2 {
        let along_row = |j: int| t[0][j] * cofactor_of(t, 0, j);
        lemma_expansion_is_sum(t, 0, n, along_row);
        assert forall|j: int| 0 <= j < n implies #[trigger] along_row(j) == m[j][0] * cofactor_of(
            m,
            j,
            0,
        ) by {
            lemma_transpose_submatrix(m, 0, j);
            lemma_submatrix_square(m, j, 0);
            lemma_det_of_transpose(submatrix_of(m, j, 0));
        }
        lemma_column_expansion_is_sum(m, 0, n, along_row);
        lemma_first_column(m);
    }
}

/// The cofactor of a transpose at `(i, j)` is the cofactor of the matrix at
/// `(j, i)`.
pub proof fn lemma_cofactor_of_transpose(m: Seq<Seq<int>>, i: int, j: int)
    requires
        is_square(m),
        0 <= i < m.len(),
        0 <= j < m.len(),
    ensures
        cofactor_of(transpose_of(m, m.len()), i, j) == cofactor_of(m, j, i),
{
    lemma_transpose_submatrix(m, i, j);
    lemma_submatrix_square(m, j, i);
    lemma_det_of_transpose(submatrix_of(m, j, i));
}

} // verus!
