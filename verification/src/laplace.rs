//! The expansion of a determinant along any row, and what follows from it:
//! a matrix with two equal rows has the determinant zero, and the entries of
//! one row times the cofactors of another add up to zero.

use crate::determinant::{
    cofactor_of, det, expansion, lemma_det_of_two_rows, lemma_submatrix_square, sign, skip,
    submatrix_of,
};
use crate::transpose::{lemma_det_is_expansion, lemma_expansion_is_sum, lemma_regroup};
use crate::matrix::is_square;
use crate::sums::{
    lemma_sum_eq, lemma_sum_hole, lemma_sum_scale, lemma_sum_swap, lemma_sum_zero, sum,
};
use vstd::prelude::*;

verus! {

/// The index of row or column `k` of the whole matrix in the matrix without
/// row or column `gone`.
pub open spec fn unskip(k: int, gone: int) -> int {
    if k < gone {
        k
    } else {
        k - 1
    }
}

/// Taking away the first row and a column, then a lower row and a second
/// column, leaves what the other order leaves.
proof fn lemma_two_removals(m: Seq<Seq<int>>, i: int, j: int, l: int)
    requires
        is_square(m),
        m.len() >= 2,
        1 <= i < m.len(),
        0 <= j < m.len(),
        0 <= l < m.len(),
        j != l,
    ensures
        submatrix_of(submatrix_of(m, 0, j), i - 1, unskip(l, j)) == submatrix_of(
            submatrix_of(m, i, l),
            0,
            unskip(j, l),
        ),
{
    let left = submatrix_of(submatrix_of(m, 0, j), i - 1, unskip(l, j));
    let right = submatrix_of(submatrix_of(m, i, l), 0, unskip(j, l));
    assert(left.len() == right.len());
    assert forall|r: int| 0 <= r < left.len() implies #[trigger] left[r] =~= right[r] by {
        assert forall|c: int| 0 <= c < left[r].len() implies left[r][c] == right[r][c] by {
            assert(skip(skip(c, unskip(l, j)), j) == skip(skip(c, unskip(j, l)), l));
            assert(skip(skip(r, i - 1), 0) == skip(skip(r, 0), i));
        }
    }
    assert(left =~= right);
}

/// The term that the entries `m[0][j]` and `m[i][l]` share in the
/// determinant: their product, a sign, and the determinant of the matrix
/// without rows `0` and `i` and columns `j` and `l`.
pub open spec fn shared_term(m: Seq<Seq<int>>, i: int, j: int, l: int) -> int {
    if j == l {
        0
    } else {
        m[0][j] * m[i][l] * (sign(j) * sign(i - 1 + unskip(l, j))) * det(
            submatrix_of(submatrix_of(m, 0, j), i - 1, unskip(l, j)),
        )
    }
}

/// One term of the expansion along the first row is the sum of the terms
/// that its entry shares with the entries of row `i`.
proof fn lemma_first_row_term(m: Seq<Seq<int>>, i: int, j: int)
    requires
        is_square(m),
        1 <= i < m.len(),
        0 <= j < m.len(),
        expansion(submatrix_of(m, 0, j), i - 1, m.len() - 1) == det(submatrix_of(m, 0, j)),
    ensures
        m[0][j] * cofactor_of(m, 0, j) == sum(|l: int| shared_term(m, i, j, l), m.len() as int),
{
    let n = m.len() as int;
    let s = submatrix_of(m, 0, j);
    lemma_submatrix_square(m, 0, j);
    let inner = |k: int| s[i - 1][k] * cofactor_of(s, i - 1, k);
    lemma_expansion_is_sum(s, i - 1, n - 1, inner);
    let whole = |l: int| shared_term(m, i, j, l);
    let passing = |k: int| whole(skip(k, j));
    let c = m[0][j] * sign(j);
    assert forall|k: int| 0 <= k < n - 1 implies #[trigger] passing(k) == c * inner(k) by {
        lemma_first_row_factor(m, i, j, k);
    }
    lemma_sum_scale(c, inner, passing, n - 1);
    lemma_sum_hole(whole, passing, j, n);
    assert(whole(j) == 0);
    assert(m[0][j] * (sign(j) * det(s)) == c * det(s)) by (nonlinear_arith)
        requires
            c == m[0][j] * sign(j),
    ;
    assert(cofactor_of(m, 0, j) == sign(j) * det(s));
}

/// A shared term, seen from the first row: the factor of the first row
/// times a term of the expansion of its minor.
proof fn lemma_first_row_factor(m: Seq<Seq<int>>, i: int, j: int, k: int)
    requires
        is_square(m),
        1 <= i < m.len(),
        0 <= j < m.len(),
        0 <= k < m.len() - 1,
    ensures
        shared_term(m, i, j, skip(k, j)) == (m[0][j] * sign(j)) * (submatrix_of(m, 0, j)[i
            - 1][k] * cofactor_of(submatrix_of(m, 0, j), i - 1, k)),
{
    let s = submatrix_of(m, 0, j);
    let l = skip(k, j);
    assert(unskip(l, j) == k);
    let d = det(submatrix_of(s, i - 1, k));
    assert(s[i - 1][k] == m[i][l]);
    lemma_regroup(m[0][j], m[i][l], sign(j) * sign(i - 1 + k), sign(j), sign(i - 1 + k), d);
    assert(cofactor_of(s, i - 1, k) == sign(i - 1 + k) * d);
    assert(s[i - 1][k] * (sign(i - 1 + k) * d) == m[i][l] * sign(i - 1 + k) * d)
        by (nonlinear_arith)
        requires
            s[i - 1][k] == m[i][l],
    ;
}

/// One term of the expansion along row `i` is the sum of the terms that its
/// entry shares with the entries of the first row.
proof fn lemma_other_row_term(m: Seq<Seq<int>>, i: int, l: int)
    requires
        is_square(m),
        1 <= i < m.len(),
        0 <= l < m.len(),
    ensures
        m[i][l] * cofactor_of(m, i, l) == sum(|j: int| shared_term(m, i, j, l), m.len() as int),
{
    let n = m.len() as int;
    let t = submatrix_of(m, i, l);
    lemma_submatrix_square(m, i, l);
    lemma_det_is_expansion(t);
    let inner = |k: int| t[0][k] * cofactor_of(t, 0, k);
    lemma_expansion_is_sum(t, 0, n - 1, inner);
    let whole = |j: int| shared_term(m, i, j, l);
    let passing = |k: int| whole(skip(k, l));
    let c = m[i][l] * sign(i + l);
    assert forall|k: int| 0 <= k < n - 1 implies #[trigger] passing(k) == c * inner(k) by {
        lemma_other_row_factor(m, i, l, k);
    }
    lemma_sum_scale(c, inner, passing, n - 1);
    lemma_sum_hole(whole, passing, l, n);
    assert(whole(l) == 0);
    assert(m[i][l] * (sign(i + l) * det(t)) == c * det(t)) by (nonlinear_arith)
        requires
            c == m[i][l] * sign(i + l),
    ;
    assert(cofactor_of(m, i, l) == sign(i + l) * det(t));
}

/// A shared term, seen from row `i`: the factor of that row times a term of
/// the expansion of its minor.
proof fn lemma_other_row_factor(m: Seq<Seq<int>>, i: int, l: int, k: int)
    requires
        is_square(m),
        1 <= i < m.len(),
        0 <= l < m.len(),
        0 <= k < m.len() - 1,
    ensures
        shared_term(m, i, skip(k, l), l) == (m[i][l] * sign(i + l)) * (submatrix_of(m, i, l)[0][k]
            * cofactor_of(submatrix_of(m, i, l), 0, k)),
{
    let t = submatrix_of(m, i, l);
    let j = skip(k, l);
    assert(unskip(j, l) == k);
    lemma_two_removals(m, i, j, l);
    let d = det(submatrix_of(t, 0, k));
    assert(t[0][k] == m[0][j]);
    assert(sign(j) * sign(i - 1 + unskip(l, j)) == sign(k) * sign(i + l));
    lemma_regroup(
        m[0][j],
        m[i][l],
        sign(j) * sign(i - 1 + unskip(l, j)),
        sign(k),
        sign(i + l),
        d,
    );
    assert(cofactor_of(t, 0, k) == sign(k) * d);
    assert(t[0][k] * (sign(k) * d) == m[0][j] * sign(k) * d) by (nonlinear_arith)
        requires
            t[0][k] == m[0][j],
    ;
}

/// The expansion of a determinant along any row gives the determinant.
pub proof fn lemma_any_row(m: Seq<Seq<int>>, i: int)
    requires
        is_square(m),
        0 <= i < m.len(),
    ensures
        expansion(m, i, m.len() as int) == det(m),
    decreases m.len(),
{
    let n = m.len() as int;
    lemma_det_is_expansion(m);
    if i >= 1 {
        let first = |j: int| m[0][j] * cofactor_of(m, 0, j);
        let other = |l: int| m[i][l] * cofactor_of(m, i, l);
        lemma_expansion_is_sum(m, 0, n, first);
        lemma_expansion_is_sum(m, i, n, other);
        let h = |j: int, l: int| shared_term(m, i, j, l);
        assert forall|j: int| 0 <= j < n implies #[trigger] first(j) == sum(
            |l: int| h(j, l),
            n,
        ) by {
            lemma_submatrix_square(m, 0, j);
            lemma_any_row(submatrix_of(m, 0, j), i - 1);
            lemma_first_row_term(m, i, j);
            lemma_sum_eq(|l: int| h(j, l), |l: int| shared_term(m, i, j, l), n);
        }
        assert forall|l: int| 0 <= l < n implies #[trigger] other(l) == sum(
            |j: int| h(j, l),
            n,
        ) by {
            lemma_other_row_term(m, i, l);
            lemma_sum_eq(|j: int| h(j, l), |j: int| shared_term(m, i, j, l), n);
        }
        lemma_sum_swap(h, first, other, n, n);
    }
}

/// A matrix with two equal rows has the determinant zero.
pub proof fn lemma_equal_rows(m: Seq<Seq<int>>, p: int, q: int)
    requires
        is_square(m),
        0 <= p < q < m.len(),
        m[p] == m[q],
    ensures
        det(m) == 0,
    decreases m.len(),
{
    let n = m.len() as int;
    if n == 2 {
        lemma_det_of_two_rows(m);
        assert(m[0][0] == m[1][0] && m[0][1] == m[1][1]);
        assert(m[0][0] * m[1][1] - m[0][1] * m[1][0] == 0) by (nonlinear_arith)
            requires
                m[0][0] == m[1][0],
                m[0][1] == m[1][1],
        ;
    } else {
        let r: int = if p != 0 && q != 0 {
            0
        } else if p != 1 && q != 1 {
            1
        } else {
            2
        };
        lemma_any_row(m, r);
        let terms = |j: int| m[r][j] * cofactor_of(m, r, j);
        lemma_expansion_is_sum(m, r, n, terms);
        assert forall|j: int| 0 <= j < n implies #[trigger] terms(j) == 0 by {
            let sub = submatrix_of(m, r, j);
            lemma_submatrix_square(m, r, j);
            let upper = unskip(p, r);
            let lower = unskip(q, r);
            assert(skip(upper, r) == p && skip(lower, r) == q);
            assert(sub[upper] =~= sub[lower]) by {
                assert forall|c: int| 0 <= c < n - 1 implies sub[upper][c] == sub[lower][c] by {
                    assert(sub[upper][c] == m[p][skip(c, j)]);
                    assert(sub[lower][c] == m[q][skip(c, j)]);
                }
            }
            lemma_equal_rows(sub, upper, lower);
            assert(cofactor_of(m, r, j) == sign(r + j) * det(sub));
            assert(m[r][j] * (sign(r + j) * 0) == 0) by (nonlinear_arith);
        }
        lemma_sum_zero(terms, n);
    }
}

/// The sum of the first `upto` products of the entries of one row with the
/// cofactors of another.
pub open spec fn mixed_expansion(m: Seq<Seq<int>>, entries: int, cofactors: int, upto: int) -> int
    decreases upto,
{
    if upto <= 0 {
        0
    } else {
        mixed_expansion(m, entries, cofactors, upto - 1) + m[entries][upto - 1] * cofactor_of(
            m,
            cofactors,
            upto - 1,
        )
    }
}

/// A sum of entries times cofactors is the sum of its terms.
proof fn lemma_mixed_is_sum(
    m: Seq<Seq<int>>,
    entries: int,
    cofactors: int,
    upto: int,
    terms: spec_fn(int) -> int,
)
    requires
        forall|j: int|
            0 <= j < upto ==> #[trigger] terms(j) == m[entries][j] * cofactor_of(m, cofactors, j),
    ensures
        mixed_expansion(m, entries, cofactors, upto) == sum(terms, upto),
    decreases upto,
{
    if upto > 0 {
        lemma_mixed_is_sum(m, entries, cofactors, upto - 1, terms);
    }
}

/// The entries of a row times the cofactors of the same row add up to the
/// determinant; times the cofactors of another row they add up to zero.
pub proof fn lemma_entries_times_cofactors(m: Seq<Seq<int>>, i: int, k: int)
    requires
        is_square(m),
        0 <= i < m.len(),
        0 <= k < m.len(),
    ensures
        mixed_expansion(m, i, k, m.len() as int) == if i == k {
            det(m)
        } else {
            0
        },
{
    let n = m.len() as int;
    let terms = |j: int| m[i][j] * cofactor_of(m, k, j);
    lemma_mixed_is_sum(m, i, k, n, terms);
    if i == k {
        lemma_any_row(m, i);
        lemma_expansion_is_sum(m, i, n, terms);
    } else {
        let twice = m.update(k, m[i]);
        assert(is_square(twice));
        assert forall|j: int| 0 <= j < n implies #[trigger] terms(j) == twice[k][j] * cofactor_of(
            twice,
            k,
            j,
        ) by {
            assert(submatrix_of(twice, k, j) =~~= submatrix_of(m, k, j));
        }
        lemma_expansion_is_sum(twice, k, n, terms);
        lemma_any_row(twice, k);
        if i < k {
            lemma_equal_rows(twice, i, k);
        } else {
            lemma_equal_rows(twice, k, i);
        }
    }
}

} // verus!
