//! Products of matrices, and the law that makes the adjugate an inverse:
//! a square matrix times its adjugate, in either order, is the identity
//! scaled by the determinant.

use crate::determinant::{cofactor_of, det};
use crate::inverse::adjugate_of;
use crate::laplace::{lemma_entries_times_cofactors, mixed_expansion};
use crate::transpose::{lemma_cofactor_of_transpose, lemma_det_of_transpose};
use crate::matrix::{is_square, matrix_width, transpose_of, Matrix};
use crate::sums::{lemma_sum_scale, lemma_sum_swap, sum};
use crate::tuple::lemma_wide_product;
use vstd::prelude::*;

verus! {

/// The sum of the first `upto` products of the entries of row `i` of `a`
/// with the entries of column `k` of `b`.
pub open spec fn dot(a: Seq<Seq<int>>, b: Seq<Seq<int>>, i: int, k: int, upto: int) -> int
    decreases upto,
{
    if upto <= 0 {
        0
    } else {
        dot(a, b, i, k, upto - 1) + a[i][upto - 1] * b[upto - 1][k]
    }
}

/// The product of `a` and a matrix `b` of `cols` columns.
pub open spec fn product_of(a: Seq<Seq<int>>, b: Seq<Seq<int>>, cols: nat) -> Seq<Seq<int>> {
    Seq::new(a.len(), |i: int| Seq::new(cols, |k: int| dot(a, b, i, k, b.len() as int)))
}

/// The identity of `n` rows with `d` in place of each one.
pub open spec fn scaled_identity(n: nat, d: int) -> Seq<Seq<int>> {
    Seq::new(
        n,
        |r: int|
            Seq::new(
                n,
                |c: int|
                    if r == c {
                        d
                    } else {
                        0
                    },
            ),
    )
}

/// A row of a matrix times a column of its adjugate is that row times the
/// cofactors of the row with the number of the column.
proof fn lemma_dot_with_adjugate(m: Seq<Seq<int>>, i: int, k: int, upto: int)
    requires
        is_square(m),
        0 <= i < m.len(),
        0 <= k < m.len(),
        0 <= upto <= m.len(),
    ensures
        dot(m, adjugate_of(m), i, k, upto) == mixed_expansion(m, i, k, upto),
    decreases upto,
{
    if upto > 0 {
        lemma_dot_with_adjugate(m, i, k, upto - 1);
        assert(adjugate_of(m)[upto - 1][k] == cofactor_of(m, k, upto - 1));
    }
}

/// A row of the adjugate times a column of the matrix is a row of the
/// transpose times the cofactors of another of its rows.
proof fn lemma_dot_of_adjugate(m: Seq<Seq<int>>, i: int, k: int, upto: int)
    requires
        is_square(m),
        0 <= i < m.len(),
        0 <= k < m.len(),
        0 <= upto <= m.len(),
    ensures
        dot(adjugate_of(m), m, i, k, upto) == mixed_expansion(
            transpose_of(m, m.len()),
            k,
            i,
            upto,
        ),
    decreases upto,
{
    if upto > 0 {
        let j = upto - 1;
        let t = transpose_of(m, m.len());
        lemma_dot_of_adjugate(m, i, k, j);
        lemma_cofactor_of_transpose(m, i, j);
        assert(adjugate_of(m)[i][j] == cofactor_of(m, j, i));
        assert(t[k][j] == m[j][k]);
        assert(cofactor_of(m, j, i) * m[j][k] == m[j][k] * cofactor_of(m, j, i))
            by (nonlinear_arith);
    }
}

/// A square matrix times its adjugate is the identity scaled by the
/// determinant: the matrix of numerators of an inverse, multiplied from the
/// right, gives the denominator on the diagonal and zero elsewhere.
pub proof fn lemma_times_adjugate(m: Seq<Seq<int>>)
    requires
        is_square(m),
    ensures
        product_of(m, adjugate_of(m), m.len()) == scaled_identity(m.len(), det(m)),
{
    let n = m.len();
    let left = product_of(m, adjugate_of(m), n);
    let right = scaled_identity(n, det(m));
    assert forall|i: int, k: int| 0 <= i < n && 0 <= k < n implies #[trigger] left[i][k]
        == right[i][k] by {
        lemma_dot_with_adjugate(m, i, k, n as int);
        lemma_entries_times_cofactors(m, i, k);
    }
    assert(left =~~= right);
}

/// The adjugate of a square matrix times the matrix is the identity scaled
/// by the determinant, as the product in the other order is.
pub proof fn lemma_adjugate_times(m: Seq<Seq<int>>)
    requires
        is_square(m),
    ensures
        product_of(adjugate_of(m), m, m.len()) == scaled_identity(m.len(), det(m)),
{
    let n = m.len();
    let t = transpose_of(m, n);
    let left = product_of(adjugate_of(m), m, n);
    let right = scaled_identity(n, det(m));
    lemma_det_of_transpose(m);
    assert(is_square(t));
    assert forall|i: int, k: int| 0 <= i < n && 0 <= k < n implies #[trigger] left[i][k]
        == right[i][k] by {
        lemma_dot_of_adjugate(m, i, k, n as int);
        lemma_entries_times_cofactors(t, k, i);
    }
    assert(left =~~= right);
}

/// A row times a column is the sum of its terms.
proof fn lemma_dot_is_sum(
    a: Seq<Seq<int>>,
    b: Seq<Seq<int>>,
    i: int,
    k: int,
    upto: int,
    terms: spec_fn(int) -> int,
)
    requires
        forall|j: int| 0 <= j < upto ==> #[trigger] terms(j) == a[i][j] * b[j][k],
    ensures
        dot(a, b, i, k, upto) == sum(terms, upto),
    decreases upto,
{
    if upto > 0 {
        lemma_dot_is_sum(a, b, i, k, upto - 1, terms);
    }
}

/// A product of three square matrices can be taken from either end.
pub proof fn lemma_product_associates(
    a: Seq<Seq<int>>,
    b: Seq<Seq<int>>,
    c: Seq<Seq<int>>,
    i: int,
    k: int,
)
    requires
        is_square(a),
        is_square(b),
        is_square(c),
        a.len() == b.len() == c.len(),
        0 <= i < a.len(),
        0 <= k < a.len(),
    ensures
        dot(product_of(a, b, a.len()), c, i, k, a.len() as int) == dot(
            a,
            product_of(b, c, a.len()),
            i,
            k,
            a.len() as int,
        ),
{
    let n = a.len() as int;
    let ab = product_of(a, b, a.len());
    let bc = product_of(b, c, a.len());
    let h = |j: int, l: int| a[i][l] * b[l][j] * c[j][k];
    let left = |j: int| ab[i][j] * c[j][k];
    let right = |l: int| a[i][l] * bc[l][k];
    lemma_dot_is_sum(ab, c, i, k, n, left);
    lemma_dot_is_sum(a, bc, i, k, n, right);
    assert forall|j: int| 0 <= j < n implies #[trigger] left(j) == sum(|l: int| h(j, l), n) by {
        let inner = |l: int| a[i][l] * b[l][j];
        lemma_dot_is_sum(a, b, i, j, n, inner);
        assert forall|l: int| 0 <= l < n implies #[trigger] h(j, l) == c[j][k] * inner(l) by {
            assert(a[i][l] * b[l][j] * c[j][k] == c[j][k] * (a[i][l] * b[l][j]))
                by (nonlinear_arith);
        }
        lemma_sum_scale(c[j][k], inner, |l: int| h(j, l), n);
        assert(ab[i][j] * c[j][k] == c[j][k] * ab[i][j]) by (nonlinear_arith);
    }
    assert forall|l: int| 0 <= l < n implies #[trigger] right(l) == sum(|j: int| h(j, l), n) by {
        let inner = |j: int| b[l][j] * c[j][k];
        lemma_dot_is_sum(b, c, l, k, n, inner);
        assert forall|j: int| 0 <= j < n implies #[trigger] h(j, l) == a[i][l] * inner(j) by {
            assert(a[i][l] * b[l][j] * c[j][k] == a[i][l] * (b[l][j] * c[j][k]))
                by (nonlinear_arith);
        }
        lemma_sum_scale(a[i][l], inner, |j: int| h(j, l), n);
    }
    lemma_sum_swap(h, left, right, n, n);
}

/// A row of a scaled identity times a column picks one entry of the column
/// and scales it.
proof fn lemma_scaled_identity_times(m: Seq<Seq<int>>, d: int, i: int, k: int, upto: int)
    requires
        0 <= i < m.len(),
        0 <= upto <= m.len(),
    ensures
        dot(scaled_identity(m.len(), d), m, i, k, upto) == if i < upto {
            d * m[i][k]
        } else {
            0
        },
    decreases upto,
{
    if upto > 0 {
        let j = upto - 1;
        lemma_scaled_identity_times(m, d, i, k, j);
        assert(scaled_identity(m.len(), d)[i][j] == if i == j {
            d
        } else {
            0
        });
        assert(0 * m[j][k] == 0) by (nonlinear_arith);
    }
}

/// A row times a column of a scaled identity picks one entry of the row and
/// scales it.
proof fn lemma_times_scaled_identity(m: Seq<Seq<int>>, d: int, i: int, k: int, upto: int)
    requires
        0 <= k < m.len(),
        0 <= upto <= m.len(),
    ensures
        dot(m, scaled_identity(m.len(), d), i, k, upto) == if k < upto {
            d * m[i][k]
        } else {
            0
        },
    decreases upto,
{
    if upto > 0 {
        let j = upto - 1;
        lemma_times_scaled_identity(m, d, i, k, j);
        assert(scaled_identity(m.len(), d)[j][k] == if j == k {
            d
        } else {
            0
        });
        assert(m[i][j] * 0 == 0) by (nonlinear_arith);
        assert(m[i][j] * d == d * m[i][j]) by (nonlinear_arith);
    }
}

/// The inverse of the inverse is the matrix itself. With `n` the numerators
/// and `d` the denominator of the inverse of `m`, and `n2` and `d2` those of
/// the inverse of `n`, the fraction `d * n2 / d2` is the inverse of `n / d`,
/// and it equals `m` entry by entry: `d * n2[r][c] == d2 * m[r][c]`.
pub proof fn lemma_inverse_of_inverse(m: Seq<Seq<int>>, r: int, c: int)
    requires
        is_square(m),
        0 <= r < m.len(),
        0 <= c < m.len(),
    ensures
        det(m) * adjugate_of(adjugate_of(m))[r][c] == det(adjugate_of(m)) * m[r][c],
{
    let size = m.len();
    let n = adjugate_of(m);
    let n2 = adjugate_of(n);
    let d = det(m);
    let d2 = det(n);
    assert(is_square(n));
    assert(is_square(n2));
    lemma_adjugate_times(n);
    lemma_adjugate_times(m);
    lemma_product_associates(n2, n, m, r, c);
    lemma_scaled_identity_times(m, d2, r, c, size as int);
    lemma_times_scaled_identity(n2, d, r, c, size as int);
}

/// Every sum met on the way to an entry of the product is a 64-bit value.
pub open spec fn product_fits(a: Seq<Seq<int>>, b: Seq<Seq<int>>, cols: nat) -> bool {
    forall|i: int, k: int, upto: int|
        0 <= i < a.len() && 0 <= k < cols && 0 <= upto <= b.len() ==> i64::MIN <= #[trigger] dot(
            a,
            b,
            i,
            k,
            upto,
        ) <= i64::MAX
}

/// Row `i` of `a` times column `k` of `b`.
fn dot_product(a: &Matrix, b: &Matrix, i: usize, k: usize) -> (v: i64)
    requires
        matrix_width(*a) == b@.len(),
        i < a@.len(),
        k < matrix_width(*b),
        product_fits(a@, b@, matrix_width(*b)),
    ensures
        v == dot(a@, b@, i as int, k as int, b@.len() as int),
{
    let inner = b.nrows();
    let mut acc: i64 = 0;
    let mut j: usize = 0;
    while j < inner
        invariant
            matrix_width(*a) == b@.len(),
            inner == b@.len(),
            i < a@.len(),
            k < matrix_width(*b),
            product_fits(a@, b@, matrix_width(*b)),
            j <= inner,
            acc == dot(a@, b@, i as int, k as int, j as int),
        decreases inner - j,
    {
        let x = a.get(i, j);
        let y = b.get(j, k);
        proof {
            lemma_wide_product(x, y);
            assert(i64::MIN <= dot(a@, b@, i as int, k as int, j + 1) <= i64::MAX);
        }
        let wide: i128 = (acc as i128) + (x as i128) * (y as i128);
        acc = wide as i64;
        j = j + 1;
    }
    acc
}

/// Whether the first matrix has as many columns as the second has rows and
/// every sum met on the way to an entry of their product is a 64-bit value,
/// so that the product can be taken.
pub fn can_multiply(a: &Matrix, b: &Matrix) -> (ok: bool)
    ensures
        ok == (matrix_width(*a) == b@.len() && product_fits(a@, b@, matrix_width(*b))),
{
    let rows = a.nrows();
    let cols = b.ncols();
    let inner = b.nrows();
    if a.ncols() != inner {
        return false;
    }
    let mut i: usize = 0;
    while i < rows
        invariant
            matrix_width(*a) == b@.len(),
            rows == a@.len(),
            cols == matrix_width(*b),
            inner == b@.len(),
            i <= rows,
            forall|r: int, c: int, upto: int|
                0 <= r < i && 0 <= c < cols && 0 <= upto <= inner ==> i64::MIN <= #[trigger] dot(
                    a@,
                    b@,
                    r,
                    c,
                    upto,
                ) <= i64::MAX,
        decreases rows - i,
    {
        let mut k: usize = 0;
        while k < cols
            invariant
                matrix_width(*a) == b@.len(),
                rows == a@.len(),
                cols == matrix_width(*b),
                inner == b@.len(),
                i < rows,
                k <= cols,
                forall|r: int, c: int, upto: int|
                    0 <= r < i && 0 <= c < cols && 0 <= upto <= inner ==> i64::MIN
                        <= #[trigger] dot(a@, b@, r, c, upto) <= i64::MAX,
                forall|c: int, upto: int|
                    0 <= c < k && 0 <= upto <= inner ==> i64::MIN <= #[trigger] dot(
                        a@,
                        b@,
                        i as int,
                        c,
                        upto,
                    ) <= i64::MAX,
            decreases cols - k,
        {
            let mut acc: i64 = 0;
            let mut j: usize = 0;
            while j < inner
                invariant
                    matrix_width(*a) == b@.len(),
                    inner == b@.len(),
                    i < a@.len(),
                    k < matrix_width(*b),
                    j <= inner,
                    acc == dot(a@, b@, i as int, k as int, j as int),
                    forall|upto: int|
                        0 <= upto <= j ==> i64::MIN <= #[trigger] dot(
                            a@,
                            b@,
                            i as int,
                            k as int,
                            upto,
                        ) <= i64::MAX,
                decreases inner - j,
            {
                let x = a.get(i, j);
                let y = b.get(j, k);
                proof {
                    lemma_wide_product(x, y);
                }
                let wide: i128 = (acc as i128) + (x as i128) * (y as i128);
                if wide < -0x8000_0000_0000_0000 || wide > 0x7fff_ffff_ffff_ffff {
                    proof {
                        assert(dot(a@, b@, i as int, k as int, j + 1) == wide);
                    }
                    return false;
                }
                acc = wide as i64;
                j = j + 1;
            }
            k = k + 1;
        }
        i = i + 1;
    }
    true
}

/// Rows before row `i` lie before it in a listing by rows.
proof fn lemma_row_major(r: int, c: int, i: int, cols: int)
    requires
        0 <= r < i,
        0 <= c < cols,
    ensures
        0 <= r * cols + c < i * cols,
        (i + 1) * cols == i * cols + cols,
{
    assert(0 <= r * cols && r * cols + cols <= i * cols && (i + 1) * cols == i * cols + cols)
        by (nonlinear_arith)
        requires
            0 <= r < i,
            0 < cols,
    ;
}

/// The product of two matrices of which the first has as many columns as
/// the second has rows.
pub fn multiply(a: &Matrix, b: &Matrix) -> (res: Matrix)
    requires
        matrix_width(*a) == b@.len(),
        product_fits(a@, b@, matrix_width(*b)),
    ensures
        res@ == product_of(a@, b@, matrix_width(*b)),
        matrix_width(res) == matrix_width(*b),
{
    let rows = a.nrows();
    let cols = b.ncols();
    let mut data: Vec<i64> = Vec::new();
    let mut i: usize = 0;
    while i < rows
        invariant
            matrix_width(*a) == b@.len(),
            rows == a@.len(),
            cols == matrix_width(*b),
            product_fits(a@, b@, matrix_width(*b)),
            i <= rows,
            data@.len() == i * cols,
            forall|r: int, c: int|
                0 <= r < i && 0 <= c < cols ==> #[trigger] data@[r * cols + c] == dot(
                    a@,
                    b@,
                    r,
                    c,
                    b@.len() as int,
                ),
        decreases rows - i,
    {
        let mut k: usize = 0;
        while k < cols
            invariant
                matrix_width(*a) == b@.len(),
                rows == a@.len(),
                cols == matrix_width(*b),
                product_fits(a@, b@, matrix_width(*b)),
                i < rows,
                k <= cols,
                data@.len() == i * cols + k,
                forall|r: int, c: int|
                    0 <= r < i && 0 <= c < cols ==> #[trigger] data@[r * cols + c] == dot(
                        a@,
                        b@,
                        r,
                        c,
                        b@.len() as int,
                    ),
                forall|c: int|
                    0 <= c < k ==> #[trigger] data@[i * cols + c] == dot(
                        a@,
                        b@,
                        i as int,
                        c,
                        b@.len() as int,
                    ),
            decreases cols - k,
        {
            let ghost before = data@;
            let v = dot_product(a, b, i, k);
            data.push(v);
            proof {
                assert forall|r: int, c: int| 0 <= r < i && 0 <= c < cols implies #[trigger] data@[r
                    * cols + c] == dot(a@, b@, r, c, b@.len() as int) by {
                    lemma_row_major(r, c, i as int, cols as int);
                    assert(data@[r * cols + c] == before[r * cols + c]);
                }
                assert forall|c: int| 0 <= c < k + 1 implies #[trigger] data@[i * cols + c] == dot(
                    a@,
                    b@,
                    i as int,
                    c,
                    b@.len() as int,
                ) by {
                    if c < k {
                        assert(data@[i * cols + c] == before[i * cols + c]);
                    }
                }
            }
            k = k + 1;
        }
        proof {
            assert((i + 1) * cols == i * cols + cols) by (nonlinear_arith);
            assert forall|r: int, c: int| 0 <= r < i + 1 && 0 <= c < cols implies #[trigger] data@[r
                * cols + c] == dot(a@, b@, r, c, b@.len() as int) by {}
        }
        i = i + 1;
    }
    let res = Matrix::from_row_slice(rows, cols, data.as_slice());
    assert(res@ =~~= product_of(a@, b@, matrix_width(*b)));
    res
}

} // verus!
