//! Determinants by cofactor expansion, minors, cofactors and inverses.
//!
//! The determinant of a matrix with two or more rows is the sum, along its
//! first row, of each entry times its cofactor. A cofactor is a minor with
//! the sign of a checkerboard, and a minor is the determinant of the matrix
//! without one row and one column.
//!
//! Arithmetic is exact. A determinant can be taken where every minor and
//! cofactor that its expansion meets, and every sum of its terms, is a 64-bit
//! value. The product of an entry and a cofactor may be wider.

use crate::matrix::{is_square, Matrix};
use crate::tuple::{fits, lemma_wide_product};
use vstd::prelude::*;

verus! {

/// The index in the whole matrix of row or column `k` of the matrix without
/// row or column `gone`.
pub open spec fn skip(k: int, gone: int) -> int {
    if k < gone {
        k
    } else {
        k + 1
    }
}

/// A square matrix without one row and one column.
pub open spec fn submatrix_of(m: Seq<Seq<int>>, row: int, col: int) -> Seq<Seq<int>> {
    Seq::new(
        (m.len() - 1) as nat,
        |r: int| Seq::new((m.len() - 1) as nat, |c: int| m[skip(r, row)][skip(c, col)]),
    )
}

/// The sign of the checkerboard: plus on even squares, minus on odd ones.
pub open spec fn sign(k: int) -> int {
    if k % 2 == 0 {
        1
    } else {
        -1
    }
}

/// The determinant of a square matrix. The empty matrix has the determinant
/// 1, a single entry is its own determinant, and a larger matrix is expanded
/// along its first row.
pub open spec fn det(m: Seq<Seq<int>>) -> int
    decreases m.len(), 3nat, 0int,
{
    if m.len() == 0 {
        1
    } else if m.len() == 1 {
        m[0][0]
    } else {
        expansion(m, 0, m.len() as int)
    }
}

/// The sum of the first `upto` terms of the expansion along a row: each
/// entry of the row times its cofactor.
pub open spec fn expansion(m: Seq<Seq<int>>, row: int, upto: int) -> int
    decreases m.len(), 2nat, upto,
{
    if upto <= 0 {
        0
    } else {
        expansion(m, row, upto - 1) + m[row][upto - 1] * cofactor_of(m, row, upto - 1)
    }
}

/// A minor with its checkerboard sign.
pub open spec fn cofactor_of(m: Seq<Seq<int>>, row: int, col: int) -> int
    decreases m.len(), 1nat, 0int,
{
    sign(row + col) * minor_of(m, row, col)
}

/// The determinant of the matrix without a row and a column.
pub open spec fn minor_of(m: Seq<Seq<int>>, row: int, col: int) -> int
    decreases m.len(), 0nat, 0int,
{
    if m.len() >= 1 {
        det(submatrix_of(m, row, col))
    } else {
        0
    }
}

/// The determinant of a matrix can be taken within 64 bits. For two rows
/// the determinant itself has to be a 64-bit value; for more rows, what each
/// term of the expansion along the first row meets.
pub open spec fn expansion_fits(m: Seq<Seq<int>>) -> bool
    decreases m.len(), 2nat, 0int,
{
    if m.len() <= 1 {
        true
    } else if m.len() == 2 {
        fits(m[0][0] * m[1][1] - m[0][1] * m[1][0])
    } else {
        terms_fit(m, m.len() as int)
    }
}

/// The first `upto` terms of the expansion along the first row can be added
/// within 64 bits.
pub open spec fn terms_fit(m: Seq<Seq<int>>, upto: int) -> bool
    decreases m.len(), 1nat, upto,
{
    if upto <= 0 {
        true
    } else {
        terms_fit(m, upto - 1) && term_fits(m, upto - 1)
    }
}

/// Term `j` of the expansion along the first row can be added within 64
/// bits: its minor can be taken, and its cofactor and the sum of the terms
/// up to it are 64-bit values.
pub open spec fn term_fits(m: Seq<Seq<int>>, j: int) -> bool
    decreases m.len(), 0nat, 0int,
{
    if m.len() >= 1 {
        &&& expansion_fits(submatrix_of(m, 0, j))
        &&& fits(cofactor_of(m, 0, j))
        &&& fits(expansion(m, 0, j + 1))
    } else {
        true
    }
}

/// Where the first terms of an expansion fit, fewer of them fit.
pub proof fn lemma_fewer_terms_fit(m: Seq<Seq<int>>, fewer: int, upto: int)
    requires
        fewer <= upto,
        terms_fit(m, upto),
    ensures
        terms_fit(m, fewer),
    decreases upto - fewer,
{
    if fewer < upto {
        lemma_fewer_terms_fit(m, fewer, upto - 1);
    }
}

/// The minor at `(row, col)` can be taken within 64 bits.
pub open spec fn minor_fits(m: Seq<Seq<int>>, row: int, col: int) -> bool {
    expansion_fits(submatrix_of(m, row, col))
}

/// The cofactor at `(row, col)` can be taken within 64 bits.
pub open spec fn cofactor_fits(m: Seq<Seq<int>>, row: int, col: int) -> bool {
    minor_fits(m, row, col) && fits(cofactor_of(m, row, col))
}

/// A submatrix of a square matrix is square and one row smaller.
pub proof fn lemma_submatrix_square(m: Seq<Seq<int>>, row: int, col: int)
    requires
        is_square(m),
        0 <= row < m.len(),
        0 <= col < m.len(),
    ensures
        is_square(submatrix_of(m, row, col)),
        submatrix_of(m, row, col).len() == m.len() - 1,
{
}

/// The determinant of a matrix of two rows is the product of the diagonal
/// less the product of the other two entries.
pub proof fn lemma_det_of_two_rows(m: Seq<Seq<int>>)
    requires
        is_square(m),
        m.len() == 2,
    ensures
        det(m) == m[0][0] * m[1][1] - m[0][1] * m[1][0],
{
    reveal_with_fuel(expansion, 3);
    let s0 = submatrix_of(m, 0, 0);
    let s1 = submatrix_of(m, 0, 1);
    assert(det(s0) == s0[0][0]);
    assert(det(s1) == s1[0][0]);
    assert(s0[0][0] == m[1][1]);
    assert(s1[0][0] == m[1][0]);
    assert(cofactor_of(m, 0, 0) == m[1][1]);
    assert(cofactor_of(m, 0, 1) == -m[1][0]);
    assert(m[0][1] * (-m[1][0]) == -(m[0][1] * m[1][0])) by (nonlinear_arith);
}

/// The matrix without row `row` and column `col`.
pub fn submatrix(m: &Matrix, row: usize, col: usize) -> (s: Matrix)
    requires
        m.square(),
        m@.len() >= 2,
        row < m@.len(),
        col < m@.len(),
    ensures
        s@ == submatrix_of(m@, row as int, col as int),
        s.square(),
        s@.len() == m@.len() - 1,
{
    let s = m.copy().remove_row(row).remove_column(col);
    assert(s@ =~~= submatrix_of(m@, row as int, col as int));
    s
}

/// The minor at `(row, col)`, where it can be taken within 64 bits.
pub fn checked_minor(m: &Matrix, row: usize, col: usize) -> (res: Option<i64>)
    requires
        m.square(),
        m@.len() >= 2,
        row < m@.len(),
        col < m@.len(),
    ensures
        res is Some <==> minor_fits(m@, row as int, col as int),
        res matches Some(d) ==> d == minor_of(m@, row as int, col as int),
    decreases m@.len(), 0nat,
{
    let sub = submatrix(m, row, col);
    checked_determinant(&sub)
}

/// The cofactor at `(row, col)`, where it can be taken within 64 bits.
pub fn checked_cofactor(m: &Matrix, row: usize, col: usize) -> (res: Option<i64>)
    requires
        m.square(),
        m@.len() >= 2,
        row < m@.len(),
        col < m@.len(),
    ensures
        res is Some <==> cofactor_fits(m@, row as int, col as int),
        res matches Some(d) ==> d == cofactor_of(m@, row as int, col as int),
    decreases m@.len(), 1nat,
{
    let is_odd = (row % 2) != (col % 2);
    match checked_minor(m, row, col) {
        None => None,
        Some(d) => {
            if !is_odd {
                Some(d)
            } else if d == i64::MIN {
                None
            } else {
                Some(-d)
            }
        },
    }
}

/// The determinant of a square matrix, where it can be taken within 64
/// bits.
pub fn checked_determinant(m: &Matrix) -> (res: Option<i64>)
    requires
        m.square(),
    ensures
        res is Some <==> expansion_fits(m@),
        res matches Some(d) ==> d == det(m@),
    decreases m@.len(), 2nat,
{
    let n = m.nrows();
    assert(is_square(m@));
    if n == 0 {
        return Some(1);
    }
    if n == 1 {
        return Some(m.get(0, 0));
    }
    if n == 2 {
        let a = m.get(0, 0);
        let b = m.get(0, 1);
        let c = m.get(1, 0);
        let e = m.get(1, 1);
        proof {
            lemma_det_of_two_rows(m@);
            lemma_wide_product(a, e);
            lemma_wide_product(b, c);
        }
        let difference: i128 = (a as i128) * (e as i128) - (b as i128) * (c as i128);
        if within_64_bits(difference) {
            return Some(difference as i64);
        }
        return None;
    }
    let mut sum: i64 = 0;
    let mut col: usize = 0;
    while col < n
        invariant
            m.square(),
            is_square(m@),
            n == m@.len(),
            n >= 3,
            col <= n,
            sum == expansion(m@, 0, col as int),
            terms_fit(m@, col as int),
        decreases n - col,
    {
        let entry = m.get(0, col);
        let cof = match checked_cofactor(m, 0, col) {
            Some(cof) => cof,
            None => {
                proof {
                    if expansion_fits(m@) {
                        lemma_fewer_terms_fit(m@, col + 1, n as int);
                        assert(term_fits(m@, col as int));
                        assert(cofactor_fits(m@, 0, col as int));
                    }
                }
                return None;
            },
        };
        proof {
            lemma_wide_product(entry, cof);
        }
        let total: i128 = (sum as i128) + (entry as i128) * (cof as i128);
        if !within_64_bits(total) {
            proof {
                if expansion_fits(m@) {
                    lemma_fewer_terms_fit(m@, col + 1, n as int);
                    assert(term_fits(m@, col as int));
                }
            }
            return None;
        }
        proof {
            assert(cofactor_fits(m@, 0, col as int));
            assert(total == expansion(m@, 0, col + 1));
            assert(term_fits(m@, col as int));
        }
        sum = total as i64;
        col = col + 1;
    }
    Some(sum)
}

/// Whether a wide integer is a 64-bit value.
fn within_64_bits(v: i128) -> (b: bool)
    ensures
        b == fits(v as int),
{
    -0x8000_0000_0000_0000 <= v && v <= 0x7fff_ffff_ffff_ffff
}

/// Whether a matrix is square and its determinant can be taken within 64
/// bits.
pub fn can_expand(m: &Matrix) -> (ok: bool)
    ensures
        ok == (m.square() && expansion_fits(m@)),
{
    m.is_square() && checked_determinant(m).is_some()
}

/// The determinant of the matrix without row `row` and column `col`.
pub fn minor(m: &Matrix, row: usize, col: usize) -> (d: i64)
    requires
        m.square(),
        m@.len() >= 2,
        row < m@.len(),
        col < m@.len(),
        minor_fits(m@, row as int, col as int),
    ensures
        d == minor_of(m@, row as int, col as int),
{
    checked_minor(m, row, col).unwrap()
}

/// The minor at `(row, col)`, negated where `row + col` is odd.
pub fn cofactor(m: &Matrix, row: usize, col: usize) -> (d: i64)
    requires
        m.square(),
        m@.len() >= 2,
        row < m@.len(),
        col < m@.len(),
        cofactor_fits(m@, row as int, col as int),
    ensures
        d == cofactor_of(m@, row as int, col as int),
        (row + col) % 2 == 0 ==> d == minor_of(m@, row as int, col as int),
        (row + col) % 2 == 1 ==> d == -minor_of(m@, row as int, col as int),
{
    checked_cofactor(m, row, col).unwrap()
}

/// The determinant of a square matrix: `a * d - b * c` for the two rows
/// `a b` and `c d`, and for more rows the sum over the first row of each
/// entry times its cofactor.
pub fn determinant(m: &Matrix) -> (d: i64)
    requires
        m.square(),
        expansion_fits(m@),
    ensures
        d == det(m@),
        m@.len() == 2 ==> d == m@[0][0] * m@[1][1] - m@[0][1] * m@[1][0],
{
    proof {
        if m@.len() == 2 {
            lemma_det_of_two_rows(m@);
        }
    }
    checked_determinant(m).unwrap()
}

} // verus!
