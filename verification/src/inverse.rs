//! Inverses by way of the adjugate.
//!
//! The inverse of a matrix with a determinant other than zero is its
//! adjugate divided by its determinant. The adjugate holds at `(col, row)`
//! the cofactor at `(row, col)`. Entries stay exact: an inverse is given as
//! the matrix of numerators and the one denominator that they share.

use crate::determinant::{
    checked_cofactor, checked_determinant, cofactor, cofactor_fits, cofactor_of, det, determinant,
    expansion_fits,
};
use crate::matrix::{is_square, matrix_width, Matrix};
use crate::product::{lemma_adjugate_times, lemma_times_adjugate, product_of, scaled_identity};
use vstd::prelude::*;

verus! {

/// Why a matrix operation gave no result.
#[derive(Clone, Copy, Debug, PartialEq, Eq, Structural)]
pub enum MatrixError {
    /// The determinant is zero, so there is no inverse.
    NotInvertible,
}

/// The inverse of a matrix: its entry at `(r, c)` is the fraction
/// `numerators[r][c] / denominator`.
#[derive(Debug, PartialEq, Eq)]
pub struct Inverse {
    pub numerators: Matrix,
    pub denominator: i64,
}

/// The transposed matrix of cofactors.
pub open spec fn adjugate_of(m: Seq<Seq<int>>) -> Seq<Seq<int>> {
    Seq::new(m.len(), |r: int| Seq::new(m.len(), |c: int| cofactor_of(m, c, r)))
}

/// Every cofactor of a matrix of two or more rows can be taken within 64
/// bits.
pub open spec fn cofactors_fit(m: Seq<Seq<int>>) -> bool {
    m.len() >= 2 ==> forall|r: int, c: int|
        0 <= r < m.len() && 0 <= c < m.len() ==> #[trigger] cofactor_fits(m, r, c)
}

/// Whether a square matrix has an inverse: its determinant is not zero.
pub fn is_invertible(m: &Matrix) -> (b: bool)
    requires
        m.square(),
        expansion_fits(m@),
    ensures
        b == (det(m@) != 0),
{
    determinant(m) != 0
}

/// The adjugate of a square matrix.
pub fn adjugate(m: &Matrix) -> (adj: Matrix)
    requires
        m.square(),
        cofactors_fit(m@),
    ensures
        adj@ == adjugate_of(m@),
        adj.square(),
{
    let n = m.nrows();
    let mut adj = m.copy();
    if n == 1 {
        adj.set(0, 0, 1);
        proof {
            assert(crate::determinant::submatrix_of(m@, 0, 0).len() == 0);
            assert(cofactor_of(m@, 0, 0) == 1);
            assert(adj@ =~~= adjugate_of(m@));
        }
        return adj;
    }
    let mut row: usize = 0;
    while row < n
        invariant
            n == m@.len(),
            n != 1,
            m.square(),
            is_square(m@),
            cofactors_fit(m@),
            adj@.len() == n,
            matrix_width(adj) == n,
            row <= n,
            forall|r: int, c: int|
                0 <= r < row && 0 <= c < n ==> #[trigger] adj@[c][r] == cofactor_of(m@, r, c),
        decreases n - row,
    {
        let mut col: usize = 0;
        while col < n
            invariant
                n == m@.len(),
                n >= 2,
                m.square(),
                is_square(m@),
                cofactors_fit(m@),
                adj@.len() == n,
                matrix_width(adj) == n,
                row < n,
                col <= n,
                forall|r: int, c: int|
                    0 <= r < row && 0 <= c < n ==> #[trigger] adj@[c][r] == cofactor_of(m@, r, c),
                forall|c: int|
                    0 <= c < col ==> #[trigger] adj@[c][row as int] == cofactor_of(
                        m@,
                        row as int,
                        c,
                    ),
            decreases n - col,
        {
            assert(cofactor_fits(m@, row as int, col as int));
            let value = cofactor(m, row, col);
            adj.set(col, row, value);
            col = col + 1;
        }
        row = row + 1;
    }
    assert(adj@ =~~= adjugate_of(m@));
    adj
}

/// The inverse of a square matrix, or the error that it has none. The entry
/// of the inverse at `(col, row)` is the cofactor at `(row, col)` over the
/// determinant.
pub fn inverse(m: &Matrix) -> (res: Result<Inverse, MatrixError>)
    requires
        m.square(),
        expansion_fits(m@),
        cofactors_fit(m@),
    ensures
        det(m@) == 0 <==> res == Err::<Inverse, MatrixError>(MatrixError::NotInvertible),
        det(m@) != 0 <==> res is Ok,
        res matches Ok(inv) ==> inv.denominator == det(m@) && inv.numerators@ == adjugate_of(m@)
            && inv.numerators.square(),
        res matches Ok(inv) ==> product_of(m@, inv.numerators@, m@.len()) == scaled_identity(
            m@.len(),
            inv.denominator as int,
        ) && product_of(inv.numerators@, m@, m@.len()) == scaled_identity(
            m@.len(),
            inv.denominator as int,
        ),
{
    let d = determinant(m);
    if d == 0 {
        return Err(MatrixError::NotInvertible);
    }
    proof {
        lemma_times_adjugate(m@);
        lemma_adjugate_times(m@);
    }
    Ok(Inverse { numerators: adjugate(m), denominator: d })
}

/// Whether a matrix is square and its determinant and all its cofactors can
/// be taken within 64 bits, so that its inverse can be taken.
pub fn can_invert(m: &Matrix) -> (ok: bool)
    ensures
        ok == (m.square() && expansion_fits(m@) && cofactors_fit(m@)),
{
    if !m.is_square() {
        return false;
    }
    if checked_determinant(m).is_none() {
        return false;
    }
    let n = m.nrows();
    if n < 2 {
        return true;
    }
    let mut row: usize = 0;
    while row < n
        invariant
            n == m@.len(),
            n >= 2,
            m.square(),
            row <= n,
            forall|r: int, c: int|
                0 <= r < row && 0 <= c < n ==> #[trigger] cofactor_fits(m@, r, c),
        decreases n - row,
    {
        let mut col: usize = 0;
        while col < n
            invariant
                n == m@.len(),
                n >= 2,
                m.square(),
                row < n,
                col <= n,
                forall|r: int, c: int|
                    0 <= r < row && 0 <= c < n ==> #[trigger] cofactor_fits(m@, r, c),
                forall|c: int| 0 <= c < col ==> #[trigger] cofactor_fits(m@, row as int, c),
            decreases n - col,
        {
            if checked_cofactor(m, row, col).is_none() {
                assert(!cofactor_fits(m@, row as int, col as int));
                return false;
            }
            col = col + 1;
        }
        row = row + 1;
    }
    true
}

} // verus!
