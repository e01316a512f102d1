//! Dense matrices of 64-bit integers.
//!
//! The entries are stored by nalgebra. What a matrix holds is seen through
//! its view: the sequence of its rows, top to bottom, each row the sequence
//! of its entries, left to right.

use nalgebra::DMatrix;
use vstd::prelude::*;

verus! {

/// A matrix of 64-bit integers with any number of rows and columns.
#[verifier::external_body]
#[derive(Debug, PartialEq, Eq)]
pub struct Matrix {
    cells: DMatrix<i64>,
}

/// The rows of a matrix, top to bottom, each with its entries from left to
/// right.
pub uninterp spec fn matrix_cells(m: Matrix) -> Seq<Seq<int>>;

/// The number of columns of a matrix.
pub uninterp spec fn matrix_width(m: Matrix) -> nat;

impl View for Matrix {
    type V = Seq<Seq<int>>;

    /// The rows of the matrix, each cut to the number of its columns.
    open spec fn view(&self) -> Seq<Seq<int>> {
        Seq::new(
            matrix_cells(*self).len(),
            |r: int| Seq::new(matrix_width(*self), |c: int| matrix_cells(*self)[r][c]),
        )
    }
}

/// `rows` rows of `cols` entries each.
pub open spec fn has_shape(m: Seq<Seq<int>>, rows: nat, cols: nat) -> bool {
    &&& m.len() == rows
    &&& forall|r: int| 0 <= r < rows ==> (#[trigger] m[r]).len() == cols
}

/// As many columns as rows.
pub open spec fn is_square(m: Seq<Seq<int>>) -> bool {
    has_shape(m, m.len(), m.len())
}

/// The matrix that a slice spells out row by row.
pub open spec fn from_rows(rows: nat, cols: nat, data: Seq<i64>) -> Seq<Seq<int>> {
    Seq::new(rows, |r: int| Seq::new(cols, |c: int| data[r * cols + c] as int))
}

/// The identity matrix of a given size.
pub open spec fn identity_of(n: nat) -> Seq<Seq<int>> {
    Seq::new(
        n,
        |r: int|
            Seq::new(
                n,
                |c: int|
                    if r == c {
                        1int
                    } else {
                        0int
                    },
            ),
    )
}

/// The matrix with rows and columns exchanged.
pub open spec fn transpose_of(m: Seq<Seq<int>>, cols: nat) -> Seq<Seq<int>> {
    Seq::new(cols, |r: int| Seq::new(m.len(), |c: int| m[c][r]))
}

/// `DMatrix::from_row_slice` fills a matrix of the given shape with the
/// entries of a slice, taken row by row. It panics unless the slice holds
/// exactly `nrows * ncols` entries.
#[verifier::external_body]
fn filled_by_rows(nrows: usize, ncols: usize, data: &[i64]) -> (m: Matrix)
    requires
        data@.len() == nrows * ncols,
    ensures
        matrix_cells(m).len() == nrows,
        matrix_width(m) == ncols,
        forall|r: int, c: int|
            0 <= r < nrows && 0 <= c < ncols ==> #[trigger] matrix_cells(m)[r][c] == data@[r
                * ncols + c],
{
    Matrix { cells: DMatrix::from_row_slice(nrows, ncols, data) }
}

/// `Matrix::nrows` is the number of rows.
#[verifier::external_body]
fn row_count(m: &Matrix) -> (n: usize)
    ensures
        n == matrix_cells(*m).len(),
{
    m.cells.nrows()
}

/// `Matrix::ncols` is the number of columns.
#[verifier::external_body]
fn column_count(m: &Matrix) -> (n: usize)
    ensures
        n == matrix_width(*m),
{
    m.cells.ncols()
}

/// Indexing by a pair reads the entry in row `r` and column `c`. It panics
/// outside the shape.
#[verifier::external_body]
fn cell(m: &Matrix, r: usize, c: usize) -> (v: i64)
    requires
        r < matrix_cells(*m).len(),
        c < matrix_width(*m),
    ensures
        v == matrix_cells(*m)[r as int][c as int],
{
    m.cells[(r, c)]
}

/// Assigning through a pair of indices overwrites the entry in row `r` and
/// column `c` and nothing else. It panics outside the shape.
#[verifier::external_body]
fn set_cell(m: &mut Matrix, r: usize, c: usize, v: i64)
    requires
        r < matrix_cells(*old(m)).len(),
        c < matrix_width(*old(m)),
    ensures
        matrix_cells(*final(m)).len() == matrix_cells(*old(m)).len(),
        matrix_width(*final(m)) == matrix_width(*old(m)),
        forall|i: int, j: int|
            0 <= i < matrix_cells(*old(m)).len() && 0 <= j < matrix_width(*old(m))
                ==> #[trigger] matrix_cells(*final(m))[i][j] == if i == r && j == c {
                v as int
            } else {
                matrix_cells(*old(m))[i][j]
            },
{
    m.cells[(r, c)] = v;
}

/// `DMatrix::identity` has ones on the diagonal and zeros elsewhere.
#[verifier::external_body]
fn unit(n: usize) -> (m: Matrix)
    requires
        n * n <= usize::MAX,
    ensures
        matrix_cells(m).len() == n,
        matrix_width(m) == n,
        forall|r: int, c: int|
            0 <= r < n && 0 <= c < n ==> #[trigger] matrix_cells(m)[r][c] == if r == c {
                1int
            } else {
                0int
            },
{
    Matrix { cells: DMatrix::identity(n, n) }
}

/// `Matrix::remove_rows` with a count of one drops row `i` and moves the rows
/// below it up. It panics unless `i` is a row of the matrix.
#[verifier::external_body]
fn without_row(m: Matrix, i: usize) -> (res: Matrix)
    requires
        i < matrix_cells(m).len(),
    ensures
        matrix_cells(res).len() == matrix_cells(m).len() - 1,
        matrix_width(res) == matrix_width(m),
        forall|r: int, c: int|
            0 <= r < matrix_cells(m).len() - 1 && 0 <= c < matrix_width(m)
                ==> #[trigger] matrix_cells(res)[r][c] == matrix_cells(m)[if r < i {
                r
            } else {
                r + 1
            }][c],
{
    Matrix { cells: m.cells.remove_rows(i, 1) }
}

/// `Matrix::remove_columns` with a count of one drops column `j` and moves
/// the columns right of it to the left. It panics unless `j` is a column of
/// the matrix.
#[verifier::external_body]
fn without_column(m: Matrix, j: usize) -> (res: Matrix)
    requires
        j < matrix_width(m),
    ensures
        matrix_cells(res).len() == matrix_cells(m).len(),
        matrix_width(res) == matrix_width(m) - 1,
        forall|r: int, c: int|
            0 <= r < matrix_cells(m).len() && 0 <= c < matrix_width(m) - 1
                ==> #[trigger] matrix_cells(res)[r][c] == matrix_cells(m)[r][if c < j {
                c
            } else {
                c + 1
            }],
{
    Matrix { cells: m.cells.remove_columns(j, 1) }
}

/// `Clone::clone` of a matrix copies its shape and its entries.
#[verifier::external_body]
fn duplicate(m: &Matrix) -> (res: Matrix)
    ensures
        matrix_cells(res) == matrix_cells(*m),
        matrix_width(res) == matrix_width(*m),
{
    Matrix { cells: m.cells.clone() }
}

/// `Matrix::transpose` exchanges rows and columns.
#[verifier::external_body]
fn flipped(m: &Matrix) -> (res: Matrix)
    ensures
        matrix_cells(res).len() == matrix_width(*m),
        matrix_width(res) == matrix_cells(*m).len(),
        forall|r: int, c: int|
            0 <= r < matrix_width(*m) && 0 <= c < matrix_cells(*m).len()
                ==> #[trigger] matrix_cells(res)[r][c] == matrix_cells(*m)[c][r],
{
    Matrix { cells: m.cells.transpose() }
}

impl Matrix {
    /// The matrix has as many columns as rows.
    pub open spec fn square(&self) -> bool {
        matrix_width(*self) == self@.len()
    }

    /// The matrix of the given shape whose entries are those of `data`, taken
    /// row by row.
    pub fn from_row_slice(nrows: usize, ncols: usize, data: &[i64]) -> (m: Matrix)
        requires
            data@.len() == nrows * ncols,
        ensures
            m@ == from_rows(nrows as nat, ncols as nat, data@),
            has_shape(m@, nrows as nat, ncols as nat),
            matrix_width(m) == ncols,
    {
        let m = filled_by_rows(nrows, ncols, data);
        assert(m@ =~~= from_rows(nrows as nat, ncols as nat, data@));
        m
    }

    /// The identity matrix with `n` rows and columns.
    pub fn identity(n: usize) -> (m: Matrix)
        requires
            n * n <= usize::MAX,
        ensures
            m@ == identity_of(n as nat),
            is_square(m@),
            m.square(),
    {
        let m = unit(n);
        assert(m@ =~~= identity_of(n as nat));
        m
    }

    /// The number of rows.
    pub fn nrows(&self) -> (n: usize)
        ensures
            n == self@.len(),
    {
        row_count(self)
    }

    /// The number of columns.
    pub fn ncols(&self) -> (n: usize)
        ensures
            n == matrix_width(*self),
            has_shape(self@, self@.len(), n as nat),
    {
        column_count(self)
    }

    /// Whether the matrix has as many columns as rows.
    pub fn is_square(&self) -> (b: bool)
        ensures
            b == (matrix_width(*self) == self@.len()),
            b ==> is_square(self@),
    {
        row_count(self) == column_count(self)
    }

    /// The entry in row `r` and column `c`.
    pub fn get(&self, r: usize, c: usize) -> (v: i64)
        requires
            r < self@.len(),
            c < self@[r as int].len(),
        ensures
            v == self@[r as int][c as int],
    {
        cell(self, r, c)
    }

    /// Overwrites the entry in row `r` and column `c`.
    pub fn set(&mut self, r: usize, c: usize, v: i64)
        requires
            r < old(self)@.len(),
            c < old(self)@[r as int].len(),
        ensures
            final(self)@ == old(self)@.update(
                r as int,
                old(self)@[r as int].update(c as int, v as int),
            ),
            matrix_width(*final(self)) == matrix_width(*old(self)),
    {
        set_cell(self, r, c, v);
        assert(self@ =~~= old(self)@.update(
            r as int,
            old(self)@[r as int].update(c as int, v as int),
        ));
    }

    /// The matrix with rows and columns exchanged.
    pub fn transpose(&self) -> (t: Matrix)
        ensures
            t@ == transpose_of(self@, matrix_width(*self)),
            matrix_width(t) == self@.len(),
    {
        let t = flipped(self);
        assert(t@ =~~= transpose_of(self@, matrix_width(*self)));
        t
    }

    /// A copy of the matrix.
    pub fn copy(&self) -> (m: Matrix)
        ensures
            m@ == self@,
            matrix_width(m) == matrix_width(*self),
    {
        duplicate(self)
    }

    /// The matrix without row `i`.
    pub fn remove_row(self, i: usize) -> (res: Matrix)
        requires
            i < self@.len(),
        ensures
            res@ == self@.remove(i as int),
            matrix_width(res) == matrix_width(self),
    {
        let ghost before = self@;
        let res = without_row(self, i);
        assert(res@ =~~= before.remove(i as int));
        res
    }

    /// The matrix without column `j`.
    pub fn remove_column(self, j: usize) -> (res: Matrix)
        requires
            j < matrix_width(self),
        ensures
            res@ == Seq::new(self@.len(), |r: int| self@[r].remove(j as int)),
            matrix_width(res) == matrix_width(self) - 1,
    {
        let ghost before = self@;
        let res = without_column(self, j);
        assert(res@ =~~= Seq::new(before.len(), |r: int| before[r].remove(j as int)));
        res
    }
}

} // verus!
