//! Affine transforms as matrices of four rows, and their application to
//! points and vectors.
//!
//! Each builder starts from the identity and overwrites the entries that the
//! transform is made of. A rotation is built from the cosine and the sine of
//! its angle.

use crate::matrix::{has_shape, Matrix};
use crate::tuple::{fits, lemma_wide_product, Tuple};
use vstd::prelude::*;

verus! {

/// The matrix that moves a point by `(x, y, z)`.
pub open spec fn translation_of(x: int, y: int, z: int) -> Seq<Seq<int>> {
    seq![seq![1, 0, 0, x], seq![0, 1, 0, y], seq![0, 0, 1, z], seq![0, 0, 0, 1]]
}

/// The matrix that scales the three axes by `x`, `y` and `z`.
pub open spec fn scaling_of(x: int, y: int, z: int) -> Seq<Seq<int>> {
    seq![seq![x, 0, 0, 0], seq![0, y, 0, 0], seq![0, 0, z, 0], seq![0, 0, 0, 1]]
}

/// The rotation about the x axis by the angle with the given cosine and sine.
pub open spec fn rotation_x_of(cos: int, sin: int) -> Seq<Seq<int>> {
    seq![seq![1, 0, 0, 0], seq![0, cos, -sin, 0], seq![0, sin, cos, 0], seq![0, 0, 0, 1]]
}

/// The rotation about the y axis by the angle with the given cosine and sine.
/// The sine stands with the same sign in both of its places.
pub open spec fn rotation_y_of(cos: int, sin: int) -> Seq<Seq<int>> {
    seq![seq![cos, 0, sin, 0], seq![0, 1, 0, 0], seq![sin, 0, cos, 0], seq![0, 0, 0, 1]]
}

/// The rotation about the z axis by the angle with the given cosine and sine.
pub open spec fn rotation_z_of(cos: int, sin: int) -> Seq<Seq<int>> {
    seq![seq![cos, -sin, 0, 0], seq![sin, cos, 0, 0], seq![0, 0, 1, 0], seq![0, 0, 0, 1]]
}

/// The shear that moves each coordinate in proportion to the other two.
pub open spec fn shearing_of(xy: int, xz: int, yx: int, yz: int, zx: int, zy: int) -> Seq<
    Seq<int>,
> {
    seq![seq![1, xy, xz, 0], seq![yx, 1, yz, 0], seq![zx, zy, 1, 0], seq![0, 0, 0, 1]]
}

/// The identity with `[0][3] = x`, `[1][3] = y` and `[2][3] = z`.
pub fn translation(x: i64, y: i64, z: i64) -> (m: Matrix)
    ensures
        m@ == translation_of(x as int, y as int, z as int),
        m.square(),
{
    let mut m = Matrix::identity(4);
    m.set(0, 3, x);
    m.set(1, 3, y);
    m.set(2, 3, z);
    assert(m@ =~~= translation_of(x as int, y as int, z as int));
    m
}

/// The identity with the diagonal entries `[0][0] = x`, `[1][1] = y` and
/// `[2][2] = z`.
pub fn scaling(x: i64, y: i64, z: i64) -> (m: Matrix)
    ensures
        m@ == scaling_of(x as int, y as int, z as int),
        m.square(),
{
    let mut m = Matrix::identity(4);
    m.set(0, 0, x);
    m.set(1, 1, y);
    m.set(2, 2, z);
    assert(m@ =~~= scaling_of(x as int, y as int, z as int));
    m
}

/// The identity with `[1][1] = cos`, `[1][2] = -sin`, `[2][1] = sin` and
/// `[2][2] = cos`.
pub fn rotation_x(cos: i64, sin: i64) -> (m: Matrix)
    requires
        sin > i64::MIN,
    ensures
        m@ == rotation_x_of(cos as int, sin as int),
        m.square(),
{
    let mut m = Matrix::identity(4);
    m.set(1, 1, cos);
    m.set(1, 2, -sin);
    m.set(2, 2, cos);
    m.set(2, 1, sin);
    assert(m@ =~~= rotation_x_of(cos as int, sin as int));
    m
}

/// The identity with `[0][0] = cos`, `[2][0] = sin`, `[0][2] = sin` and
/// `[2][2] = cos`.
pub fn rotation_y(cos: i64, sin: i64) -> (m: Matrix)
    ensures
        m@ == rotation_y_of(cos as int, sin as int),
        m.square(),
{
    let mut m = Matrix::identity(4);
    m.set(0, 0, cos);
    m.set(2, 0, sin);
    m.set(0, 2, sin);
    m.set(2, 2, cos);
    assert(m@ =~~= rotation_y_of(cos as int, sin as int));
    m
}

/// The identity with `[0][0] = cos`, `[0][1] = -sin`, `[1][0] = sin` and
/// `[1][1] = cos`.
pub fn rotation_z(cos: i64, sin: i64) -> (m: Matrix)
    requires
        sin > i64::MIN,
    ensures
        m@ == rotation_z_of(cos as int, sin as int),
        m.square(),
{
    let mut m = Matrix::identity(4);
    m.set(0, 0, cos);
    m.set(0, 1, -sin);
    m.set(1, 0, sin);
    m.set(1, 1, cos);
    assert(m@ =~~= rotation_z_of(cos as int, sin as int));
    m
}

/// The identity with the six entries off the diagonal of its upper three
/// rows and columns set: `[0][1] = xy`, `[0][2] = xz`, `[1][0] = yx`,
/// `[1][2] = yz`, `[2][0] = zx` and `[2][1] = zy`.
pub fn shearing(xy: i64, xz: i64, yx: i64, yz: i64, zx: i64, zy: i64) -> (m: Matrix)
    ensures
        m@ == shearing_of(xy as int, xz as int, yx as int, yz as int, zx as int, zy as int),
        m.square(),
{
    let mut m = Matrix::identity(4);
    m.set(0, 1, xy);
    m.set(0, 2, xz);
    m.set(1, 0, yx);
    m.set(1, 2, yz);
    m.set(2, 0, zx);
    m.set(2, 1, zy);
    assert(m@ =~~= shearing_of(
        xy as int,
        xz as int,
        yx as int,
        yz as int,
        zx as int,
        zy as int,
    ));
    m
}

/// One row of a matrix times a tuple.
pub open spec fn row_dot(row: Seq<int>, t: Tuple) -> int {
    row[0] * t.x + row[1] * t.y + row[2] * t.z + row[3] * t.w
}

/// Every coordinate of the product of a matrix and a tuple is a 64-bit value.
pub open spec fn apply_fits(m: Seq<Seq<int>>, t: Tuple) -> bool {
    fits(row_dot(m[0], t)) && fits(row_dot(m[1], t)) && fits(row_dot(m[2], t)) && fits(
        row_dot(m[3], t),
    )
}

/// Row `r` of a matrix of four columns times a tuple, where it is a 64-bit
/// value.
fn checked_row_times(m: &Matrix, r: usize, t: Tuple) -> (v: Option<i64>)
    requires
        has_shape(m@, 4, 4),
        r < 4,
    ensures
        fits(row_dot(m@[r as int], t)) <==> v is Some,
        v matches Some(value) ==> value == row_dot(m@[r as int], t),
{
    let a = m.get(r, 0);
    let b = m.get(r, 1);
    let c = m.get(r, 2);
    let d = m.get(r, 3);
    proof {
        lemma_wide_product(a, t.x);
        lemma_wide_product(b, t.y);
        lemma_wide_product(c, t.z);
        lemma_wide_product(d, t.w);
    }
    let first: i128 = (a as i128) * (t.x as i128);
    let second: i128 = (b as i128) * (t.y as i128);
    let third: i128 = (c as i128) * (t.z as i128);
    let fourth: i128 = (d as i128) * (t.w as i128);
    let top: i128 = 0x4000_0000_0000_0000_0000_0000_0000_0000;
    if (first == top && second == top) || (third == top && fourth == top) {
        return None;
    }
    let front: i128 = first + second;
    let back: i128 = third + fourth;
    let highest: i128 = 0x7fff_ffff_ffff_ffff;
    let lowest: i128 = -0x8000_0000_0000_0000;
    if front >= 0 && back >= 0 && (front > highest || back > highest) {
        return None;
    }
    if front < 0 && back < 0 && (front < lowest || back < lowest) {
        return None;
    }
    let total: i128 = front + back;
    if total < lowest || total > highest {
        return None;
    }
    Some(total as i64)
}

/// Applies a transform to a point or a vector: the product of the matrix and
/// the tuple taken as a column.
pub fn apply(m: &Matrix, t: Tuple) -> (res: Tuple)
    requires
        has_shape(m@, 4, 4),
        apply_fits(m@, t),
    ensures
        res.x == row_dot(m@[0], t),
        res.y == row_dot(m@[1], t),
        res.z == row_dot(m@[2], t),
        res.w == row_dot(m@[3], t),
{
    Tuple {
        x: checked_row_times(m, 0, t).unwrap(),
        y: checked_row_times(m, 1, t).unwrap(),
        z: checked_row_times(m, 2, t).unwrap(),
        w: checked_row_times(m, 3, t).unwrap(),
    }
}

/// Applies a transform to a point or a vector where the matrix has four rows
/// and four columns and every coordinate of the product is a 64-bit value.
pub fn try_apply(m: &Matrix, t: Tuple) -> (res: Option<Tuple>)
    ensures
        has_shape(m@, 4, 4) && apply_fits(m@, t) <==> res is Some,
        res matches Some(p) ==> p.x == row_dot(m@[0], t) && p.y == row_dot(m@[1], t) && p.z
            == row_dot(m@[2], t) && p.w == row_dot(m@[3], t),
{
    if m.nrows() != 4 || m.ncols() != 4 {
        proof {
            if has_shape(m@, 4, 4) {
                assert(m@[0].len() == 4);
            }
        }
        return None;
    }
    let x = checked_row_times(m, 0, t);
    let y = checked_row_times(m, 1, t);
    let z = checked_row_times(m, 2, t);
    let w = checked_row_times(m, 3, t);
    match (x, y, z, w) {
        (Some(x), Some(y), Some(z), Some(w)) => Some(Tuple { x, y, z, w }),
        _ => None,
    }
}

/// A row of four entries times a tuple, entry by entry.
proof fn lemma_row_dot(row: Seq<int>, a: int, b: int, c: int, d: int, t: Tuple)
    requires
        row == seq![a, b, c, d],
    ensures
        row_dot(row, t) == a * t.x + b * t.y + c * t.z + d * t.w,
{
}

/// A translation moves a point by its three offsets and leaves a vector as
/// it is.
pub proof fn lemma_translation_applied(x: int, y: int, z: int, t: Tuple)
    ensures
        t.w == 1 ==> row_dot(translation_of(x, y, z)[0], t) == t.x + x && row_dot(
            translation_of(x, y, z)[1],
            t,
        ) == t.y + y && row_dot(translation_of(x, y, z)[2], t) == t.z + z && row_dot(
            translation_of(x, y, z)[3],
            t,
        ) == 1,
        t.w == 0 ==> row_dot(translation_of(x, y, z)[0], t) == t.x && row_dot(
            translation_of(x, y, z)[1],
            t,
        ) == t.y && row_dot(translation_of(x, y, z)[2], t) == t.z && row_dot(
            translation_of(x, y, z)[3],
            t,
        ) == 0,
{
    let m = translation_of(x, y, z);
    lemma_row_dot(m[0], 1, 0, 0, x, t);
    lemma_row_dot(m[1], 0, 1, 0, y, t);
    lemma_row_dot(m[2], 0, 0, 1, z, t);
    lemma_row_dot(m[3], 0, 0, 0, 1, t);
    assert(t.w == 1 ==> x * t.w == x && y * t.w == y && z * t.w == z) by (nonlinear_arith);
    assert(t.w == 0 ==> x * t.w == 0 && y * t.w == 0 && z * t.w == 0) by (nonlinear_arith);
}

/// A scaling multiplies each of the three coordinates by its factor and
/// keeps the last one.
pub proof fn lemma_scaling_applied(x: int, y: int, z: int, t: Tuple)
    ensures
        row_dot(scaling_of(x, y, z)[0], t) == x * t.x,
        row_dot(scaling_of(x, y, z)[1], t) == y * t.y,
        row_dot(scaling_of(x, y, z)[2], t) == z * t.z,
        row_dot(scaling_of(x, y, z)[3], t) == t.w,
{
    let m = scaling_of(x, y, z);
    lemma_row_dot(m[0], x, 0, 0, 0, t);
    lemma_row_dot(m[1], 0, y, 0, 0, t);
    lemma_row_dot(m[2], 0, 0, z, 0, t);
    lemma_row_dot(m[3], 0, 0, 0, 1, t);
}

} // verus!
