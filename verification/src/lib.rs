//! An exact-arithmetic kernel for a ray tracer.
//!
//! Two parts that do not depend on each other:
//!
//! - a canvas of colours with an encoder that writes it as the text of a
//!   plain pixmap, wrapped at seventy characters;
//! - matrices of 64-bit integers with submatrices, minors, cofactors,
//!   determinants by cofactor expansion, inverses by way of the adjugate,
//!   and the builders of the affine transforms.
//!
//! Integers are computed with exactly: a function asks of its arguments that
//! its results fit in 64 bits, and beside it stands a function that tests
//! this. A colour channel is a binary64 number held as its bit pattern, and
//! it is read only to find the byte that an image stores for it.

pub mod canvas;
pub mod channel;
pub mod color;
pub mod determinant;
pub mod inverse;
pub mod laplace;
pub mod matrix;
pub mod ppm;
pub mod product;
pub mod sums;
pub mod transform;
pub mod transpose;
pub mod tuple;

pub use crate::canvas::{canvas, pixel_at, write_pixel, Canvas};
pub use crate::channel::byte_clamp;
pub use crate::color::{color, Color};
pub use crate::determinant::{
    can_expand, checked_cofactor, checked_determinant, checked_minor, cofactor, determinant, minor,
    submatrix,
};
pub use crate::inverse::{adjugate, can_invert, inverse, is_invertible, Inverse, MatrixError};
pub use crate::matrix::Matrix;
pub use crate::ppm::canvas_to_ppm;
pub use crate::product::{can_multiply, multiply};
pub use crate::transform::{
    apply, rotation_x, rotation_y, rotation_z, scaling, shearing, translation, try_apply,
};
pub use crate::tuple::{cross, dot, Tuple};
