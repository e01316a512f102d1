use ray_kernel::determinant::{
    can_expand, checked_cofactor, checked_determinant, checked_minor, cofactor, determinant, minor,
    submatrix,
};
use ray_kernel::inverse::{adjugate, can_invert, inverse, is_invertible, MatrixError};
use ray_kernel::matrix::Matrix;
use ray_kernel::product::{can_multiply, multiply};

#[test]
fn test_constructing_2dmatrix() {
    let m = Matrix::from_row_slice(2, 2, &[-3, 5, 1, -2]);
    assert_eq!(m.get(0, 0), -3);
    assert_eq!(m.get(0, 1), 5);
    assert_eq!(m.get(1, 0), 1);
    assert_eq!(m.get(1, 1), -2);
}

#[test]
fn test_transpose() {
    let a = Matrix::from_row_slice(4, 4, &[0, 9, 3, 0, 9, 8, 0, 8, 1, 8, 5, 3, 0, 0, 5, 8]);
    let t = a.transpose();
    assert_eq!(
        t,
        Matrix::from_row_slice(4, 4, &[0, 9, 1, 0, 9, 8, 8, 0, 3, 0, 5, 5, 0, 8, 3, 8])
    );
}

#[test]
fn test_id_transpose() {
    let id = Matrix::identity(4);
    assert_eq!(id.copy(), id.transpose());
}

#[test]
fn test_determinant() {
    let a = Matrix::from_row_slice(2, 2, &[1, 5, -3, 2]);
    assert!(can_expand(&a));
    assert_eq!(determinant(&a), 17);
}

#[test]
fn test_submatrix() {
    let a = Matrix::from_row_slice(3, 3, &[1, 5, 0, -3, 2, 7, 0, 6, -3]);
    assert_eq!(
        submatrix(&a, 0, 2),
        Matrix::from_row_slice(2, 2, &[-3, 2, 0, 6])
    );
}

#[test]
fn test_submatrix_2() {
    let a = Matrix::from_row_slice(
        4,
        4,
        &[-6, 1, 1, 6, -8, 5, 8, 6, -1, 0, 8, 2, -7, 1, -1, 1],
    );
    assert_eq!(
        submatrix(&a, 2, 1),
        Matrix::from_row_slice(3, 3, &[-6, 1, 6, -8, 8, 6, -7, -1, 1])
    );
}

#[test]
fn test_minor() {
    let a = Matrix::from_row_slice(3, 3, &[3, 5, 0, 2, -1, -7, 6, -1, 5]);
    assert!(can_expand(&a));
    let b = submatrix(&a, 1, 0);
    assert_eq!(determinant(&b), 25);
    assert_eq!(minor(&a, 1, 0), 25);
}

#[test]
fn test_cofactor() {
    let a = Matrix::from_row_slice(3, 3, &[3, 5, 0, 2, -1, -7, 6, -1, 5]);
    assert!(can_expand(&a));
    assert_eq!(minor(&a, 0, 0), -12);
    assert_eq!(cofactor(&a, 0, 0), -12);
    assert_eq!(minor(&a, 1, 0), 25);
    assert_eq!(cofactor(&a, 1, 0), -25);
}

#[test]
fn test_cofactor_m3() {
    let a = Matrix::from_row_slice(3, 3, &[1, 2, 6, -5, 8, -4, 2, 6, 4]);
    assert!(can_expand(&a));
    assert_eq!(cofactor(&a, 0, 0), 56);
    assert_eq!(cofactor(&a, 0, 1), 12);
    assert_eq!(cofactor(&a, 0, 2), -46);
    assert_eq!(determinant(&a), -196);
}

#[test]
fn test_cofactor_m4() {
    let a = Matrix::from_row_slice(
        4,
        4,
        &[-2, -8, 3, 5, -3, 1, 7, 3, 1, 2, -9, 6, -6, 7, 7, -9],
    );
    assert!(can_expand(&a));
    assert_eq!(cofactor(&a, 0, 0), 690);
    assert_eq!(cofactor(&a, 0, 1), 447);
    assert_eq!(cofactor(&a, 0, 2), 210);
    assert_eq!(cofactor(&a, 0, 3), 51);
    assert_eq!(determinant(&a), -4071);
}

#[test]
fn test_invertible() {
    let a = Matrix::from_row_slice(
        4,
        4,
        &[6, 4, 4, 4, 5, 5, 7, 6, 4, -9, 3, -7, 9, 1, 7, -6],
    );
    assert!(can_expand(&a));
    assert_eq!(determinant(&a), -2120);
    assert_eq!(is_invertible(&a), true);
}

#[test]
fn test_not_invertible() {
    let a = Matrix::from_row_slice(
        4,
        4,
        &[-4, 2, -2, -3, 9, 6, 2, 6, 0, -5, 1, -5, 0, 0, 0, 0],
    );
    assert!(can_expand(&a));
    assert_eq!(determinant(&a), 0);
    assert_eq!(is_invertible(&a), false);
    assert!(can_invert(&a));
    assert_eq!(inverse(&a), Err(MatrixError::NotInvertible));
}

#[test]
fn test_not_inverse() {
    let a = Matrix::from_row_slice(
        4,
        4,
        &[-5, 2, 6, -8, 1, -5, 1, 8, 7, 7, -6, -7, 1, -3, 7, 4],
    );
    assert!(can_invert(&a));
    let b = inverse(&a).unwrap();
    assert_eq!(determinant(&a), 532);
    assert_eq!(b.denominator, 532);
    assert_eq!(cofactor(&a, 2, 3), -160);
    assert_eq!(b.numerators.get(3, 2), -160);
    assert_eq!(cofactor(&a, 3, 2), 105);
    assert_eq!(b.numerators.get(2, 3), 105);
    let want = [
        0.21804511278195488,
        0.45112781954887216,
        0.24060150375939848,
        -0.045112781954887216,
        -0.8082706766917293,
        -1.456766917293233,
        -0.44360902255639095,
        0.5206766917293233,
        -0.07894736842105263,
        -0.22368421052631576,
        -0.05263157894736842,
        0.19736842105263158,
        -0.5225563909774436,
        -0.8139097744360901,
        -0.3007518796992481,
        0.306390977443609,
    ];
    for r in 0..4 {
        for c in 0..4 {
            let got = b.numerators.get(r, c) as f64 / b.denominator as f64;
            assert!((got - want[r * 4 + c]).abs() <= 1e-12);
        }
    }
}

#[test]
fn test_inverting_id() {
    let id = Matrix::identity(4);
    assert!(can_invert(&id));
    let inv = inverse(&id).unwrap();
    assert_eq!(inv.denominator, 1);
    assert_eq!(inv.numerators, Matrix::identity(4));
}

#[test]
fn adjugate_swaps_row_and_column_of_each_cofactor() {
    let a = Matrix::from_row_slice(3, 3, &[1, 2, 6, -5, 8, -4, 2, 6, 4]);
    assert!(can_invert(&a));
    let adj = adjugate(&a);
    for r in 0..3 {
        for c in 0..3 {
            assert_eq!(adj.get(c, r), cofactor(&a, r, c));
        }
    }
    assert_ne!(adj, a.copy());
}

#[test]
fn determinant_of_small_matrices() {
    let empty = Matrix::from_row_slice(0, 0, &[]);
    assert!(can_expand(&empty));
    assert_eq!(determinant(&empty), 1);
    let single = Matrix::from_row_slice(1, 1, &[-7]);
    assert!(can_expand(&single));
    assert_eq!(determinant(&single), -7);
    assert!(can_invert(&single));
    let inv = inverse(&single).unwrap();
    assert_eq!(inv.denominator, -7);
    assert_eq!(inv.numerators, Matrix::from_row_slice(1, 1, &[1]));
}

#[test]
fn determinant_of_transpose_is_the_same() {
    let a = Matrix::from_row_slice(
        4,
        4,
        &[-2, -8, 3, 5, -3, 1, 7, 3, 1, 2, -9, 6, -6, 7, 7, -9],
    );
    let t = a.transpose();
    assert!(can_expand(&t));
    assert_eq!(determinant(&t), determinant(&a));
    assert_eq!(determinant(&t), -4071);
}

#[test]
fn can_expand_rejects_what_does_not_fit() {
    let wide = Matrix::from_row_slice(2, 3, &[1, 2, 3, 4, 5, 6]);
    assert!(!can_expand(&wide));
    assert!(!wide.is_square());
    let large = Matrix::from_row_slice(2, 2, &[i64::MAX, 0, 0, 1]);
    assert!(can_expand(&large));
    assert_eq!(determinant(&large), i64::MAX);
    let product = Matrix::from_row_slice(2, 2, &[i64::MAX, 0, 0, 2]);
    assert!(!can_expand(&product));
    assert_eq!(checked_determinant(&product), None);
    let difference = Matrix::from_row_slice(2, 2, &[i64::MAX, 1, -1, 1]);
    assert!(!can_expand(&difference));
    let lowest = Matrix::from_row_slice(2, 2, &[i64::MAX, 1, 1, -1]);
    assert!(can_expand(&lowest));
    assert_eq!(determinant(&lowest), i64::MIN);
    let single = Matrix::from_row_slice(1, 1, &[i64::MIN]);
    assert!(can_expand(&single));
    assert_eq!(determinant(&single), i64::MIN);
}

#[test]
fn a_cofactor_that_cannot_be_negated_does_not_fit() {
    let m = Matrix::from_row_slice(3, 3, &[0, 1, 0, i64::MAX, 0, 1, 1, 0, -1]);
    assert_eq!(checked_minor(&m, 0, 1), Some(i64::MIN));
    assert_eq!(minor(&m, 0, 1), i64::MIN);
    assert_eq!(checked_cofactor(&m, 0, 1), None);
    assert_eq!(checked_cofactor(&m, 0, 0), Some(0));
    assert_eq!(checked_determinant(&m), None);
    assert!(!can_expand(&m));
    assert!(!can_invert(&m));
    let far = Matrix::from_row_slice(3, 3, &[1, 0, 0, 0, 1, 0, 0, 0, 1]);
    assert_eq!(checked_cofactor(&far, 2, 1), Some(0));
    assert_eq!(checked_cofactor(&far, 1, 1), Some(1));
    assert!(can_invert(&far));
}

#[test]
fn a_translation_by_a_long_way_has_an_inverse() {
    let m = Matrix::from_row_slice(
        4,
        4,
        &[1, 0, 0, 1_000_000_000_000, 0, 1, 0, -3, 0, 0, 1, 2, 0, 0, 0, 1],
    );
    assert!(can_invert(&m));
    let inv = inverse(&m).unwrap();
    assert_eq!(inv.denominator, 1);
    assert_eq!(
        inv.numerators,
        Matrix::from_row_slice(
            4,
            4,
            &[1, 0, 0, -1_000_000_000_000, 0, 1, 0, 3, 0, 0, 1, -2, 0, 0, 0, 1]
        )
    );
}

#[test]
fn matrix_accessors() {
    let mut m = Matrix::from_row_slice(2, 3, &[1, 2, 3, 4, 5, 6]);
    assert_eq!(m.nrows(), 2);
    assert_eq!(m.ncols(), 3);
    assert_eq!(m.get(1, 2), 6);
    m.set(1, 2, 9);
    assert_eq!(m.get(1, 2), 9);
    assert_eq!(m.get(0, 2), 3);
    assert_eq!(
        m.copy().remove_row(0),
        Matrix::from_row_slice(1, 3, &[4, 5, 9])
    );
    assert_eq!(
        m.copy().remove_column(1),
        Matrix::from_row_slice(2, 2, &[1, 3, 4, 9])
    );
    assert_eq!(
        m.transpose(),
        Matrix::from_row_slice(3, 2, &[1, 4, 2, 5, 3, 9])
    );
}

#[test]
fn test_multiplying_matrices() {
    let a = Matrix::from_row_slice(4, 4, &[1, 2, 3, 4, 5, 6, 7, 8, 9, 8, 7, 6, 5, 4, 3, 2]);
    let b = Matrix::from_row_slice(4, 4, &[-2, 1, 2, 3, 3, 2, 1, -1, 4, 3, 6, 5, 1, 2, 7, 8]);
    assert!(can_multiply(&a, &b));
    assert_eq!(
        multiply(&a, &b),
        Matrix::from_row_slice(
            4,
            4,
            &[20, 22, 50, 48, 44, 54, 114, 108, 40, 58, 110, 102, 16, 26, 46, 42]
        )
    );
}

#[test]
fn test_multiplication_by_tuple() {
    let a = Matrix::from_row_slice(4, 4, &[1, 2, 3, 4, 2, 4, 4, 2, 8, 6, 4, 1, 0, 0, 0, 1]);
    let b = Matrix::from_row_slice(4, 1, &[1, 2, 3, 1]);
    assert!(can_multiply(&a, &b));
    assert_eq!(multiply(&a, &b), Matrix::from_row_slice(4, 1, &[18, 24, 33, 1]));
}

#[test]
fn test_multiplicative_identity() {
    let a = Matrix::from_row_slice(4, 4, &[0, 1, 2, 4, 1, 2, 4, 8, 2, 4, 8, 16, 4, 8, 16, 32]);
    let id = Matrix::identity(4);
    assert!(can_multiply(&a, &id));
    assert_eq!(multiply(&a.copy(), &id), a);
}

#[test]
fn can_multiply_rejects_what_does_not_fit() {
    let a = Matrix::from_row_slice(2, 3, &[1, 2, 3, 4, 5, 6]);
    let b = Matrix::from_row_slice(2, 2, &[1, 0, 0, 1]);
    assert!(!can_multiply(&a, &b));
    assert!(can_multiply(&b, &a));
    assert_eq!(multiply(&b, &a), a);
    let large = Matrix::from_row_slice(1, 2, &[i64::MAX, i64::MAX]);
    let ones = Matrix::from_row_slice(2, 1, &[1, 1]);
    assert!(!can_multiply(&large, &ones));
    let cancel = Matrix::from_row_slice(2, 1, &[1, -1]);
    assert!(can_multiply(&large, &cancel));
    assert_eq!(multiply(&large, &cancel), Matrix::from_row_slice(1, 1, &[0]));
}

fn scaled_identity(n: usize, d: i64) -> Matrix {
    let mut m = Matrix::identity(n);
    for i in 0..n {
        m.set(i, i, d);
    }
    m
}

#[test]
fn a_matrix_times_its_inverse_is_the_identity() {
    let a = Matrix::from_row_slice(
        4,
        4,
        &[-5, 2, 6, -8, 1, -5, 1, 8, 7, 7, -6, -7, 1, -3, 7, 4],
    );
    assert!(can_invert(&a));
    let inv = inverse(&a).unwrap();
    assert!(can_multiply(&a, &inv.numerators));
    assert_eq!(multiply(&a, &inv.numerators), scaled_identity(4, inv.denominator));
    assert!(can_multiply(&inv.numerators, &a));
    assert_eq!(multiply(&inv.numerators, &a), scaled_identity(4, 532));
}

#[test]
fn the_inverse_of_the_inverse_is_the_matrix() {
    let a = Matrix::from_row_slice(3, 3, &[1, 2, 6, -5, 8, -4, 2, 6, 4]);
    assert!(can_invert(&a));
    let first = inverse(&a).unwrap();
    assert_eq!(first.denominator, -196);
    assert!(can_invert(&first.numerators));
    let second = inverse(&first.numerators).unwrap();
    for r in 0..3 {
        for c in 0..3 {
            assert_eq!(
                first.denominator as i128 * second.numerators.get(r, c) as i128,
                second.denominator as i128 * a.get(r, c) as i128
            );
        }
    }
}

#[test]
fn a_matrix_with_two_equal_rows_has_no_inverse() {
    let a = Matrix::from_row_slice(3, 3, &[1, 2, 3, 4, 5, 6, 1, 2, 3]);
    assert!(can_invert(&a));
    assert_eq!(determinant(&a), 0);
    assert_eq!(inverse(&a), Err(MatrixError::NotInvertible));
}

#[test]
fn cofactor_is_the_minor_with_the_sign_of_the_checkerboard() {
    let a = Matrix::from_row_slice(
        4,
        4,
        &[-2, -8, 3, 5, -3, 1, 7, 3, 1, 2, -9, 6, -6, 7, 7, -9],
    );
    assert!(can_expand(&a));
    for r in 0..4 {
        for c in 0..4 {
            let sign = if (r + c) % 2 == 0 { 1 } else { -1 };
            assert_eq!(cofactor(&a, r, c), sign * minor(&a, r, c));
        }
    }
}
