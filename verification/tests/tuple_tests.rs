use ray_kernel::tuple::{cross, dot, Tuple};

#[test]
fn lib_test_add() {
    let a = Tuple::new(3, -2, 5, 1);
    let b = Tuple::new(-2, 3, 1, 0);
    assert_eq!(a + b, Tuple::new(1, 1, 6, 1));
}

#[test]
fn main_test_add() {
    let a = Tuple::new(3, -2, 5, 1);
    let b = Tuple::new(-2, 3, 1, 0);
    assert_eq!(a + b, Tuple::new(1, 1, 6, 1));
}

#[test]
fn lib_test_sub() {
    let from = Tuple::point(3, 2, 1);
    let to = Tuple::point(5, 6, 7);
    assert_eq!(from - to, Tuple::vector(-2, -4, -6));
}

#[test]
fn main_test_sub() {
    let from = Tuple::point(3, 2, 1);
    let to = Tuple::point(5, 6, 7);
    assert_eq!(from - to, Tuple::vector(-2, -4, -6));
}

#[test]
fn lib_test_sub_vec() {
    let p = Tuple::point(3, 2, 1);
    let v = Tuple::vector(5, 6, 7);
    assert_eq!(p - v, Tuple::point(-2, -4, -6))
}

#[test]
fn main_test_sub_vec() {
    let p = Tuple::point(3, 2, 1);
    let v = Tuple::vector(5, 6, 7);
    assert_eq!(p - v, Tuple::point(-2, -4, -6))
}

#[test]
fn lib_test_sub_vecs() {
    let from = Tuple::vector(3, 2, 1);
    let to = Tuple::vector(5, 6, 7);
    assert_eq!(from - to, Tuple::vector(-2, -4, -6));
}

#[test]
fn main_test_sub_vecs() {
    let from = Tuple::vector(3, 2, 1);
    let to = Tuple::vector(5, 6, 7);
    assert_eq!(from - to, Tuple::vector(-2, -4, -6));
}

#[test]
fn lib_test_sub_a_vec_from_zero() {
    let z = Tuple::zero();
    let v = Tuple::vector(1, -2, -3);
    assert_eq!(z - v, Tuple::vector(-1, 2, 3));
}

#[test]
fn main_test_sub_a_vec_from_zero() {
    let z = Tuple::zero();
    let v = Tuple::vector(1, -2, -3);
    assert_eq!(z - v, Tuple::vector(-1, 2, 3));
}

#[test]
fn lib_test_neg() {
    let a = Tuple::new(1, -2, 3, -4);
    assert_eq!(-a, Tuple::new(-1, 2, -3, 4));
}

#[test]
fn main_test_neg() {
    let a = Tuple::new(1, -2, 3, -4);
    assert_eq!(-a, Tuple::new(-1, 2, -3, 4));
}

#[test]
fn scaling_a_tuple_by_an_integer() {
    let a = Tuple::new(1, -2, 3, -4);
    assert_eq!(a * 3, Tuple::new(3, -6, 9, -12));
    assert_eq!(a * 0, Tuple::zero());
}

#[test]
fn test_dot_product() {
    let a = Tuple::vector(1, 2, 3);
    let b = Tuple::vector(2, 3, 4);
    assert_eq!(dot(a, b), 20)
}

#[test]
fn test_cross_product() {
    let a = Tuple::vector(1, 2, 3);
    let b = Tuple::vector(2, 3, 4);
    assert_eq!(cross(a, b), Tuple::vector(-1, 2, -1));
    assert_eq!(cross(b, a), Tuple::vector(1, -2, 1));
}

#[test]
fn dot_takes_wide_products() {
    let a = Tuple::new(i64::MAX, i64::MAX, 0, 0);
    let b = Tuple::new(i64::MAX, -i64::MAX, 0, 1);
    assert_eq!(dot(a, b), 0);
}
