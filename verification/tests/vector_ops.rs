use matrix_pool::errors::MatrixError;
use matrix_pool::vector::{dot_product, Vector};

#[test]
fn test_dot_product_values() {
    let a = Vector::new(vec![1, 2, 3]);
    let b = Vector::new(vec![4, 5, 6]);
    assert_eq!(dot_product(a, b), Ok(32));
}

#[test]
fn test_dot_product_empty_is_additive_identity() {
    let a = Vector::new(vec![]);
    let b = Vector::new(vec![]);
    assert_eq!(dot_product(a, b), Ok(0));
}

#[test]
fn test_dot_product_negative_values() {
    let a = Vector::new(vec![-1, 2]);
    let b = Vector::new(vec![3, -4]);
    assert_eq!(dot_product(a, b), Ok(-11));
}

#[test]
fn test_dot_product_length_mismatch() {
    let a = Vector::new(vec![1, 2, 3]);
    let b = Vector::new(vec![1, 2]);
    assert_eq!(dot_product(a, b), Err(MatrixError::DimensionMismatch));
}

#[test]
fn test_vector_len() {
    let a = Vector::new(vec![9, 8, 7]);
    assert_eq!(a.len(), 3);
}
