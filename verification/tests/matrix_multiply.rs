use matrix_pool::errors::MatrixError;
use matrix_pool::matrix::{
    assemble, compute, multiply, multiply_with_workers, Matrix, MessageInput, MessageOutput,
};
use matrix_pool::vector::Vector;

#[test]
fn test_multiply_should_work_2_3() {
    let matrix1 = Matrix::new(vec![1, 2, 3, 4, 5, 6], 2, 3);
    let matrix2 = Matrix::new(vec![1, 2, 3, 4, 5, 6], 3, 2);
    let result = multiply(&matrix1, &matrix2).unwrap();
    assert_eq!(result.cols, 2);
    assert_eq!(result.rows, 2);
    assert_eq!(result.data, vec![22, 28, 49, 64]);
}

#[test]
fn test_multiply_should_work_2_2() {
    let matrix1 = Matrix::new(vec![1, 2, 3, 4], 2, 2);
    let matrix2 = Matrix::new(vec![1, 2, 3, 4], 2, 2);
    let result = multiply(&matrix1, &matrix2).unwrap();
    assert_eq!(result.cols, 2);
    assert_eq!(result.rows, 2);
    assert_eq!(result.data, vec![7, 10, 15, 22]);
}

#[test]
fn test_multiply_should_work() {
    let matrix1 = Matrix::new(vec![1, 2, 3, 4, 5, 6], 2, 3);
    let matrix2 = Matrix::new(vec![10, 11, 20, 21, 30, 31], 3, 2);
    let result = multiply(&matrix1, &matrix2).unwrap();
    assert_eq!(result.cols, 2);
    assert_eq!(result.rows, 2);
    assert_eq!(result.data, vec![140, 146, 320, 335]);
}

#[test]
fn test_multiply_dimension_mismatch() {
    let matrix1 = Matrix::new(vec![1, 2, 3, 4, 5, 6], 2, 3);
    let matrix2 = Matrix::new(vec![1, 2, 3, 4], 2, 2);
    let result = multiply(&matrix1, &matrix2);
    assert!(matches!(result, Err(MatrixError::DimensionMismatch)));
}

#[test]
fn test_multiply_pool_size_independent() {
    let a = Matrix::new(vec![1, 2, 3, 4, 5, 6], 2, 3);
    let b = Matrix::new(vec![10, 11, 20, 21, 30, 31], 3, 2);
    let baseline = multiply_with_workers(&a, &b, 1).unwrap();
    assert_eq!(baseline.data, vec![140, 146, 320, 335]);
    for n in 2..=8 {
        let other = multiply_with_workers(&a, &b, n).unwrap();
        assert_eq!(other.rows, baseline.rows);
        assert_eq!(other.cols, baseline.cols);
        assert_eq!(other.data, baseline.data);
    }
}

#[test]
fn test_multiply_one_by_one() {
    let a = Matrix::new(vec![7], 1, 1);
    let b = Matrix::new(vec![-3], 1, 1);
    let result = multiply(&a, &b).unwrap();
    assert_eq!(result.rows, 1);
    assert_eq!(result.cols, 1);
    assert_eq!(result.data, vec![-21]);
}

#[test]
fn test_compute_tags_destination_index() {
    let input = MessageInput::new(5, Vector::new(vec![1, 2, 3]), Vector::new(vec![4, 5, 6]));
    let out = compute(input).unwrap();
    assert_eq!(out.idx, 5);
    assert_eq!(out.value, 32);
}

#[test]
fn test_compute_dimension_mismatch() {
    let input = MessageInput::new(0, Vector::new(vec![1, 2, 3]), Vector::new(vec![4, 5]));
    assert_eq!(compute(input), Err(MatrixError::DimensionMismatch));
}

#[test]
fn test_assemble_orders_by_destination_index() {
    let outputs = vec![
        Some(MessageOutput::new(3, 30)),
        Some(MessageOutput::new(0, 0)),
        Some(MessageOutput::new(2, 20)),
        Some(MessageOutput::new(1, 10)),
    ];
    let m = assemble(&outputs, 2, 2).unwrap();
    assert_eq!(m.rows, 2);
    assert_eq!(m.cols, 2);
    assert_eq!(m.data, vec![0, 10, 20, 30]);
}

#[test]
fn test_assemble_missing_reply_is_worker_failure() {
    let outputs = vec![Some(MessageOutput::new(0, 1)), None, Some(MessageOutput::new(2, 3))];
    let result = assemble(&outputs, 1, 3);
    assert!(matches!(result, Err(MatrixError::WorkerFailure)));
}
