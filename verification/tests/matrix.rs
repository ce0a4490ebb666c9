use parallel_matmul::matrix::{zero_row, Matrix};

#[test]
fn new_keeps_rows_of_the_declared_shape() {
    let matrix = Matrix::new(2, 3, vec![vec![1, 2, 3], vec![4, 5, 6]]).unwrap();
    assert_eq!(matrix.num_of_rows(), 2);
    assert_eq!(matrix.num_of_cols(), 3);
    assert_eq!(matrix.elements(), &vec![vec![1, 2, 3], vec![4, 5, 6]]);
}

#[test]
fn new_refuses_a_wrong_row_count() {
    assert!(Matrix::new(3, 2, vec![vec![1, 2], vec![3, 4]]).is_none());
    assert!(Matrix::new(0, 2, vec![vec![1, 2]]).is_none());
}

#[test]
fn new_refuses_a_ragged_row() {
    assert!(Matrix::new(2, 2, vec![vec![1, 2], vec![3]]).is_none());
    assert!(Matrix::new(2, 2, vec![vec![1, 2, 3], vec![4, 5]]).is_none());
}

#[test]
fn new_accepts_empty_shapes() {
    let no_rows = Matrix::new(0, 5, vec![]).unwrap();
    assert_eq!((no_rows.num_of_rows(), no_rows.num_of_cols()), (0, 5));
    let no_cols = Matrix::new(2, 0, vec![vec![], vec![]]).unwrap();
    assert_eq!((no_cols.num_of_rows(), no_cols.num_of_cols()), (2, 0));
}

#[test]
fn zeros_is_all_zero() {
    let matrix = Matrix::zeros(2, 3);
    assert_eq!(matrix.num_of_rows(), 2);
    assert_eq!(matrix.num_of_cols(), 3);
    assert_eq!(matrix.elements(), &vec![vec![0, 0, 0], vec![0, 0, 0]]);
    assert_eq!(zero_row(4), vec![0, 0, 0, 0]);
    assert!(zero_row(0).is_empty());
}

#[test]
fn get_finds_cells_in_range_only() {
    let matrix = Matrix::new(2, 3, vec![vec![1, 2, 3], vec![4, 5, 6]]).unwrap();
    assert_eq!(matrix.get(0, 0), Some(1));
    assert_eq!(matrix.get(1, 2), Some(6));
    assert_eq!(matrix.get(2, 0), None);
    assert_eq!(matrix.get(0, 3), None);
}

#[test]
fn default_is_empty() {
    let matrix = Matrix::default();
    assert_eq!(matrix.num_of_rows(), 0);
    assert_eq!(matrix.num_of_cols(), 0);
    assert!(matrix.elements().is_empty());
}
