use parallel_matmul::aggregate::apply_partial;
use parallel_matmul::matrix::Matrix;
use parallel_matmul::partition::Partition;
use parallel_matmul::worker::{compute_partition, compute_row, dot_product};

fn left() -> Matrix {
    Matrix::new(3, 2, vec![vec![1, 2], vec![3, 4], vec![5, 6]]).unwrap()
}

fn right() -> Matrix {
    Matrix::new(2, 2, vec![vec![7, 8], vec![9, 10]]).unwrap()
}

#[test]
fn dot_product_of_row_and_column() {
    assert_eq!(dot_product(&left(), &right(), 0, 0), 1 * 7 + 2 * 9);
    assert_eq!(dot_product(&left(), &right(), 2, 1), 5 * 8 + 6 * 10);
}

#[test]
fn dot_product_wraps_around() {
    let a = Matrix::new(1, 2, vec![vec![i32::MAX, i32::MAX]]).unwrap();
    let b = Matrix::new(2, 1, vec![vec![2], vec![1]]).unwrap();
    // 2 * (2^31 - 1) + (2^31 - 1) = 3 * 2^31 - 3, which is 2^31 - 3 modulo 2^32.
    assert_eq!(dot_product(&a, &b, 0, 0), i32::MAX - 2);
    let c = Matrix::new(1, 1, vec![vec![i32::MIN]]).unwrap();
    let d = Matrix::new(1, 1, vec![vec![-1]]).unwrap();
    assert_eq!(dot_product(&c, &d, 0, 0), i32::MIN);
}

#[test]
fn dot_product_over_no_terms_is_zero() {
    let a = Matrix::new(1, 0, vec![vec![]]).unwrap();
    let b = Matrix::new(0, 1, vec![]).unwrap();
    assert_eq!(dot_product(&a, &b, 0, 0), 0);
}

#[test]
fn compute_row_gives_one_row() {
    assert_eq!(compute_row(&left(), &right(), 1), vec![3 * 7 + 4 * 9, 3 * 8 + 4 * 10]);
}

#[test]
fn compute_partition_gives_rows_with_their_indices() {
    let partial = compute_partition(&left(), &right(), Partition { start_row: 1, end_row: 3 });
    assert_eq!(partial, vec![(1, vec![57, 64]), (2, vec![89, 100])]);
}

#[test]
fn compute_partition_of_no_rows_is_empty() {
    let partial = compute_partition(&left(), &right(), Partition { start_row: 2, end_row: 2 });
    assert!(partial.is_empty());
}

#[test]
fn apply_partial_replaces_the_named_rows() {
    let mut output = Matrix::zeros(3, 2);
    apply_partial(&mut output, vec![(2, vec![5, 6]), (0, vec![1, 2])]);
    assert_eq!(output.elements(), &vec![vec![1, 2], vec![0, 0], vec![5, 6]]);
}

#[test]
fn apply_partial_lets_the_later_entry_win() {
    let mut output = Matrix::zeros(2, 1);
    apply_partial(&mut output, vec![(1, vec![7]), (1, vec![8])]);
    assert_eq!(output.elements(), &vec![vec![0], vec![8]]);
}

#[test]
fn apply_partial_of_nothing_changes_nothing() {
    let mut output = Matrix::new(1, 2, vec![vec![3, 4]]).unwrap();
    apply_partial(&mut output, vec![]);
    assert_eq!(output.elements(), &vec![vec![3, 4]]);
}
