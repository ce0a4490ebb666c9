use parallel_matmul::matrix::Matrix;
use parallel_matmul::orchestrator::{
    multiply_matrices, multiply_with_workers, validate_dimensions, worker_count_for,
    Multiplication, MultiplyError,
};
use parallel_matmul::worker::compute_partition;

fn matrix(rows: usize, cols: usize, elements: Vec<Vec<i32>>) -> Matrix {
    Matrix::new(rows, cols, elements).unwrap()
}

fn identity(size: usize) -> Matrix {
    let rows = (0..size)
        .map(|i| (0..size).map(|j| if i == j { 1 } else { 0 }).collect())
        .collect();
    matrix(size, size, rows)
}

fn sample(rows: usize, cols: usize, seed: i32) -> Matrix {
    let elements = (0..rows)
        .map(|i| {
            (0..cols)
                .map(|j| seed.wrapping_mul(31).wrapping_add((i * cols + j) as i32 * 7 - 11))
                .collect()
        })
        .collect();
    matrix(rows, cols, elements)
}

#[test]
fn two_by_two_product() {
    let a = matrix(2, 2, vec![vec![1, 2], vec![3, 4]]);
    let b = matrix(2, 2, vec![vec![5, 6], vec![7, 8]]);
    let result = multiply_matrices(a, b, Some(4)).unwrap();
    assert_eq!(result.num_of_rows(), 2);
    assert_eq!(result.num_of_cols(), 2);
    assert_eq!(result.elements(), &vec![vec![19, 22], vec![43, 50]]);
}

#[test]
fn row_times_column() {
    let a = matrix(1, 3, vec![vec![1, 2, 3]]);
    let b = matrix(3, 1, vec![vec![4], vec![5], vec![6]]);
    let result = multiply_matrices(a, b, None).unwrap();
    assert_eq!(result.num_of_rows(), 1);
    assert_eq!(result.num_of_cols(), 1);
    assert_eq!(result.elements(), &vec![vec![32]]);
}

#[test]
fn no_rows_gives_no_rows() {
    let a = matrix(0, 2, vec![]);
    let b = matrix(2, 3, vec![vec![1, 2, 3], vec![4, 5, 6]]);
    let job = Multiplication::begin(&a, &b, 8).unwrap();
    assert!(job.partitions().is_empty());
    assert!(job.is_complete());
    let result = multiply_with_workers(&a, &b, 8).unwrap();
    assert_eq!(result.num_of_rows(), 0);
    assert_eq!(result.num_of_cols(), 3);
    assert!(result.elements().is_empty());
}

#[test]
fn no_inner_dimension_gives_zeros() {
    let a = matrix(2, 0, vec![vec![], vec![]]);
    let b = matrix(0, 3, vec![]);
    let result = multiply_with_workers(&a, &b, 2).unwrap();
    assert_eq!(result.elements(), &vec![vec![0, 0, 0], vec![0, 0, 0]]);
}

#[test]
fn mismatch_is_refused() {
    let a = matrix(2, 3, vec![vec![1, 2, 3], vec![4, 5, 6]]);
    let b = matrix(2, 2, vec![vec![1, 2], vec![3, 4]]);
    assert_eq!(validate_dimensions(&a, &b), Err(MultiplyError::IncompatibleDimensions));
    assert_eq!(validate_dimensions(&b, &a), Ok(()));
    assert!(matches!(
        Multiplication::begin(&a, &b, 3),
        Err(MultiplyError::IncompatibleDimensions)
    ));
    assert_eq!(
        multiply_with_workers(&a, &b, 3).err(),
        Some(MultiplyError::IncompatibleDimensions)
    );
    assert_eq!(
        multiply_matrices(a, b, Some(2)).err(),
        Some(MultiplyError::IncompatibleDimensions)
    );
}

#[test]
fn one_worker_and_many_workers_agree() {
    let a = sample(7, 5, 3);
    let b = sample(5, 4, -9);
    let single = multiply_with_workers(&a, &b, 1).unwrap();
    for worker_count in 1..20usize {
        let many = multiply_with_workers(&a, &b, worker_count).unwrap();
        assert_eq!(many.elements(), single.elements());
    }
    let huge = multiply_with_workers(&a, &b, usize::MAX).unwrap();
    assert_eq!(huge.elements(), single.elements());
}

#[test]
fn identity_leaves_a_matrix_unchanged() {
    let a = sample(4, 3, 17);
    let on_the_right = multiply_with_workers(&a, &identity(3), 3).unwrap();
    assert_eq!(on_the_right.elements(), a.elements());
    let on_the_left = multiply_with_workers(&identity(4), &a, 3).unwrap();
    assert_eq!(on_the_left.elements(), a.elements());
}

#[test]
fn zero_matrix_gives_zero_matrix() {
    let a = sample(3, 4, 5);
    let result = multiply_with_workers(&a, &Matrix::zeros(4, 2), 2).unwrap();
    assert_eq!(result.num_of_rows(), 3);
    assert_eq!(result.num_of_cols(), 2);
    assert_eq!(result.elements(), Matrix::zeros(3, 2).elements());
    let result = multiply_with_workers(&Matrix::zeros(5, 3), &a, 2).unwrap();
    assert_eq!(result.elements(), Matrix::zeros(5, 4).elements());
}

#[test]
fn product_wraps_around() {
    let a = matrix(1, 2, vec![vec![65536, 65536]]);
    let b = matrix(2, 1, vec![vec![65536], vec![32768]]);
    // 2^32 + 2^31 is -2^31 in 32 bits.
    let result = multiply_with_workers(&a, &b, 1).unwrap();
    assert_eq!(result.elements(), &vec![vec![i32::MIN]]);
}

#[test]
fn deliveries_may_come_in_any_order() {
    let a = sample(6, 3, 2);
    let b = sample(3, 2, 8);
    let expected = multiply_with_workers(&a, &b, 1).unwrap();

    let mut job = Multiplication::begin(&a, &b, 4).unwrap();
    let parts = job.partitions().clone();
    assert_eq!(parts.len(), 3);
    assert_eq!(job.pending(), 3);
    assert!(!job.is_complete());
    for worker in [2usize, 0, 1] {
        assert!(!job.has_delivered(worker));
        job.deliver(worker, compute_partition(&a, &b, parts[worker]));
        assert!(job.has_delivered(worker));
    }
    assert!(!job.has_delivered(3));
    assert_eq!(job.pending(), 0);
    assert!(job.is_complete());
    assert_eq!(job.finish().elements(), expected.elements());
}

#[test]
fn rows_not_yet_delivered_read_as_zero() {
    let a = matrix(2, 1, vec![vec![2], vec![3]]);
    let b = matrix(1, 1, vec![vec![5]]);
    let mut job = Multiplication::begin(&a, &b, 2).unwrap();
    let parts = job.partitions().clone();
    job.deliver(1, compute_partition(&a, &b, parts[1]));
    assert_eq!(job.pending(), 1);
    job.deliver(0, compute_partition(&a, &b, parts[0]));
    assert_eq!(job.finish().elements(), &vec![vec![10], vec![15]]);
}

#[test]
fn worker_count_is_twice_the_capacity() {
    assert_eq!(worker_count_for(Some(12)), 24);
    assert_eq!(worker_count_for(Some(1)), 2);
    assert_eq!(worker_count_for(None), 2);
    assert_eq!(worker_count_for(Some(0)), 2);
    assert_eq!(worker_count_for(Some(usize::MAX)), usize::MAX);
}
