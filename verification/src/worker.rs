//! The worker task: the rows of the product that belong to one partition.

use crate::matrix::{Matrix, MatrixView};
use crate::partition::Partition;
use crate::product::{dot_prefix, lemma_dot_step, product_cell, product_row, wrapped};
use vstd::prelude::*;

verus! {

/// What one worker hands back: each row of its partition with the row's index
/// in the output.
pub type PartialResult = Vec<(usize, Vec<i32>)>;

/// Whether `partial` is the outcome of the worker that owns `part`: one entry
/// for each row of the partition, in order, each holding that row of the
/// product of `a` and `b`.
pub open spec fn is_partial_result(
    partial: Seq<(usize, Vec<i32>)>,
    a: MatrixView,
    b: MatrixView,
    part: Partition,
) -> bool {
    &&& partial.len() == part.spec_len()
    &&& forall|k: int|
        0 <= k < partial.len() ==> (#[trigger] partial[k]).0 == part.start_row + k && partial[k].1@
            == product_row(a, b, part.start_row + k)
}

/// The cell of the product at `row` and `col`: the sum over `k` of
/// `a[row][k] * b[k][col]`, in wraparound arithmetic.
pub fn dot_product(a: &Matrix, b: &Matrix, row: usize, col: usize) -> (sum: i32)
    requires
        a.wf(),
        b.wf(),
        a@.cols == b@.rows,
        row < a@.rows,
        col < b@.cols,
    ensures
        sum == product_cell(a@, b@, row as int, col as int),
{
    let left = &a.elements[row];
    let mut sum: i32 = 0;
    let mut k: usize = 0;
    proof {
        crate::product::lemma_wrapped_fixed(0);
    }
    while k < left.len()
        invariant
            a.wf(),
            b.wf(),
            a@.cols == b@.rows,
            row < a@.rows,
            col < b@.cols,
            left@ == a@.cells[row as int],
            k <= left.len(),
            sum == wrapped(dot_prefix(a@, b@, row as int, col as int, k as nat)),
        decreases left.len() - k,
    {
        proof {
            lemma_dot_step(a@, b@, row as int, col as int, (k + 1) as nat);
        }
        sum = sum.wrapping_add(left[k].wrapping_mul(b.elements[k][col]));
        k += 1;
    }
    sum
}

/// One row of the product.
pub fn compute_row(a: &Matrix, b: &Matrix, row: usize) -> (cells: Vec<i32>)
    requires
        a.wf(),
        b.wf(),
        a@.cols == b@.rows,
        row < a@.rows,
    ensures
        cells@ == product_row(a@, b@, row as int),
{
    let mut cells: Vec<i32> = Vec::new();
    let mut col: usize = 0;
    while col < b.num_of_cols
        invariant
            a.wf(),
            b.wf(),
            a@.cols == b@.rows,
            row < a@.rows,
            col <= b.num_of_cols,
            cells.len() == col,
            forall|j: int| 0 <= j < col ==> cells@[j] == product_cell(a@, b@, row as int, j),
        decreases b.num_of_cols - col,
    {
        cells.push(dot_product(a, b, row, col));
        col += 1;
    }
    assert(cells@ =~= product_row(a@, b@, row as int));
    cells
}

/// The work of one worker: every row of `part`, computed from the two shared
/// operands, which it only reads. The partition has to lie within the rows of
/// `a`.
pub fn compute_partition(a: &Matrix, b: &Matrix, part: Partition) -> (partial: PartialResult)
    requires
        a.wf(),
        b.wf(),
        a@.cols == b@.rows,
        part.start_row <= part.end_row <= a@.rows,
    ensures
        is_partial_result(partial@, a@, b@, part),
{
    let mut partial: PartialResult = Vec::new();
    let mut row: usize = part.start_row;
    while row < part.end_row
        invariant
            a.wf(),
            b.wf(),
            a@.cols == b@.rows,
            part.start_row <= row <= part.end_row <= a@.rows,
            partial.len() == row - part.start_row,
            forall|k: int|
                0 <= k < partial.len() ==> (#[trigger] partial@[k]).0 == part.start_row + k
                    && partial@[k].1@ == product_row(a@, b@, part.start_row + k),
        decreases part.end_row - row,
    {
        let cells = compute_row(a, b, row);
        partial.push((row, cells));
        row += 1;
    }
    partial
}

} // verus!
