//! The aggregator: copies a worker's rows into their places in the output.

use crate::matrix::{Matrix, MatrixView};
use crate::partition::Partition;
use crate::product::product_row;
use crate::worker::{is_partial_result, PartialResult};
use vstd::prelude::*;

verus! {

/// Whether every entry of `partial` names a row of `output` and holds as many
/// cells as `output` has columns.
pub open spec fn fits(partial: Seq<(usize, Vec<i32>)>, output: MatrixView) -> bool {
    forall|k: int|
        0 <= k < partial.len() ==> (#[trigger] partial[k]).0 < output.rows && partial[k].1@.len()
            == output.cols
}

/// `output` after the entries of `partial` were written into it one after the
/// other, each replacing the row that it names.
pub open spec fn applied(output: MatrixView, partial: Seq<(usize, Vec<i32>)>) -> MatrixView
    decreases partial.len(),
{
    if partial.len() == 0 {
        output
    } else {
        applied(output, partial.drop_last()).with_row(
            partial.last().0 as int,
            partial.last().1@,
        )
    }
}

/// Writes each row of a partial result into the output at the row's index.
pub fn apply_partial(output: &mut Matrix, partial: PartialResult)
    requires
        old(output).wf(),
        fits(partial@, old(output)@),
    ensures
        final(output).wf(),
        final(output)@ == applied(old(output)@, partial@),
{
    let ghost entries = partial@;
    for entry in it: partial
        invariant
            output.wf(),
            it.seq() == entries,
            fits(entries, old(output)@),
            output@.rows == old(output)@.rows,
            output@.cols == old(output)@.cols,
            output@ == applied(old(output)@, entries.take(it.index() as int)),
    {
        let (index, row) = entry;
        proof {
            assert(entries.take(it.index() + 1).drop_last() =~= entries.take(it.index() as int));
        }
        output.elements[index] = row;
        proof {
            assert(output@.cells =~= applied(
                old(output)@,
                entries.take(it.index() + 1),
            ).cells);
        }
    }
    proof {
        assert(entries.take(entries.len() as int) =~= entries);
    }
}

/// Applying the partial result of a partition replaces the rows of that
/// partition by the rows of the product and leaves every other row as it was.
pub proof fn lemma_applied_partial(
    output: MatrixView,
    partial: Seq<(usize, Vec<i32>)>,
    a: MatrixView,
    b: MatrixView,
    part: Partition,
)
    requires
        output.cells.len() == output.rows,
        part.start_row <= part.end_row <= output.rows,
        is_partial_result(partial, a, b, part),
    ensures
        applied(output, partial).rows == output.rows,
        applied(output, partial).cols == output.cols,
        applied(output, partial).cells.len() == output.rows,
        forall|row: int|
            0 <= row < output.rows ==> #[trigger] applied(output, partial).cells[row] == (if part.contains(
                row,
            ) {
                product_row(a, b, row)
            } else {
                output.cells[row]
            }),
    decreases partial.len(),
{
    if partial.len() > 0 {
        let shorter = Partition { start_row: part.start_row, end_row: (part.end_row - 1) as usize };
        lemma_applied_partial(output, partial.drop_last(), a, b, shorter);
    }
}

/// Whether some entry of `partial` names `row`.
pub open spec fn names(partial: Seq<(usize, Vec<i32>)>, row: int) -> bool {
    exists|k: int| 0 <= k < partial.len() && (#[trigger] partial[k]).0 == row
}

/// Applying a partial result keeps the shape of the output and leaves the rows
/// that no entry names as they were.
pub proof fn lemma_applied_elsewhere(output: MatrixView, partial: Seq<(usize, Vec<i32>)>)
    requires
        output.shaped(),
        fits(partial, output),
    ensures
        applied(output, partial).rows == output.rows,
        applied(output, partial).cols == output.cols,
        applied(output, partial).shaped(),
        forall|row: int|
            0 <= row < output.rows && !names(partial, row) ==> #[trigger] applied(
                output,
                partial,
            ).cells[row] == output.cells[row],
    decreases partial.len(),
{
    if partial.len() > 0 {
        let shorter = partial.drop_last();
        lemma_applied_elsewhere(output, shorter);
        assert forall|row: int| 0 <= row < output.rows && !names(partial, row) implies #[trigger] applied(
            output,
            partial,
        ).cells[row] == output.cells[row] by {
            if names(shorter, row) {
                let k = choose|k: int| 0 <= k < shorter.len() && (#[trigger] shorter[k]).0 == row;
                assert(partial[k].0 == row);
            }
            assert(partial[partial.len() - 1].0 != row);
        }
    }
}

/// What a partial result writes into the rows that it names does not depend on
/// what the output held before.
pub proof fn lemma_applied_named(
    first: MatrixView,
    second: MatrixView,
    partial: Seq<(usize, Vec<i32>)>,
    row: int,
)
    requires
        first.shaped(),
        second.shaped(),
        first.rows == second.rows,
        first.cols == second.cols,
        fits(partial, first),
        names(partial, row),
    ensures
        applied(first, partial).cells[row] == applied(second, partial).cells[row],
    decreases partial.len(),
{
    let shorter = partial.drop_last();
    lemma_applied_elsewhere(first, shorter);
    lemma_applied_elsewhere(second, shorter);
    if partial.last().0 != row {
        let k = choose|k: int| 0 <= k < partial.len() && (#[trigger] partial[k]).0 == row;
        assert(shorter[k].0 == row);
        lemma_applied_named(first, second, shorter, row);
    }
}

/// Two partial results that name no row in common may be applied in either
/// order: the output is the same.
pub proof fn lemma_apply_order_irrelevant(
    output: MatrixView,
    one: Seq<(usize, Vec<i32>)>,
    two: Seq<(usize, Vec<i32>)>,
)
    requires
        output.shaped(),
        fits(one, output),
        fits(two, output),
        forall|row: int| !(names(one, row) && names(two, row)),
    ensures
        applied(applied(output, one), two) == applied(applied(output, two), one),
{
    let after_one = applied(output, one);
    let after_two = applied(output, two);
    lemma_applied_elsewhere(output, one);
    lemma_applied_elsewhere(output, two);
    lemma_applied_elsewhere(after_one, two);
    lemma_applied_elsewhere(after_two, one);
    let left = applied(after_one, two);
    let right = applied(after_two, one);
    assert forall|row: int| 0 <= row < output.rows implies #[trigger] left.cells[row]
        == right.cells[row] by {
        if names(one, row) {
            lemma_applied_named(output, after_two, one, row);
        } else if names(two, row) {
            lemma_applied_named(output, after_one, two, row);
        }
    }
    assert(left.cells =~= right.cells);
}

} // verus!
