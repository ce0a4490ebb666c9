//! The orchestrator: checks the dimensions, allocates the output, plans the
//! partitions, takes in each worker's partial result and hands out the
//! finished product.

use crate::aggregate::{applied, apply_partial, lemma_applied_partial};
use crate::matrix::{zero_matrix, Matrix, MatrixView};
use crate::partition::{
    covered,
    lemma_plan_covers_once,
    lemma_planned_partition,
    plan_partitions,
    planned,
    Partition,
};
use crate::product::{product, product_row};
use crate::worker::{compute_partition, is_partial_result, PartialResult};
use vstd::prelude::*;

verus! {

/// Why a multiplication was refused.
#[derive(Clone, Copy, Debug, PartialEq, Eq, Structural)]
pub enum MultiplyError {
    /// The left operand has another number of columns than the right one has rows.
    IncompatibleDimensions,
}

/// The dimension check: two matrices can be multiplied exactly when the left
/// one has as many columns as the right one has rows.
pub fn validate_dimensions(a: &Matrix, b: &Matrix) -> (checked: Result<(), MultiplyError>)
    ensures
        checked is Ok <==> a@.cols == b@.rows,
        checked is Err ==> checked == Err::<(), MultiplyError>(
            MultiplyError::IncompatibleDimensions,
        ),
{
    if a.num_of_cols != b.num_of_rows {
        Err(MultiplyError::IncompatibleDimensions)
    } else {
        Ok(())
    }
}

/// The number of workers for a host that can run `capacity` tasks at once:
/// twice the capacity, where it is known and positive, and twice one where it
/// is not, never more than `usize` holds.
pub open spec fn chosen_worker_count(capacity: Option<usize>) -> usize {
    let known: int = match capacity {
        Some(n) => if n >= 1 {
            n as int
        } else {
            1
        },
        None => 1,
    };
    if 2 * known > usize::MAX {
        usize::MAX
    } else {
        (2 * known) as usize
    }
}

/// Chooses the number of workers from the host's parallel capacity.
pub fn worker_count_for(capacity: Option<usize>) -> (count: usize)
    ensures
        count == chosen_worker_count(capacity),
        count >= 1,
{
    let known: usize = match capacity {
        Some(n) => if n >= 1 {
            n
        } else {
            1
        },
        None => 1,
    };
    known.saturating_add(known)
}

/// Whether a worker that has delivered owns `row`.
pub open spec fn row_delivered(parts: Seq<Partition>, delivered: Seq<bool>, row: int) -> bool {
    exists|k: int|
        0 <= k < parts.len() && 0 <= k < delivered.len() && delivered[k] && (
        #[trigger] parts[k]).contains(row)
}

/// The output while partial results come in: the rows of the workers that have
/// delivered hold the product, the others are still zero.
pub open spec fn gathered(
    a: MatrixView,
    b: MatrixView,
    parts: Seq<Partition>,
    delivered: Seq<bool>,
) -> MatrixView {
    MatrixView {
        rows: a.rows,
        cols: b.cols,
        cells: Seq::new(
            a.rows,
            |row: int|
                if row_delivered(parts, delivered, row) {
                    product_row(a, b, row)
                } else {
                    Seq::new(b.cols, |col: int| 0i32)
                },
        ),
    }
}

/// Whether every worker has delivered.
pub open spec fn all_delivered(delivered: Seq<bool>) -> bool {
    forall|k: int| 0 <= k < delivered.len() ==> delivered[k]
}

/// How many workers have not delivered yet.
pub open spec fn count_pending(delivered: Seq<bool>) -> nat
    decreases delivered.len(),
{
    if delivered.len() == 0 {
        0
    } else {
        count_pending(delivered.drop_last()) + if delivered.last() {
            0nat
        } else {
            1nat
        }
    }
}

/// No worker is pending exactly when every worker has delivered.
pub proof fn lemma_none_pending(delivered: Seq<bool>)
    ensures
        count_pending(delivered) == 0 <==> all_delivered(delivered),
        count_pending(delivered) <= delivered.len(),
    decreases delivered.len(),
{
    if delivered.len() > 0 {
        lemma_none_pending(delivered.drop_last());
        if count_pending(delivered) == 0 {
            assert forall|k: int| 0 <= k < delivered.len() implies delivered[k] by {
                if k < delivered.len() - 1 {
                    assert(delivered.drop_last()[k]);
                }
            }
        } else if all_delivered(delivered) {
            assert forall|k: int| 0 <= k < delivered.drop_last().len() implies delivered.drop_last()[k] by {
                assert(delivered[k]);
            }
        }
    }
}

/// A delivery by a worker that was pending leaves one worker fewer pending.
pub proof fn lemma_delivery_counts(delivered: Seq<bool>, worker: int)
    requires
        0 <= worker < delivered.len(),
        !delivered[worker],
    ensures
        count_pending(delivered.update(worker, true)) + 1 == count_pending(delivered),
    decreases delivered.len(),
{
    let after = delivered.update(worker, true);
    if worker == delivered.len() - 1 {
        assert(after.drop_last() =~= delivered.drop_last());
    } else {
        lemma_delivery_counts(delivered.drop_last(), worker);
        assert(after.drop_last() =~= delivered.drop_last().update(worker, true));
    }
}

/// With nothing delivered every worker is pending.
pub proof fn lemma_all_pending(len: nat)
    ensures
        count_pending(Seq::new(len, |k: int| false)) == len,
    decreases len,
{
    if len > 0 {
        lemma_all_pending((len - 1) as nat);
        assert(Seq::new(len, |k: int| false).drop_last() =~= Seq::new(
            (len - 1) as nat,
            |k: int| false,
        ));
    }
}

/// Once every worker of a plan has delivered, the gathered output is the
/// product, whatever the number of workers was.
pub proof fn lemma_gathered_complete(
    a: MatrixView,
    b: MatrixView,
    total_rows: usize,
    worker_count: usize,
    delivered: Seq<bool>,
)
    requires
        worker_count >= 1,
        a.rows == total_rows,
        delivered.len() == planned(total_rows, worker_count).len(),
        all_delivered(delivered),
    ensures
        gathered(a, b, planned(total_rows, worker_count), delivered) == product(a, b),
{
    let parts = planned(total_rows, worker_count);
    let got = gathered(a, b, parts, delivered);
    lemma_plan_covers_once(total_rows, worker_count);
    assert forall|row: int| 0 <= row < a.rows implies #[trigger] got.cells[row] == product(
        a,
        b,
    ).cells[row] by {
        assert(covered(parts, row));
        let k = choose|k: int| 0 <= k < parts.len() && (#[trigger] parts[k]).contains(row);
        assert(delivered[k]);
        assert(row_delivered(parts, delivered, row));
    }
    assert(got.cells =~= product(a, b).cells);
}

/// With one worker and with any other number of workers the finished output is
/// the same, cell for cell.
pub proof fn lemma_worker_count_irrelevant(
    a: MatrixView,
    b: MatrixView,
    total_rows: usize,
    worker_count: usize,
)
    requires
        worker_count >= 1,
        a.rows == total_rows,
    ensures
        gathered(
            a,
            b,
            planned(total_rows, 1),
            Seq::new(planned(total_rows, 1).len(), |k: int| true),
        ) == gathered(
            a,
            b,
            planned(total_rows, worker_count),
            Seq::new(planned(total_rows, worker_count).len(), |k: int| true),
        ),
{
    lemma_gathered_complete(
        a,
        b,
        total_rows,
        1,
        Seq::new(planned(total_rows, 1).len(), |k: int| true),
    );
    lemma_gathered_complete(
        a,
        b,
        total_rows,
        worker_count,
        Seq::new(planned(total_rows, worker_count).len(), |k: int| true),
    );
}

/// A multiplication under way: the output allocated, the partitions planned,
/// and a record of which workers have delivered their partial result.
pub struct Multiplication {
    pub(crate) output: Matrix,
    pub(crate) worker_count: usize,
    pub(crate) partitions: Vec<Partition>,
    pub(crate) delivered: Vec<bool>,
    pub(crate) pending: usize,
    pub(crate) left: Ghost<MatrixView>,
    pub(crate) right: Ghost<MatrixView>,
}

impl Multiplication {
    /// The left operand.
    pub open(crate) spec fn left(&self) -> MatrixView {
        self.left@
    }

    /// The right operand.
    pub open(crate) spec fn right(&self) -> MatrixView {
        self.right@
    }

    /// The number of workers that the partitions were planned for.
    pub open(crate) spec fn workers(&self) -> usize {
        self.worker_count
    }

    /// The planned partitions, one for each spawned worker.
    pub open(crate) spec fn plan(&self) -> Seq<Partition> {
        self.partitions@
    }

    /// For each spawned worker, whether its partial result has come in.
    pub open(crate) spec fn arrivals(&self) -> Seq<bool> {
        self.delivered@
    }

    /// The output as it stands.
    pub open(crate) spec fn output(&self) -> MatrixView {
        self.output@
    }

    /// The invariant of the type. The operands can be multiplied; the
    /// partitions are the plan for the rows of the left operand; and the output
    /// holds the product in the rows of the workers that have delivered and
    /// zeros elsewhere.
    pub open(crate) spec fn wf(&self) -> bool {
        &&& self.output.wf()
        &&& self.left@.cols == self.right@.rows
        &&& self.left@.rows == self.output.num_of_rows
        &&& self.worker_count >= 1
        &&& self.partitions@ == planned(self.output.num_of_rows, self.worker_count)
        &&& self.delivered@.len() == self.partitions@.len()
        &&& self.pending == count_pending(self.delivered@)
        &&& self.output@ == gathered(self.left@, self.right@, self.partitions@, self.delivered@)
    }

    /// Every spawned worker has delivered.
    pub open spec fn complete(&self) -> bool {
        all_delivered(self.arrivals())
    }

    /// Starts a multiplication. The dimensions are checked first: where the left
    /// operand's columns and the right operand's rows differ in number, nothing
    /// is allocated or planned and the error is returned. Otherwise the output
    /// is allocated with every element zero and the partitions are planned for
    /// `worker_count` workers; no worker has delivered yet.
    pub fn begin(a: &Matrix, b: &Matrix, worker_count: usize) -> (started: Result<
        Multiplication,
        MultiplyError,
    >)
        requires
            a.wf(),
            b.wf(),
            worker_count >= 1,
        ensures
            started is Err <==> a@.cols != b@.rows,
            started is Err ==> started->Err_0 == MultiplyError::IncompatibleDimensions,
            started matches Ok(job) ==> job.wf() && job.left() == a@ && job.right() == b@,
            started matches Ok(job) ==> job.workers() == worker_count && job.plan() == planned(
                a@.rows as usize,
                worker_count,
            ),
            started matches Ok(job) ==> job.arrivals() == Seq::new(job.plan().len(), |k: int| false),
            started matches Ok(job) ==> job.output() == zero_matrix(a@.rows, b@.cols),
    {
        match validate_dimensions(a, b) {
            Err(e) => {
                return Err(e);
            },
            Ok(()) => {},
        }
        let output = Matrix::zeros(a.num_of_rows, b.num_of_cols);
        let partitions = plan_partitions(a.num_of_rows, worker_count);
        let mut delivered: Vec<bool> = Vec::new();
        let mut k: usize = 0;
        while k < partitions.len()
            invariant
                k <= partitions.len(),
                delivered@ == Seq::new(k as nat, |i: int| false),
            decreases partitions.len() - k,
        {
            delivered.push(false);
            assert(delivered@ =~= Seq::new((k + 1) as nat, |i: int| false));
            k += 1;
        }
        let pending = partitions.len();
        let job = Multiplication {
            output,
            worker_count,
            partitions,
            delivered,
            pending,
            left: Ghost(a@),
            right: Ghost(b@),
        };
        proof {
            lemma_all_pending(job.partitions@.len());
            assert(job.output@.cells =~= gathered(
                job.left@,
                job.right@,
                job.partitions@,
                job.delivered@,
            ).cells);
        }
        Ok(job)
    }

    /// The partitions to hand out, one for each worker to spawn.
    pub fn partitions(&self) -> (parts: &Vec<Partition>)
        ensures
            parts@ == self.plan(),
    {
        &self.partitions
    }

    /// Whether the worker with the given index has delivered. An index that
    /// names no spawned worker has not.
    pub fn has_delivered(&self, worker: usize) -> (done: bool)
        requires
            self.wf(),
        ensures
            done == (worker < self.arrivals().len() && self.arrivals()[worker as int]),
    {
        worker < self.delivered.len() && self.delivered[worker]
    }

    /// The number of spawned workers that have not delivered yet.
    pub fn pending(&self) -> (count: usize)
        requires
            self.wf(),
        ensures
            count == count_pending(self.arrivals()),
            count == 0 <==> self.complete(),
    {
        proof {
            lemma_none_pending(self.delivered@);
        }
        self.pending
    }

    /// Whether every spawned worker has delivered.
    pub fn is_complete(&self) -> (done: bool)
        requires
            self.wf(),
        ensures
            done == self.complete(),
    {
        proof {
            lemma_none_pending(self.delivered@);
        }
        self.pending == 0
    }

    /// Takes in the partial result of one worker and writes its rows into the
    /// output. Each spawned worker delivers once; the workers may deliver in any
    /// order, since the output afterwards depends only on which of them have
    /// delivered.
    pub fn deliver(&mut self, worker: usize, partial: PartialResult)
        requires
            old(self).wf(),
            worker < old(self).plan().len(),
            !old(self).arrivals()[worker as int],
            is_partial_result(
                partial@,
                old(self).left(),
                old(self).right(),
                old(self).plan()[worker as int],
            ),
        ensures
            final(self).wf(),
            final(self).left() == old(self).left(),
            final(self).right() == old(self).right(),
            final(self).workers() == old(self).workers(),
            final(self).plan() == old(self).plan(),
            final(self).arrivals() == old(self).arrivals().update(worker as int, true),
            final(self).output() == applied(old(self).output(), partial@),
    {
        let ghost part = self.partitions@[worker as int];
        let ghost before = self.output@;
        proof {
            lemma_planned_partition(self.output.num_of_rows, self.worker_count, worker as int);
            lemma_applied_partial(before, partial@, self.left@, self.right@, part);
            lemma_delivery_counts(self.delivered@, worker as int);
        }
        apply_partial(&mut self.output, partial);
        self.delivered[worker] = true;
        self.pending = self.pending - 1;
        proof {
            let parts = self.partitions@;
            let now = self.delivered@;
            let was = old(self).delivered@;
            let want = gathered(self.left@, self.right@, parts, now);
            assert forall|row: int| 0 <= row < before.rows implies #[trigger] self.output@.cells[row]
                == want.cells[row] by {
                if part.contains(row) {
                    assert(now[worker as int] && parts[worker as int].contains(row));
                } else if row_delivered(parts, was, row) {
                    let k = choose|k: int|
                        0 <= k < parts.len() && 0 <= k < was.len() && was[k] && (
                        #[trigger] parts[k]).contains(row);
                    assert(now[k] && parts[k].contains(row));
                } else if row_delivered(parts, now, row) {
                    let k = choose|k: int|
                        0 <= k < parts.len() && 0 <= k < now.len() && now[k] && (
                        #[trigger] parts[k]).contains(row);
                    assert(was[k] && parts[k].contains(row));
                }
            }
            assert(self.output@.cells =~= want.cells);
        }
    }

    /// Hands out the finished product. Every spawned worker must have delivered.
    pub fn finish(self) -> (result: Matrix)
        requires
            self.wf(),
            self.complete(),
        ensures
            result.wf(),
            result@ == product(self.left(), self.right()),
            result@ == self.output(),
    {
        proof {
            lemma_gathered_complete(
                self.left@,
                self.right@,
                self.output.num_of_rows,
                self.worker_count,
                self.delivered@,
            );
        }
        self.output
    }
}

/// Multiplies two matrices with the output rows split among `worker_count`
/// workers, whose partitions are computed one after the other. The result does
/// not depend on the number of workers.
pub fn multiply_with_workers(a: &Matrix, b: &Matrix, worker_count: usize) -> (result: Result<
    Matrix,
    MultiplyError,
>)
    requires
        a.wf(),
        b.wf(),
        worker_count >= 1,
    ensures
        result is Err <==> a@.cols != b@.rows,
        result is Err ==> result->Err_0 == MultiplyError::IncompatibleDimensions,
        result is Ok ==> result->Ok_0.wf() && result->Ok_0@ == product(a@, b@),
        result is Ok ==> result->Ok_0@ == gathered(
            a@,
            b@,
            planned(a@.rows as usize, worker_count),
            Seq::new(planned(a@.rows as usize, worker_count).len(), |k: int| true),
        ),
{
    let mut job = match Multiplication::begin(a, b, worker_count) {
        Err(e) => {
            return Err(e);
        },
        Ok(job) => job,
    };
    let count = job.partitions().len();
    let mut worker: usize = 0;
    while worker < count
        invariant
            a.wf(),
            b.wf(),
            job.wf(),
            job.left() == a@,
            job.right() == b@,
            job.workers() == worker_count,
            worker_count >= 1,
            job.plan() == planned(a@.rows as usize, worker_count),
            count == job.plan().len(),
            worker <= count,
            job.arrivals() == Seq::new(count as nat, |k: int| k < worker),
        decreases count - worker,
    {
        let part = job.partitions()[worker];
        proof {
            lemma_planned_partition(a@.rows as usize, worker_count, worker as int);
        }
        let partial = compute_partition(a, b, part);
        job.deliver(worker, partial);
        assert(job.arrivals() =~= Seq::new(count as nat, |k: int| k < worker + 1));
        worker += 1;
    }
    assert(job.arrivals() =~= Seq::new(count as nat, |k: int| true));
    Ok(job.finish())
}

/// Multiplies two matrices. The number of workers is chosen from the host's
/// parallel capacity, which the caller has asked the host for.
pub fn multiply_matrices(matrix1: Matrix, matrix2: Matrix, capacity: Option<usize>) -> (result: Result<
    Matrix,
    MultiplyError,
>)
    requires
        matrix1.wf(),
        matrix2.wf(),
    ensures
        result is Err <==> matrix1@.cols != matrix2@.rows,
        result is Err ==> result->Err_0 == MultiplyError::IncompatibleDimensions,
        result is Ok ==> result->Ok_0.wf() && result->Ok_0@ == product(matrix1@, matrix2@),
{
    let worker_count = worker_count_for(capacity);
    multiply_with_workers(&matrix1, &matrix2, worker_count)
}

} // verus!
