//! The partition planner: contiguous, disjoint row ranges, one per worker.

use vstd::prelude::*;

verus! {

/// A half-open range of output rows, `[start_row, end_row)`, owned by one worker.
#[derive(Clone, Copy, Debug, PartialEq, Eq, Structural)]
pub struct Partition {
    pub start_row: usize,
    pub end_row: usize,
}

impl Partition {
    /// Whether `row` lies in the range.
    pub open spec fn contains(self, row: int) -> bool {
        self.start_row <= row < self.end_row
    }

    /// The number of rows in the range.
    pub open spec fn spec_len(self) -> int {
        self.end_row - self.start_row
    }

    /// The number of rows in the range.
    pub fn len(&self) -> (n: usize)
        requires
            self.start_row <= self.end_row,
        ensures
            n == self.spec_len(),
    {
        self.end_row - self.start_row
    }
}

/// The share of each worker: `total_rows / worker_count`, rounded up.
pub open spec fn rows_per_worker(total_rows: int, worker_count: int) -> int {
    (total_rows + worker_count - 1) / worker_count
}

/// The first row of the worker with the given index, before clipping.
pub open spec fn worker_start(total_rows: int, worker_count: int, index: int) -> int {
    index * rows_per_worker(total_rows, worker_count)
}

/// One past the last row of the worker with the given index.
pub open spec fn worker_end(total_rows: int, worker_count: int, index: int) -> int {
    let end = worker_start(total_rows, worker_count, index) + rows_per_worker(
        total_rows,
        worker_count,
    );
    if end < total_rows {
        end
    } else {
        total_rows
    }
}

/// A worker gets a partition exactly when its first row exists.
pub open spec fn is_spawned(total_rows: int, worker_count: int, index: int) -> bool {
    0 <= index < worker_count && worker_start(total_rows, worker_count, index) < total_rows
}

/// How many workers get a partition: the rows divided by the share, rounded up.
pub open spec fn spawned_count(total_rows: int, worker_count: int) -> int {
    let share = rows_per_worker(total_rows, worker_count);
    if total_rows <= 0 || share <= 0 {
        0
    } else {
        (total_rows + share - 1) / share
    }
}

/// The partitions planned for `total_rows` rows and `worker_count` workers, in
/// worker order, the empty ones left out.
pub open spec fn planned(total_rows: usize, worker_count: usize) -> Seq<Partition> {
    Seq::new(
        spawned_count(total_rows as int, worker_count as int) as nat,
        |k: int|
            Partition {
                start_row: worker_start(total_rows as int, worker_count as int, k) as usize,
                end_row: worker_end(total_rows as int, worker_count as int, k) as usize,
            },
    )
}

/// Rounding a quotient up: `q = (x + d - 1) / d` is the least `q` with `x <= q * d`.
pub proof fn lemma_round_up(x: int, d: int)
    requires
        0 <= x,
        1 <= d,
    ensures
        ((x + d - 1) / d - 1) * d < x <= ((x + d - 1) / d) * d,
        0 <= (x + d - 1) / d <= x,
{
    let y = x + d - 1;
    let q = y / d;
    let r = y % d;
    vstd::arithmetic::div_mod::lemma_fundamental_div_mod(y, d);
    vstd::arithmetic::div_mod::lemma_mod_bound(y, d);
    assert(d * q == q * d) by (nonlinear_arith);
    assert((q - 1) * d == q * d - d) by (nonlinear_arith);
    assert(0 <= q) by (nonlinear_arith)
        requires
            (q - 1) * d < x,
            (q - 1) * d == q * d - d,
            0 <= x,
            1 <= d,
            x <= q * d,
    ;
    if q > x {
        assert(q * d >= (x + 1) * d) by (nonlinear_arith)
            requires
                q >= x + 1,
                1 <= d,
        ;
        assert((x + 1) * d == x * d + d && x * d >= x) by (nonlinear_arith)
            requires
                0 <= x,
                1 <= d,
        ;
    }
}

/// The rounded-up quotient is the quotient itself when the division is exact,
/// and one more when it is not.
pub proof fn lemma_share_from_quotient(x: int, d: int)
    requires
        0 <= x,
        1 <= d,
    ensures
        (x + d - 1) / d == (if x % d == 0 {
            x / d
        } else {
            x / d + 1
        }),
{
    let q = x / d;
    let r = x % d;
    vstd::arithmetic::div_mod::lemma_fundamental_div_mod(x, d);
    vstd::arithmetic::div_mod::lemma_mod_bound(x, d);
    assert(d * q == q * d) by (nonlinear_arith);
    if r == 0 {
        vstd::arithmetic::div_mod::lemma_fundamental_div_mod_converse(x + d - 1, d, q, d - 1);
    } else {
        assert((q + 1) * d == q * d + d) by (nonlinear_arith);
        vstd::arithmetic::div_mod::lemma_fundamental_div_mod_converse(x + d - 1, d, q + 1, r - 1);
    }
}

/// With at least one row, every worker's share is at least one row.
pub proof fn lemma_share_positive(total_rows: int, worker_count: int)
    requires
        1 <= total_rows,
        1 <= worker_count,
    ensures
        1 <= rows_per_worker(total_rows, worker_count) <= total_rows,
{
    let share = rows_per_worker(total_rows, worker_count);
    lemma_round_up(total_rows, worker_count);
    assert(share >= 1) by (nonlinear_arith)
        requires
            total_rows <= share * worker_count,
            1 <= total_rows,
            1 <= worker_count,
    ;
}

/// The workers that get a partition are the first `spawned_count` ones, and
/// there are never more of them than workers.
pub proof fn lemma_spawned_prefix(total_rows: int, worker_count: int, index: int)
    requires
        0 <= total_rows,
        1 <= worker_count,
        0 <= index < worker_count,
    ensures
        0 <= spawned_count(total_rows, worker_count) <= worker_count,
        is_spawned(total_rows, worker_count, index) <==> index < spawned_count(
            total_rows,
            worker_count,
        ),
{
    let share = rows_per_worker(total_rows, worker_count);
    let count = spawned_count(total_rows, worker_count);
    lemma_round_up(total_rows, worker_count);
    if total_rows == 0 {
        assert(index * share >= 0) by (nonlinear_arith)
            requires
                0 <= index,
                0 <= share,
        ;
    } else {
        lemma_share_positive(total_rows, worker_count);
        lemma_round_up(total_rows, share);
        assert(count <= worker_count) by (nonlinear_arith)
            requires
                (count - 1) * share < total_rows,
                total_rows <= share * worker_count,
                1 <= share,
        ;
        if index < count {
            assert(index * share < total_rows) by (nonlinear_arith)
                requires
                    (count - 1) * share < total_rows,
                    index <= count - 1,
                    1 <= share,
            ;
        } else {
            assert(index * share >= total_rows) by (nonlinear_arith)
                requires
                    total_rows <= count * share,
                    count <= index,
                    1 <= share,
            ;
        }
    }
}

/// Plans the row ranges of `worker_count` workers over `total_rows` output
/// rows. Each worker's share is the rows divided by the workers, rounded up;
/// worker `i` starts at `i` times the share and stops at the share's end or at
/// the last row. Workers whose first row would lie past the last row get no
/// partition, so with no rows the plan is empty.
pub fn plan_partitions(total_rows: usize, worker_count: usize) -> (parts: Vec<Partition>)
    requires
        worker_count >= 1,
    ensures
        parts@ == planned(total_rows, worker_count),
        parts.len() <= worker_count,
        forall|i: int|
            0 <= i < worker_count ==> (is_spawned(total_rows as int, worker_count as int, i) <==> i
                < parts.len()),
{
    proof {
        lemma_round_up(total_rows as int, worker_count as int);
        lemma_share_from_quotient(total_rows as int, worker_count as int);
    }
    let whole: usize = total_rows / worker_count;
    let share: usize = if total_rows % worker_count == 0 {
        whole
    } else {
        whole + 1
    };
    let ghost count = spawned_count(total_rows as int, worker_count as int);
    let mut parts: Vec<Partition> = Vec::new();
    let mut start: usize = 0;
    assert(parts.len() * share == 0) by (nonlinear_arith)
        requires
            parts.len() == 0,
    ;
    while start < total_rows
        invariant
            worker_count >= 1,
            share == rows_per_worker(total_rows as int, worker_count as int),
            count == spawned_count(total_rows as int, worker_count as int),
            start <= total_rows,
            parts.len() <= count,
            start < total_rows ==> start == parts.len() * share,
            start == total_rows ==> parts.len() == count,
            forall|k: int| 0 <= k < parts.len() ==> parts[k] == planned(total_rows, worker_count)[k],
        decreases total_rows - start,
    {
        let ghost k = parts.len() as int;
        proof {
            lemma_share_positive(total_rows as int, worker_count as int);
            lemma_round_up(total_rows as int, share as int);
            assert(k < count) by (nonlinear_arith)
                requires
                    k * share < total_rows,
                    total_rows <= count * share,
                    1 <= share,
            ;
            assert((k + 1) * share == k * share + share) by (nonlinear_arith);
            if start + share >= total_rows {
                assert(k + 1 >= count) by (nonlinear_arith)
                    requires
                        (count - 1) * share < total_rows,
                        (k + 1) * share >= total_rows,
                        1 <= share,
                ;
            }
        }
        let rest: usize = total_rows - start;
        let taken: usize = if share < rest {
            share
        } else {
            rest
        };
        let end: usize = start + taken;
        parts.push(Partition { start_row: start, end_row: end });
        start = end;
    }
    proof {
        if total_rows == 0 {
            assert(count == 0);
        }
        assert(parts@ =~= planned(total_rows, worker_count));
        lemma_spawned_prefix(total_rows as int, worker_count as int, 0);
        assert forall|i: int| 0 <= i < worker_count implies (is_spawned(
            total_rows as int,
            worker_count as int,
            i,
        ) <==> i < parts.len()) by {
            lemma_spawned_prefix(total_rows as int, worker_count as int, i);
        }
    }
    parts
}

/// Whether some partition holds `row`.
pub open spec fn covered(parts: Seq<Partition>, row: int) -> bool {
    exists|k: int| 0 <= k < parts.len() && (#[trigger] parts[k]).contains(row)
}

/// Every partition lies within the rows, every row lies in some partition, and
/// no row lies in two.
pub open spec fn covers_once(parts: Seq<Partition>, total_rows: int) -> bool {
    &&& forall|k: int|
        0 <= k < parts.len() ==> 0 <= (#[trigger] parts[k]).start_row <= parts[k].end_row
            <= total_rows
    &&& forall|row: int| 0 <= row < total_rows ==> #[trigger] covered(parts, row)
    &&& forall|j: int, k: int, row: int|
        0 <= j < parts.len() && 0 <= k < parts.len() && #[trigger] parts[j].contains(row)
            && #[trigger] parts[k].contains(row) ==> j == k
}

/// The partitions follow one another without a gap: the first starts at row 0,
/// each next one starts where the one before it ends, the last ends at the last
/// row, and none is empty.
pub open spec fn contiguous(parts: Seq<Partition>, total_rows: int) -> bool {
    &&& parts.len() == 0 <==> total_rows == 0
    &&& parts.len() > 0 ==> parts[0].start_row == 0 && parts[parts.len() - 1].end_row == total_rows
    &&& forall|k: int| 0 <= k < parts.len() ==> (#[trigger] parts[k]).start_row < parts[k].end_row
    &&& forall|k: int|
        0 <= k < parts.len() - 1 ==> (#[trigger] parts[k]).end_row == parts[k + 1].start_row
}

/// The planned partition of worker `index`, written out: it starts at `index`
/// times the share, is not empty, and holds at most one share of rows.
pub proof fn lemma_planned_partition(total_rows: usize, worker_count: usize, index: int)
    requires
        worker_count >= 1,
        0 <= index < planned(total_rows, worker_count).len(),
    ensures
        planned(total_rows, worker_count)[index].start_row == worker_start(
            total_rows as int,
            worker_count as int,
            index,
        ),
        planned(total_rows, worker_count)[index].end_row == worker_end(
            total_rows as int,
            worker_count as int,
            index,
        ),
        planned(total_rows, worker_count)[index].start_row < planned(
            total_rows,
            worker_count,
        )[index].end_row <= total_rows,
        planned(total_rows, worker_count)[index].spec_len() <= rows_per_worker(
            total_rows as int,
            worker_count as int,
        ),
        index < worker_count,
        index < planned(total_rows, worker_count).len() - 1 ==> planned(
            total_rows,
            worker_count,
        )[index].end_row == worker_start(total_rows as int, worker_count as int, index + 1),
        index == planned(total_rows, worker_count).len() - 1 ==> planned(
            total_rows,
            worker_count,
        )[index].end_row == total_rows,
{
    let total = total_rows as int;
    let share = rows_per_worker(total, worker_count as int);
    let count = spawned_count(total, worker_count as int);
    lemma_round_up(total, worker_count as int);
    lemma_spawned_prefix(total, worker_count as int, 0);
    lemma_round_up(total, share);
    assert(0 <= index * share < total && (index + 1) * share == index * share + share) by (nonlinear_arith)
        requires
            0 <= index <= count - 1,
            (count - 1) * share < total,
            1 <= share,
    ;
    if index < count - 1 {
        assert((index + 1) * share < total) by (nonlinear_arith)
            requires
                index + 1 <= count - 1,
                (count - 1) * share < total,
                1 <= share,
        ;
    } else {
        assert((index + 1) * share >= total) by (nonlinear_arith)
            requires
                index + 1 == count,
                total <= count * share,
        ;
    }
}

/// For every number of rows and every positive number of workers, the planned
/// partitions cover the rows exactly once: no gap, no overlap, and no partition
/// that starts after it ends.
pub proof fn lemma_plan_covers_once(total_rows: usize, worker_count: usize)
    requires
        worker_count >= 1,
    ensures
        covers_once(planned(total_rows, worker_count), total_rows as int),
        contiguous(planned(total_rows, worker_count), total_rows as int),
        forall|k: int|
            0 <= k < planned(total_rows, worker_count).len() ==> (#[trigger] planned(
                total_rows,
                worker_count,
            )[k]).spec_len() <= rows_per_worker(total_rows as int, worker_count as int),
{
    let parts = planned(total_rows, worker_count);
    let total = total_rows as int;
    let share = rows_per_worker(total, worker_count as int);
    let count = spawned_count(total, worker_count as int);
    lemma_round_up(total, worker_count as int);
    lemma_spawned_prefix(total, worker_count as int, 0);
    assert forall|k: int| 0 <= k < parts.len() implies 0 <= (#[trigger] parts[k]).start_row
        < parts[k].end_row <= total && parts[k].spec_len() <= share by {
        lemma_planned_partition(total_rows, worker_count, k);
    }
    assert forall|k: int| 0 <= k < parts.len() - 1 implies (#[trigger] parts[k]).end_row
        == parts[k + 1].start_row by {
        lemma_planned_partition(total_rows, worker_count, k);
        lemma_planned_partition(total_rows, worker_count, k + 1);
    }
    if parts.len() > 0 {
        lemma_planned_partition(total_rows, worker_count, 0);
        lemma_planned_partition(total_rows, worker_count, parts.len() - 1);
    }
    assert forall|row: int| 0 <= row < total implies #[trigger] covered(parts, row) by {
        let k = lemma_owner(total_rows, worker_count, row);
        assert(parts[k].contains(row));
    }
    assert forall|j: int, k: int, row: int|
        0 <= j < parts.len() && 0 <= k < parts.len() && #[trigger] parts[j].contains(row)
            && #[trigger] parts[k].contains(row) implies j == k by {
        lemma_planned_partition(total_rows, worker_count, j);
        lemma_planned_partition(total_rows, worker_count, k);
        if j < k {
            assert((j + 1) * share <= k * share) by (nonlinear_arith)
                requires
                    j + 1 <= k,
                    0 <= share,
            ;
        }
        if k < j {
            assert((k + 1) * share <= j * share) by (nonlinear_arith)
                requires
                    k + 1 <= j,
                    0 <= share,
            ;
        }
    }
}

/// The worker that owns `row`: the row's index divided by the share.
pub proof fn lemma_owner(total_rows: usize, worker_count: usize, row: int) -> (k: int)
    requires
        worker_count >= 1,
        0 <= row < total_rows,
    ensures
        k == row / rows_per_worker(total_rows as int, worker_count as int),
        0 <= k < planned(total_rows, worker_count).len(),
        planned(total_rows, worker_count)[k].contains(row),
{
    let total = total_rows as int;
    let share = rows_per_worker(total, worker_count as int);
    let count = spawned_count(total, worker_count as int);
    lemma_share_positive(total, worker_count as int);
    lemma_round_up(total, share);
    let k = row / share;
    vstd::arithmetic::div_mod::lemma_fundamental_div_mod(row, share);
    vstd::arithmetic::div_mod::lemma_mod_bound(row, share);
    assert(share * k == k * share && (k + 1) * share == k * share + share) by (nonlinear_arith);
    assert(0 <= k < count) by (nonlinear_arith)
        requires
            k * share <= row,
            row < k * share + share,
            0 <= row < total,
            total <= count * share,
            1 <= share,
    ;
    lemma_planned_partition(total_rows, worker_count, k);
    k
}

} // verus!
