//! The matrix: a fixed-size grid of integers with its row and column counts,
//! and the mathematical product that the engine computes.

use vstd::prelude::*;

verus! {

/// The mathematical value of a matrix: its dimensions and its cells, row by row.
pub struct MatrixView {
    pub rows: nat,
    pub cols: nat,
    pub cells: Seq<Seq<i32>>,
}

impl MatrixView {
    /// There are `rows` rows and each holds `cols` cells.
    pub open spec fn shaped(self) -> bool {
        &&& self.cells.len() == self.rows
        &&& forall|i: int| 0 <= i < self.rows ==> (#[trigger] self.cells[i]).len() == self.cols
    }

    /// The same matrix with row `index` replaced.
    pub open spec fn with_row(self, index: int, row: Seq<i32>) -> MatrixView {
        MatrixView { rows: self.rows, cols: self.cols, cells: self.cells.update(index, row) }
    }
}

/// The matrix of the given dimensions whose cells are all zero.
pub open spec fn zero_matrix(rows: nat, cols: nat) -> MatrixView {
    MatrixView {
        rows,
        cols,
        cells: Seq::new(rows, |i: int| Seq::new(cols, |j: int| 0i32)),
    }
}

/// The square matrix with ones on the diagonal and zeros elsewhere.
pub open spec fn identity_matrix(size: nat) -> MatrixView {
    MatrixView {
        rows: size,
        cols: size,
        cells: Seq::new(
            size,
            |i: int|
                Seq::new(
                    size,
                    |j: int|
                        if i == j {
                            1i32
                        } else {
                            0i32
                        },
                ),
        ),
    }
}

/// A fixed-size grid of integers. Every row holds `num_of_cols` elements and
/// there are `num_of_rows` rows.
#[derive(Debug)]
pub struct Matrix {
    pub(crate) num_of_rows: usize,
    pub(crate) num_of_cols: usize,
    pub(crate) elements: Vec<Vec<i32>>,
}

impl View for Matrix {
    type V = MatrixView;

    open(crate) spec fn view(&self) -> MatrixView {
        MatrixView {
            rows: self.num_of_rows as nat,
            cols: self.num_of_cols as nat,
            cells: Seq::new(self.elements@.len(), |i: int| self.elements@[i]@),
        }
    }
}

/// Whether the rows handed to a constructor have the declared shape.
pub open spec fn rows_fit(num_of_rows: usize, num_of_cols: usize, elements: Seq<Vec<i32>>) -> bool {
    &&& elements.len() == num_of_rows
    &&& forall|i: int| 0 <= i < elements.len() ==> (#[trigger] elements[i]).len() == num_of_cols
}

impl Matrix {
    /// The invariant of the type: the stored rows have the stored shape.
    pub open(crate) spec fn wf(&self) -> bool {
        rows_fit(self.num_of_rows, self.num_of_cols, self.elements@)
    }

    /// A well-formed matrix has a well-shaped value.
    pub proof fn lemma_shaped(&self)
        requires
            self.wf(),
        ensures
            self@.shaped(),
    {
    }

    /// Builds a matrix from its rows. The rows must number `num_of_rows` and each
    /// must hold `num_of_cols` elements; otherwise there is no such matrix.
    pub fn new(num_of_rows: usize, num_of_cols: usize, elements: Vec<Vec<i32>>) -> (made: Option<
        Matrix,
    >)
        ensures
            made is Some <==> rows_fit(num_of_rows, num_of_cols, elements@),
            made is Some ==> made->0.wf() && made->0@ == (MatrixView {
                rows: num_of_rows as nat,
                cols: num_of_cols as nat,
                cells: Seq::new(elements@.len(), |i: int| elements@[i]@),
            }),
    {
        if elements.len() != num_of_rows {
            return None;
        }
        let mut i: usize = 0;
        while i < elements.len()
            invariant
                i <= elements.len(),
                forall|k: int| 0 <= k < i ==> (#[trigger] elements@[k]).len() == num_of_cols,
            decreases elements.len() - i,
        {
            if elements[i].len() != num_of_cols {
                return None;
            }
            i += 1;
        }
        Some(Matrix { num_of_rows, num_of_cols, elements })
    }

    /// The matrix of the given dimensions with every element zero.
    pub fn zeros(num_of_rows: usize, num_of_cols: usize) -> (made: Matrix)
        ensures
            made.wf(),
            made@ == zero_matrix(num_of_rows as nat, num_of_cols as nat),
    {
        let mut elements: Vec<Vec<i32>> = Vec::new();
        let mut i: usize = 0;
        while i < num_of_rows
            invariant
                i <= num_of_rows,
                elements.len() == i,
                forall|k: int|
                    0 <= k < i ==> (#[trigger] elements@[k])@ == Seq::new(
                        num_of_cols as nat,
                        |j: int| 0i32,
                    ),
            decreases num_of_rows - i,
        {
            elements.push(zero_row(num_of_cols));
            i += 1;
        }
        let made = Matrix { num_of_rows, num_of_cols, elements };
        assert(made@.cells =~= zero_matrix(num_of_rows as nat, num_of_cols as nat).cells);
        made
    }

    /// The number of rows.
    pub fn num_of_rows(&self) -> (n: usize)
        ensures
            n == self@.rows,
    {
        self.num_of_rows
    }

    /// The number of columns.
    pub fn num_of_cols(&self) -> (n: usize)
        ensures
            n == self@.cols,
    {
        self.num_of_cols
    }

    /// The element at the given row and column, where there is one.
    pub fn get(&self, row: usize, col: usize) -> (found: Option<i32>)
        requires
            self.wf(),
        ensures
            found == (if row < self@.rows && col < self@.cols {
                Some(self@.cells[row as int][col as int])
            } else {
                None
            }),
    {
        if row < self.num_of_rows && col < self.num_of_cols {
            Some(self.elements[row][col])
        } else {
            None
        }
    }

    /// The rows, in order.
    pub fn elements(&self) -> (rows: &Vec<Vec<i32>>)
        ensures
            rows@.len() == self@.cells.len(),
            forall|i: int| 0 <= i < rows@.len() ==> (#[trigger] rows@[i])@ == self@.cells[i],
    {
        &self.elements
    }
}

impl Default for Matrix {
    /// The matrix with no rows and no columns.
    fn default() -> (made: Matrix)
        ensures
            made.wf(),
            made@ == zero_matrix(0, 0),
    {
        let made = Matrix { num_of_rows: 0, num_of_cols: 0, elements: Vec::new() };
        assert(made@.cells =~= zero_matrix(0, 0).cells);
        made
    }
}

/// A row of `len` zeros.
pub fn zero_row(len: usize) -> (row: Vec<i32>)
    ensures
        row@ == Seq::new(len as nat, |j: int| 0i32),
{
    let mut row: Vec<i32> = Vec::new();
    let mut j: usize = 0;
    while j < len
        invariant
            j <= len,
            row.len() == j,
            forall|k: int| 0 <= k < j ==> row@[k] == 0i32,
        decreases len - j,
    {
        row.push(0);
        j += 1;
    }
    assert(row@ =~= Seq::new(len as nat, |j: int| 0i32));
    row
}

} // verus!
