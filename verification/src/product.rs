//! What the product of two matrices is, and the algebra that holds of it.

use crate::matrix::{identity_matrix, zero_matrix, MatrixView};
use vstd::prelude::*;
use vstd::wrapping::i32_specs;

verus! {

/// The 32-bit two's complement value of an integer: the one value in the range
/// of `i32` that differs from it by a multiple of 2^32.
pub open spec fn wrapped(x: int) -> i32 {
    i32_specs::signed_crop(x)
}

/// The sum of the first `terms` products `a[row][k] * b[k][col]`, as an
/// unbounded integer.
pub open spec fn dot_prefix(a: MatrixView, b: MatrixView, row: int, col: int, terms: nat) -> int
    decreases terms,
{
    if terms == 0 {
        0
    } else {
        dot_prefix(a, b, row, col, (terms - 1) as nat) + a.cells[row][terms - 1] * b.cells[terms
            - 1][col]
    }
}

/// One cell of the product: the dot product of a row of `a` and a column of
/// `b`, in 32-bit wraparound arithmetic.
pub open spec fn product_cell(a: MatrixView, b: MatrixView, row: int, col: int) -> i32 {
    wrapped(dot_prefix(a, b, row, col, a.cols))
}

/// One row of the product.
pub open spec fn product_row(a: MatrixView, b: MatrixView, row: int) -> Seq<i32> {
    Seq::new(b.cols, |col: int| product_cell(a, b, row, col))
}

/// The product of `a` and `b`: as many rows as `a`, as many columns as `b`.
pub open spec fn product(a: MatrixView, b: MatrixView) -> MatrixView {
    MatrixView { rows: a.rows, cols: b.cols, cells: Seq::new(a.rows, |row: int| product_row(a, b, row)) }
}

/// A value of `i32` is its own wrapped value.
pub proof fn lemma_wrapped_fixed(x: i32)
    ensures
        wrapped(x as int) == x,
{
    let range = 0x1_0000_0000int;
    if x >= 0 {
        vstd::arithmetic::div_mod::lemma_fundamental_div_mod_converse(x as int, range, 0, x as int);
    } else {
        vstd::arithmetic::div_mod::lemma_fundamental_div_mod_converse(
            x as int,
            range,
            -1,
            x + range,
        );
    }
}

/// The wrapped value differs from the integer by a multiple of 2^32.
pub proof fn lemma_wrapped_congruent(x: int)
    ensures
        (wrapped(x) as int) % 0x1_0000_0000 == x % 0x1_0000_0000,
{
    let range = 0x1_0000_0000int;
    let low = x % range;
    vstd::arithmetic::div_mod::lemma_mod_bound(x, range);
    if low > i32::MAX {
        vstd::arithmetic::div_mod::lemma_fundamental_div_mod_converse(low - range, range, -1, low);
    } else {
        vstd::arithmetic::div_mod::lemma_fundamental_div_mod_converse(low, range, 0, low);
    }
}

/// Two values of `i32` that differ by a multiple of 2^32 are equal.
pub proof fn lemma_congruent_equal(x: i32, y: i32)
    requires
        (x as int) % 0x1_0000_0000 == (y as int) % 0x1_0000_0000,
    ensures
        x == y,
{
    lemma_wrapped_fixed(x);
    lemma_wrapped_fixed(y);
}

/// Wrapping addition of wrapped values is the wrapped value of the sum.
pub proof fn lemma_wrapping_add(x: int, y: int)
    ensures
        i32_specs::wrapping_add(wrapped(x), wrapped(y)) == wrapped(x + y),
{
    let range = 0x1_0000_0000int;
    let a = wrapped(x);
    let b = wrapped(y);
    let sum = i32_specs::wrapping_add(a, b);
    lemma_wrapped_congruent(x);
    lemma_wrapped_congruent(y);
    lemma_wrapped_congruent(x + y);
    vstd::arithmetic::div_mod::lemma_add_mod_noop(a as int, b as int, range);
    vstd::arithmetic::div_mod::lemma_add_mod_noop(x, y, range);
    assert((a + b) % range == (x + y) % range);
    if a + b > i32::MAX {
        vstd::arithmetic::div_mod::lemma_mod_multiples_vanish(-1, a + b, range);
    } else if a + b < i32::MIN {
        vstd::arithmetic::div_mod::lemma_mod_multiples_vanish(1, a + b, range);
    }
    assert((sum as int) % range == (x + y) % range);
    lemma_congruent_equal(sum, wrapped(x + y));
}

/// One more term of a dot product, computed with wrapping operations from the
/// wrapped sum of the terms before it.
pub proof fn lemma_dot_step(a: MatrixView, b: MatrixView, row: int, col: int, terms: nat)
    requires
        terms >= 1,
    ensures
        i32_specs::wrapping_add(
            wrapped(dot_prefix(a, b, row, col, (terms - 1) as nat)),
            i32_specs::wrapping_mul(a.cells[row][terms - 1], b.cells[terms - 1][col]),
        ) == wrapped(dot_prefix(a, b, row, col, terms)),
{
    lemma_wrapping_add(
        dot_prefix(a, b, row, col, (terms - 1) as nat),
        a.cells[row][terms - 1] * b.cells[terms - 1][col],
    );
}

/// The product has the rows of the left operand and the columns of the right
/// one, and is well shaped.
pub proof fn lemma_product_shaped(a: MatrixView, b: MatrixView)
    ensures
        product(a, b).rows == a.rows,
        product(a, b).cols == b.cols,
        product(a, b).shaped(),
{
}

/// A dot product with a column of the identity picks one cell of the row.
proof fn lemma_dot_identity_right(a: MatrixView, row: int, col: int, terms: nat)
    requires
        a.shaped(),
        0 <= row < a.rows,
        0 <= col < a.cols,
        terms <= a.cols,
    ensures
        dot_prefix(a, identity_matrix(a.cols), row, col, terms) == (if col < terms {
            a.cells[row][col] as int
        } else {
            0
        }),
    decreases terms,
{
    if terms > 0 {
        lemma_dot_identity_right(a, row, col, (terms - 1) as nat);
        let unit = identity_matrix(a.cols).cells[terms - 1][col];
        let cell = a.cells[row][terms - 1];
        assert(cell * unit == if col == terms - 1 {
            cell as int
        } else {
            0
        }) by (nonlinear_arith)
            requires
                unit == if col == terms - 1 {
                    1i32
                } else {
                    0i32
                },
        ;
    }
}

/// A dot product with a row of the identity picks one cell of the column.
proof fn lemma_dot_identity_left(b: MatrixView, row: int, col: int, terms: nat)
    requires
        b.shaped(),
        0 <= row < b.rows,
        0 <= col < b.cols,
        terms <= b.rows,
    ensures
        dot_prefix(identity_matrix(b.rows), b, row, col, terms) == (if row < terms {
            b.cells[row][col] as int
        } else {
            0
        }),
    decreases terms,
{
    if terms > 0 {
        lemma_dot_identity_left(b, row, col, (terms - 1) as nat);
        let unit = identity_matrix(b.rows).cells[row][terms - 1];
        let cell = b.cells[terms - 1][col];
        assert(unit * cell == if row == terms - 1 {
            cell as int
        } else {
            0
        }) by (nonlinear_arith)
            requires
                unit == if row == terms - 1 {
                    1i32
                } else {
                    0i32
                },
        ;
    }
}

/// A dot product with a column of zeros is zero.
proof fn lemma_dot_zero_right(a: MatrixView, cols: nat, row: int, col: int, terms: nat)
    requires
        0 <= col < cols,
        terms <= a.cols,
    ensures
        dot_prefix(a, zero_matrix(a.cols, cols), row, col, terms) == 0,
    decreases terms,
{
    if terms > 0 {
        lemma_dot_zero_right(a, cols, row, col, (terms - 1) as nat);
        let cell = a.cells[row][terms - 1];
        assert(cell * 0 == 0) by (nonlinear_arith);
    }
}

/// A dot product with a row of zeros is zero.
proof fn lemma_dot_zero_left(rows: nat, b: MatrixView, row: int, col: int, terms: nat)
    requires
        0 <= row < rows,
        terms <= b.rows,
    ensures
        dot_prefix(zero_matrix(rows, b.rows), b, row, col, terms) == 0,
    decreases terms,
{
    if terms > 0 {
        lemma_dot_zero_left(rows, b, row, col, (terms - 1) as nat);
        let cell = b.cells[terms - 1][col];
        assert(0 * cell == 0) by (nonlinear_arith);
    }
}

/// Multiplying a matrix on the right by the identity of matching size gives the
/// matrix back unchanged.
pub proof fn lemma_identity_right(a: MatrixView)
    requires
        a.shaped(),
    ensures
        product(a, identity_matrix(a.cols)) == a,
{
    let unit = identity_matrix(a.cols);
    let got = product(a, unit);
    assert forall|row: int| 0 <= row < a.rows implies #[trigger] got.cells[row] == a.cells[row] by {
        assert forall|col: int| 0 <= col < a.cols implies #[trigger] got.cells[row][col]
            == a.cells[row][col] by {
            lemma_dot_identity_right(a, row, col, a.cols);
            lemma_wrapped_fixed(a.cells[row][col]);
        }
        assert(got.cells[row] =~= a.cells[row]);
    }
    assert(got.cells =~= a.cells);
}

/// Multiplying a matrix on the left by the identity of matching size gives the
/// matrix back unchanged.
pub proof fn lemma_identity_left(b: MatrixView)
    requires
        b.shaped(),
    ensures
        product(identity_matrix(b.rows), b) == b,
{
    let unit = identity_matrix(b.rows);
    let got = product(unit, b);
    assert forall|row: int| 0 <= row < b.rows implies #[trigger] got.cells[row] == b.cells[row] by {
        assert forall|col: int| 0 <= col < b.cols implies #[trigger] got.cells[row][col]
            == b.cells[row][col] by {
            lemma_dot_identity_left(b, row, col, b.rows);
            lemma_wrapped_fixed(b.cells[row][col]);
        }
        assert(got.cells[row] =~= b.cells[row]);
    }
    assert(got.cells =~= b.cells);
}

/// Multiplying any matrix on the right by a zero matrix of matching row count
/// gives the zero matrix of the product's dimensions.
pub proof fn lemma_zero_right(a: MatrixView, cols: nat)
    ensures
        product(a, zero_matrix(a.cols, cols)) == zero_matrix(a.rows, cols),
{
    let got = product(a, zero_matrix(a.cols, cols));
    let zero = zero_matrix(a.rows, cols);
    lemma_wrapped_fixed(0);
    assert forall|row: int| 0 <= row < a.rows implies #[trigger] got.cells[row]
        == zero.cells[row] by {
        assert forall|col: int| 0 <= col < cols implies #[trigger] got.cells[row][col] == 0i32 by {
            lemma_dot_zero_right(a, cols, row, col, a.cols);
        }
        assert(got.cells[row] =~= zero.cells[row]);
    }
    assert(got.cells =~= zero.cells);
}

/// Multiplying any matrix on the left by a zero matrix of matching column count
/// gives the zero matrix of the product's dimensions.
pub proof fn lemma_zero_left(rows: nat, b: MatrixView)
    ensures
        product(zero_matrix(rows, b.rows), b) == zero_matrix(rows, b.cols),
{
    let got = product(zero_matrix(rows, b.rows), b);
    let zero = zero_matrix(rows, b.cols);
    lemma_wrapped_fixed(0);
    assert forall|row: int| 0 <= row < rows implies #[trigger] got.cells[row] == zero.cells[row] by {
        assert forall|col: int| 0 <= col < b.cols implies #[trigger] got.cells[row][col]
            == 0i32 by {
            lemma_dot_zero_left(rows, b, row, col, b.rows);
        }
        assert(got.cells[row] =~= zero.cells[row]);
    }
    assert(got.cells =~= zero.cells);
}

} // verus!
