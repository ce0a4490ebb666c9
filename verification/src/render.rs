//! The text of a matrix for display: a title line, then one indented line for
//! each row.

use crate::matrix::{Matrix, MatrixView};
use crate::numbers::{all_digits, digits_value, is_digit, token_value};
use vstd::prelude::*;
use vstd::string::StringExecFns;

verus! {

/// The character of a decimal digit.
pub open spec fn digit_char(digit: int) -> char {
    (digit + 48) as u8 as char
}

/// The decimal digits of a natural number, without leading zeros.
pub open spec fn decimal_digits(n: nat) -> Seq<char>
    decreases n,
{
    if n < 10 {
        seq![digit_char(n as int)]
    } else {
        decimal_digits(n / 10).push(digit_char((n % 10) as int))
    }
}

/// An integer in decimal, with a minus sign where it is negative.
pub open spec fn decimal(n: int) -> Seq<char> {
    if n < 0 {
        seq!['-'] + decimal_digits((-n) as nat)
    } else {
        decimal_digits(n as nat)
    }
}

/// The elements of a row, each in decimal and followed by one space.
pub open spec fn cells_text(row: Seq<i32>) -> Seq<char>
    decreases row.len(),
{
    if row.len() == 0 {
        Seq::empty()
    } else {
        cells_text(row.drop_last()) + decimal(row.last() as int) + seq![' ']
    }
}

/// One line for each row: four spaces, the row's elements, a line feed.
pub open spec fn rows_text(cells: Seq<Seq<i32>>) -> Seq<char>
    decreases cells.len(),
{
    if cells.len() == 0 {
        Seq::empty()
    } else {
        rows_text(cells.drop_last()) + seq![' ', ' ', ' ', ' '] + cells_text(cells.last())
            + seq!['\n']
    }
}

/// The text of a matrix under a title: the title, a colon and a line feed,
/// then the rows.
pub open spec fn rendered(title: Seq<char>, matrix: MatrixView) -> Seq<char> {
    title + seq![':', '\n'] + rows_text(matrix.cells)
}

/// The decimal digits of a number are a digit string that stands for it.
pub proof fn lemma_digits_read_back(n: nat)
    ensures
        all_digits(decimal_digits(n)),
        digits_value(decimal_digits(n)) == n,
    decreases n,
{
    if n < 10 {
        assert(decimal_digits(n).drop_last() =~= Seq::<char>::empty());
        assert(digits_value(decimal_digits(n).drop_last()) == 0);
    } else {
        lemma_digits_read_back(n / 10);
        assert(decimal_digits(n).drop_last() =~= decimal_digits(n / 10));
    }
}

/// What is written for an integer of 32 bits is a token that reads back as the
/// same integer.
pub proof fn lemma_decimal_reads_back(n: i32)
    ensures
        token_value(decimal(n as int)) == Some(n),
{
    if n < 0 {
        lemma_digits_read_back((-n) as nat);
        assert(decimal(n as int).drop_first() =~= decimal_digits((-n) as nat));
    } else {
        lemma_digits_read_back(n as nat);
        assert(is_digit(decimal_digits(n as nat)[0]));
    }
}

/// The text of one decimal digit.
fn digit_text(digit: u32) -> (text: &'static str)
    requires
        digit < 10,
    ensures
        text@ == seq![digit_char(digit as int)],
{
    proof {
        reveal_strlit("0");
        reveal_strlit("1");
        reveal_strlit("2");
        reveal_strlit("3");
        reveal_strlit("4");
        reveal_strlit("5");
        reveal_strlit("6");
        reveal_strlit("7");
        reveal_strlit("8");
        reveal_strlit("9");
    }
    let text = match digit {
        0 => "0",
        1 => "1",
        2 => "2",
        3 => "3",
        4 => "4",
        5 => "5",
        6 => "6",
        7 => "7",
        8 => "8",
        _ => "9",
    };
    assert(text@ =~= seq![digit_char(digit as int)]);
    text
}

/// Appends the decimal digits of `n` to `out`.
fn push_digits(out: &mut String, n: u32)
    ensures
        final(out)@ == old(out)@ + decimal_digits(n as nat),
    decreases n,
{
    if n >= 10 {
        push_digits(out, n / 10);
    }
    out.append(digit_text(n % 10));
    assert(out@ =~= old(out)@ + decimal_digits(n as nat));
}

/// Appends `n` in decimal to `out`.
pub fn push_decimal(out: &mut String, n: i32)
    ensures
        final(out)@ == old(out)@ + decimal(n as int),
{
    if n < 0 {
        proof {
            reveal_strlit("-");
        }
        out.append("-");
        let magnitude: u32 = if n == i32::MIN {
            0x8000_0000
        } else {
            (-n) as u32
        };
        push_digits(out, magnitude);
        assert(out@ =~= old(out)@ + decimal(n as int));
    } else {
        push_digits(out, n as u32);
    }
}

impl Matrix {
    /// The text that shows the matrix under `title`.
    pub fn to_text(&self, title: &str) -> (text: String)
        requires
            self.wf(),
        ensures
            text@ == rendered(title@, self@),
    {
        let mut text = String::new();
        text.append(title);
        text.append(":\n");
        proof {
            reveal_strlit(":\n");
            assert(text@ =~= title@ + seq![':', '\n'] + rows_text(self@.cells.take(0)));
        }
        let mut i: usize = 0;
        while i < self.elements.len()
            invariant
                self.wf(),
                i <= self.elements.len(),
                text@ == title@ + seq![':', '\n'] + rows_text(self@.cells.take(i as int)),
            decreases self.elements.len() - i,
        {
            let ghost before = text@;
            let row = &self.elements[i];
            text.append("    ");
            proof {
                reveal_strlit("    ");
                assert(text@ =~= before + seq![' ', ' ', ' ', ' '] + cells_text(row@.take(0)));
            }
            let mut j: usize = 0;
            while j < row.len()
                invariant
                    j <= row.len(),
                    text@ == before + seq![' ', ' ', ' ', ' '] + cells_text(row@.take(j as int)),
                decreases row.len() - j,
            {
                push_decimal(&mut text, row[j]);
                text.append(" ");
                proof {
                    reveal_strlit(" ");
                    assert(row@.take(j + 1).drop_last() =~= row@.take(j as int));
                    assert(text@ =~= before + seq![' ', ' ', ' ', ' '] + cells_text(
                        row@.take(j + 1),
                    ));
                }
                j += 1;
            }
            text.append("\n");
            proof {
                reveal_strlit("\n");
                assert(row@.take(row@.len() as int) =~= row@);
                assert(self@.cells.take(i + 1).drop_last() =~= self@.cells.take(i as int));
                assert(self@.cells.take(i + 1).last() == row@);
                assert(text@ =~= title@ + seq![':', '\n'] + rows_text(self@.cells.take(i + 1)));
            }
            i += 1;
        }
        assert(self@.cells.take(i as int) =~= self@.cells);
        text
    }
}

} // verus!
