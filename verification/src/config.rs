//! The input of a run: the path named on the command line and the two
//! matrices that the text of that file describes.

use crate::matrix::{zero_matrix, Matrix, MatrixView};
use crate::numbers::{numbers_in, parse_numbers};
use vstd::prelude::*;

verus! {

/// Why no configuration could be built.
#[derive(Clone, Copy, Debug, PartialEq, Eq, Structural)]
pub enum ConfigError {
    /// The command line names no input file.
    NotEnoughArguments,
    /// The text holds a token that is no 32-bit integer, a negative dimension,
    /// or fewer integers than the declared dimensions call for.
    MalformedInput,
}

impl ConfigError {
    /// A short description for the user.
    pub fn message(&self) -> (text: &'static str)
        ensures
            text@ == (match *self {
                ConfigError::NotEnoughArguments => "not enough arguments"@,
                ConfigError::MalformedInput => "malformed input"@,
            }),
    {
        match self {
            ConfigError::NotEnoughArguments => "not enough arguments",
            ConfigError::MalformedInput => "malformed input",
        }
    }
}

/// The `rows` times `cols` integers that start at position `at`, row by row.
pub open spec fn cells_at(numbers: Seq<i32>, at: int, rows: nat, cols: nat) -> Seq<Seq<i32>> {
    Seq::new(rows, |i: int| Seq::new(cols, |j: int| numbers[at + i * cols + j]))
}

/// The matrix that the integers from position `at` on describe, and the
/// position after it: a row count, a column count, neither negative, and then
/// the elements row by row. Where an integer is missing there is no matrix.
pub open spec fn matrix_at(numbers: Seq<i32>, at: int) -> Option<(MatrixView, int)> {
    if 0 <= at && at + 2 <= numbers.len() && numbers[at] >= 0 && numbers[at + 1] >= 0 && at + 2
        + numbers[at] * numbers[at + 1] <= numbers.len() {
        let rows = numbers[at] as nat;
        let cols = numbers[at + 1] as nat;
        Some(
            (
                MatrixView { rows, cols, cells: cells_at(numbers, at + 2, rows, cols) },
                at + 2 + rows * cols,
            ),
        )
    } else {
        None
    }
}

/// The two matrices that a sequence of integers describes, one after the
/// other. Integers after the second matrix are of no account.
pub open spec fn matrices_in(numbers: Seq<i32>) -> Option<(MatrixView, MatrixView)> {
    match matrix_at(numbers, 0) {
        Some((one, next)) => match matrix_at(numbers, next) {
            Some((two, _)) => Some((one, two)),
            None => None,
        },
        None => None,
    }
}

/// The two matrices that a text describes.
pub open spec fn described(text: Seq<char>) -> Option<(MatrixView, MatrixView)> {
    match numbers_in(text) {
        Some(numbers) => matrices_in(numbers),
        None => None,
    }
}

/// Reads one matrix out of `numbers`, starting at position `at`, and says where
/// the next one would start.
pub fn read_matrix(numbers: &Vec<i32>, at: usize) -> (read: Option<(Matrix, usize)>)
    ensures
        read is Some <==> matrix_at(numbers@, at as int) is Some,
        read matches Some((matrix, next)) ==> matrix.wf() && matrix_at(numbers@, at as int)
            == Some((matrix@, next as int)),
{
    if at > numbers.len() || numbers.len() - at < 2 {
        return None;
    }
    let declared_rows: i32 = numbers[at];
    let declared_cols: i32 = numbers[at + 1];
    if declared_rows < 0 || declared_cols < 0 {
        return None;
    }
    let num_of_rows: usize = declared_rows as usize;
    let num_of_cols: usize = declared_cols as usize;
    let available: usize = numbers.len() - at - 2;
    assert(declared_rows * declared_cols <= 0x4000_0000_0000_0000) by (nonlinear_arith)
        requires
            0 <= declared_rows <= 0x7FFF_FFFF,
            0 <= declared_cols <= 0x7FFF_FFFF,
    ;
    let needed: u64 = declared_rows as u64 * declared_cols as u64;
    if needed > available as u64 {
        return None;
    }
    let base: usize = at + 2;
    let ghost want = cells_at(numbers@, base as int, num_of_rows as nat, num_of_cols as nat);
    let mut elements: Vec<Vec<i32>> = Vec::new();
    let mut next: usize = base;
    let mut i: usize = 0;
    while i < num_of_rows
        invariant
            base + num_of_rows * num_of_cols <= numbers.len(),
            want == cells_at(numbers@, base as int, num_of_rows as nat, num_of_cols as nat),
            i <= num_of_rows,
            next == base + i * num_of_cols,
            elements.len() == i,
            forall|k: int| 0 <= k < i ==> (#[trigger] elements@[k])@ == want[k],
        decreases num_of_rows - i,
    {
        let mut row: Vec<i32> = Vec::new();
        let mut j: usize = 0;
        proof {
            assert((i + 1) * num_of_cols <= num_of_rows * num_of_cols && (i + 1) * num_of_cols == i
                * num_of_cols + num_of_cols) by (nonlinear_arith)
                requires
                    i + 1 <= num_of_rows,
            ;
        }
        while j < num_of_cols
            invariant
                base + num_of_rows * num_of_cols <= numbers.len(),
                i * num_of_cols + num_of_cols <= num_of_rows * num_of_cols,
                i < num_of_rows,
                j <= num_of_cols,
                next == base + i * num_of_cols + j,
                row.len() == j,
                forall|k: int|
                    0 <= k < j ==> row@[k] == numbers@[base + i * num_of_cols + k],
            decreases num_of_cols - j,
        {
            row.push(numbers[next]);
            next += 1;
            j += 1;
        }
        assert(row@ =~= want[i as int]);
        elements.push(row);
        i += 1;
    }
    let made = Matrix { num_of_rows, num_of_cols, elements };
    assert(made@.cells =~= want);
    Some((made, next))
}

/// What a run works on.
#[derive(Debug)]
pub struct Config {
    /// The path of the input file.
    pub file_path: String,
    /// The left operand.
    pub matrix_one: Matrix,
    /// The right operand.
    pub matrix_two: Matrix,
}

impl Config {
    /// The path of the input file: the first argument after the program's name.
    pub fn requested_path(args: &[String]) -> (path: Result<&String, ConfigError>)
        ensures
            path is Ok <==> args@.len() >= 2,
            path is Ok ==> *(path->Ok_0) == args@[1],
            path is Err ==> path->Err_0 == ConfigError::NotEnoughArguments,
    {
        if args.len() < 2 {
            Err(ConfigError::NotEnoughArguments)
        } else {
            Ok(&args[1])
        }
    }

    /// Reads the two matrices that `content` describes: whitespace-separated
    /// integers, for each matrix its row count, its column count and its
    /// elements row by row. A token that is no 32-bit integer, a negative
    /// dimension or a missing integer makes the input malformed.
    pub fn get_matrices_from_text(content: &str) -> (read: Result<(Matrix, Matrix), ConfigError>)
        ensures
            read is Ok <==> described(content@) is Some,
            read is Err ==> read->Err_0 == ConfigError::MalformedInput,
            read matches Ok((one, two)) ==> one.wf() && two.wf() && described(content@) == Some(
                (one@, two@),
            ),
    {
        let text = chars_of(content);
        let numbers = match parse_numbers(&text) {
            Some(numbers) => numbers,
            None => {
                return Err(ConfigError::MalformedInput);
            },
        };
        let (matrix_one, next) = match read_matrix(&numbers, 0) {
            Some(read) => read,
            None => {
                return Err(ConfigError::MalformedInput);
            },
        };
        let (matrix_two, _) = match read_matrix(&numbers, next) {
            Some(read) => read,
            None => {
                return Err(ConfigError::MalformedInput);
            },
        };
        Ok((matrix_one, matrix_two))
    }

    /// Builds the configuration of a run from the command line and from the
    /// text of the file that it names. The command line must name the file;
    /// the text must describe two matrices.
    pub fn build(args: &[String], content: &str) -> (built: Result<Config, ConfigError>)
        ensures
            args@.len() < 2 ==> built is Err && built->Err_0 == ConfigError::NotEnoughArguments,
            args@.len() >= 2 && described(content@) is None ==> built is Err && built->Err_0
                == ConfigError::MalformedInput,
            args@.len() >= 2 && described(content@) is Some ==> built is Ok,
            built matches Ok(config) ==> config.file_path@ == args@[1]@,
            built matches Ok(config) ==> config.matrix_one.wf() && config.matrix_two.wf(),
            built matches Ok(config) ==> described(content@) == Some(
                (config.matrix_one@, config.matrix_two@),
            ),
    {
        let file_path = match Config::requested_path(args) {
            Ok(path) => path.clone(),
            Err(e) => {
                return Err(e);
            },
        };
        match Config::get_matrices_from_text(content) {
            Ok((matrix_one, matrix_two)) => Ok(Config { file_path, matrix_one, matrix_two }),
            Err(e) => Err(e),
        }
    }
}

impl Default for Config {
    /// No path and two matrices without rows or columns.
    fn default() -> (made: Config)
        ensures
            made.file_path@ == Seq::<char>::empty(),
            made.matrix_one.wf(),
            made.matrix_two.wf(),
            made.matrix_one@ == zero_matrix(0, 0),
            made.matrix_two@ == zero_matrix(0, 0),
    {
        Config {
            file_path: String::new(),
            matrix_one: Matrix::default(),
            matrix_two: Matrix::default(),
        }
    }
}

/// The characters of a text, in order.
pub fn chars_of(text: &str) -> (chars: Vec<char>)
    ensures
        chars@ == text@,
{
    let mut chars: Vec<char> = Vec::new();
    for c in it: text.chars()
        invariant
            it.seq() == text@,
            chars@ == text@.take(it.index() as int),
    {
        chars.push(c);
        assert(text@.take(it.index() + 1) =~= text@.take(it.index() as int).push(c));
    }
    assert(text@.take(text@.len() as int) =~= text@);
    chars
}

} // verus!
