use parallel_matmul::matrix::Matrix;
use parallel_matmul::numbers::parse_numbers;
use parallel_matmul::render::push_decimal;

fn decimal(n: i32) -> String {
    let mut out = String::from(">");
    push_decimal(&mut out, n);
    out
}

#[test]
fn decimal_of_integers() {
    assert_eq!(decimal(0), ">0");
    assert_eq!(decimal(7), ">7");
    assert_eq!(decimal(10), ">10");
    assert_eq!(decimal(-1), ">-1");
    assert_eq!(decimal(1234567890), ">1234567890");
    assert_eq!(decimal(i32::MAX), ">2147483647");
    assert_eq!(decimal(i32::MIN), ">-2147483648");
}

#[test]
fn decimal_agrees_with_the_standard_library() {
    for n in [0, 1, -1, 9, 10, 11, 99, 100, 101, -100, 65535, -65536, i32::MAX, i32::MIN] {
        assert_eq!(decimal(n), format!(">{}", n));
    }
}

#[test]
fn text_of_a_matrix() {
    let matrix = Matrix::new(2, 2, vec![vec![19, 22], vec![43, -50]]).unwrap();
    assert_eq!(
        matrix.to_text("Resultant Matrix"),
        "Resultant Matrix:\n    19 22 \n    43 -50 \n"
    );
}

#[test]
fn text_of_empty_matrices() {
    assert_eq!(Matrix::zeros(0, 3).to_text("Empty"), "Empty:\n");
    assert_eq!(Matrix::zeros(2, 0).to_text(""), ":\n    \n    \n");
}

#[test]
fn what_is_written_reads_back() {
    let values = vec![0, -1, 1, 42, -2147483648, 2147483647, 1000000];
    let matrix = Matrix::new(1, values.len(), vec![values.clone()]).unwrap();
    let text: Vec<char> = matrix.to_text("7").chars().skip(2).collect();
    assert_eq!(parse_numbers(&text), Some(values));
}
