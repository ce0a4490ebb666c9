use parallel_matmul::config::{chars_of, read_matrix, Config, ConfigError};

fn args(values: &[&str]) -> Vec<String> {
    values.iter().map(|value| value.to_string()).collect()
}

#[test]
fn build_reads_two_matrices() {
    let config = Config::build(
        &args(&["program", "input.txt"]),
        "2 2\n1 2\n3 4\n2 3\n5 6 7\n8 9 10\n",
    )
    .unwrap();
    assert_eq!(config.file_path, "input.txt");
    assert_eq!(config.matrix_one.num_of_rows(), 2);
    assert_eq!(config.matrix_one.num_of_cols(), 2);
    assert_eq!(config.matrix_one.elements(), &vec![vec![1, 2], vec![3, 4]]);
    assert_eq!(config.matrix_two.num_of_rows(), 2);
    assert_eq!(config.matrix_two.num_of_cols(), 3);
    assert_eq!(config.matrix_two.elements(), &vec![vec![5, 6, 7], vec![8, 9, 10]]);
}

#[test]
fn build_needs_a_path() {
    let built = Config::build(&args(&["program"]), "1 1 1 1 1 1");
    assert_eq!(built.err(), Some(ConfigError::NotEnoughArguments));
    let built = Config::build(&args(&[]), "1 1 1 1 1 1");
    assert_eq!(built.err(), Some(ConfigError::NotEnoughArguments));
    // The missing path is reported even where the text is malformed too.
    let built = Config::build(&args(&["program"]), "x");
    assert_eq!(built.err(), Some(ConfigError::NotEnoughArguments));
}

#[test]
fn build_ignores_further_arguments() {
    let config = Config::build(&args(&["program", "a.txt", "b.txt"]), "1 1 5 1 1 6").unwrap();
    assert_eq!(config.file_path, "a.txt");
    assert_eq!(config.matrix_one.elements(), &vec![vec![5]]);
    assert_eq!(config.matrix_two.elements(), &vec![vec![6]]);
}

#[test]
fn build_refuses_malformed_text() {
    let named = args(&["program", "input.txt"]);
    for text in [
        "",
        "2",
        "2 2 1 2 3",
        "2 2 1 2 3 4",
        "2 2 1 2 3 4 1",
        "2 2 1 2 3 4 1 2 5",
        "1 1 x 1 1 1",
        "1 1 1 1 1 1 trailing",
        "-1 1 1 1 1",
        "1 -1 1 1 1",
        "1 1 1 -1 1",
        "1 1 1.5 1 1 1",
        "1 1 2147483648 1 1 1",
    ] {
        assert_eq!(Config::build(&named, text).err(), Some(ConfigError::MalformedInput));
    }
}

#[test]
fn line_breaks_carry_no_meaning() {
    let (one, two) = Config::get_matrices_from_text("2\n3 1 2\n3 4 5 6 3 1\n7\n\n8 9").unwrap();
    assert_eq!(one.elements(), &vec![vec![1, 2, 3], vec![4, 5, 6]]);
    assert_eq!(two.elements(), &vec![vec![7], vec![8], vec![9]]);
}

#[test]
fn numbers_after_the_second_matrix_are_ignored() {
    let (one, two) = Config::get_matrices_from_text("1 1 5 1 1 6 7 8 9").unwrap();
    assert_eq!(one.elements(), &vec![vec![5]]);
    assert_eq!(two.elements(), &vec![vec![6]]);
}

#[test]
fn empty_matrices_are_read() {
    let (one, two) = Config::get_matrices_from_text("0 2 2 3 1 2 3 4 5 6").unwrap();
    assert_eq!((one.num_of_rows(), one.num_of_cols()), (0, 2));
    assert!(one.elements().is_empty());
    assert_eq!(two.elements(), &vec![vec![1, 2, 3], vec![4, 5, 6]]);
    let (one, two) = Config::get_matrices_from_text("2 0 0 0").unwrap();
    assert_eq!((one.num_of_rows(), one.num_of_cols()), (2, 0));
    assert_eq!(one.elements(), &vec![Vec::<i32>::new(), Vec::<i32>::new()]);
    assert_eq!((two.num_of_rows(), two.num_of_cols()), (0, 0));
}

#[test]
fn huge_dimensions_without_elements_are_malformed() {
    assert_eq!(
        Config::get_matrices_from_text("2147483647 2147483647 1 2 3").err(),
        Some(ConfigError::MalformedInput)
    );
}

#[test]
fn read_matrix_says_where_the_next_starts() {
    let numbers = vec![9, 2, 2, 1, 2, 3, 4, 1, 1, 5];
    let (matrix, next) = read_matrix(&numbers, 1).unwrap();
    assert_eq!(matrix.elements(), &vec![vec![1, 2], vec![3, 4]]);
    assert_eq!(next, 7);
    let (matrix, next) = read_matrix(&numbers, next).unwrap();
    assert_eq!(matrix.elements(), &vec![vec![5]]);
    assert_eq!(next, 10);
    assert!(read_matrix(&numbers, 10).is_none());
    assert!(read_matrix(&numbers, 9).is_none());
    assert!(read_matrix(&numbers, 11).is_none());
    assert!(read_matrix(&numbers, usize::MAX).is_none());
    assert!(read_matrix(&numbers, 0).is_none());
}

#[test]
fn requested_path_is_the_first_argument() {
    let named = args(&["program", "input.txt"]);
    assert_eq!(Config::requested_path(&named), Ok(&"input.txt".to_string()));
    assert_eq!(
        Config::requested_path(&args(&["program"])),
        Err(ConfigError::NotEnoughArguments)
    );
}

#[test]
fn errors_have_messages() {
    assert_eq!(ConfigError::NotEnoughArguments.message(), "not enough arguments");
    assert_eq!(ConfigError::MalformedInput.message(), "malformed input");
}

#[test]
fn chars_of_keeps_every_character() {
    assert_eq!(chars_of("a é\n"), vec!['a', ' ', 'é', '\n']);
    assert!(chars_of("").is_empty());
}

#[test]
fn default_config_is_empty() {
    let config = Config::default();
    assert_eq!(config.file_path, "");
    assert_eq!((config.matrix_one.num_of_rows(), config.matrix_one.num_of_cols()), (0, 0));
    assert_eq!((config.matrix_two.num_of_rows(), config.matrix_two.num_of_cols()), (0, 0));
}
