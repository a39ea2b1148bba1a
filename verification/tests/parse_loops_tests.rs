use std::collections::HashMap;

use brainfuck::parse_loops;
use brainfuck::tokenize;

#[test]
fn test_parse_loops_unmatched_loop_start() {
    let tokens = tokenize("[<>]++[");
    let result = parse_loops(&tokens);

    assert_eq!(result, Err("Unmatched '[' at index 6".to_string()));
}

#[test]
fn test_parse_loops_unmatched_loop_end() {
    let tokens = tokenize("[<>]++[]]");
    let result = parse_loops(&tokens);

    assert_eq!(result, Err("Unmatched ']' at index 8".to_string()));
}

#[test]
fn test_parse_loops_empty_table_without_brackets() {
    let tokens = tokenize("+-><.,");
    let table = parse_loops(&tokens).unwrap();
    assert!(table.is_empty());
}

#[test]
fn test_parse_loops_nested_brackets_symmetric() {
    let tokens = tokenize("[[]]");
    let table = parse_loops(&tokens).unwrap();

    let mut expected: HashMap<usize, usize> = HashMap::new();
    expected.insert(0, 3);
    expected.insert(3, 0);
    expected.insert(1, 2);
    expected.insert(2, 1);
    assert_eq!(table, expected);
}

#[test]
fn test_parse_loops_sibling_brackets() {
    let tokens = tokenize("[][]");
    let table = parse_loops(&tokens).unwrap();

    let mut expected: HashMap<usize, usize> = HashMap::new();
    expected.insert(0, 1);
    expected.insert(1, 0);
    expected.insert(2, 3);
    expected.insert(3, 2);
    assert_eq!(table, expected);
}

#[test]
fn test_parse_loops_reports_first_unmatched_open() {
    let tokens = tokenize("[[]");
    let result = parse_loops(&tokens);
    assert_eq!(result, Err("Unmatched '[' at index 0".to_string()));
}

#[test]
fn test_parse_loops_multi_digit_index() {
    let tokens = tokenize("++++++++++[");
    let result = parse_loops(&tokens);
    assert_eq!(result, Err("Unmatched '[' at index 10".to_string()));
}
