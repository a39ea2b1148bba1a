use std::collections::HashMap;

use brainfuck::Interpreter;
use brainfuck::RunStatus;
use brainfuck::parse_loops;
use brainfuck::tokenize;

const FUEL: u64 = 1_000_000;

fn run_fresh(source: &str, input: &[u8]) -> (Interpreter, RunStatus) {
    let tokens = tokenize(source);
    let table = parse_loops(&tokens).unwrap();
    let mut engine = Interpreter::new();
    let status = engine.run(&tokens, &table, input, FUEL);
    (engine, status)
}

#[test]
fn test_new_engine_zero_tape_midpoint_pointer() {
    let engine = Interpreter::new();
    assert_eq!(engine.memory.len(), 30000);
    assert!(engine.memory.iter().all(|&c| c == 0));
    assert_eq!(engine.data_pointer, 15000);
    assert_eq!(engine.instruction_pointer, 0);
}

#[test]
fn test_default_engine_matches_new() {
    let engine = Interpreter::default();
    assert_eq!(engine.memory, Interpreter::new().memory);
    assert_eq!(engine.data_pointer, 15000);
}

#[test]
fn test_increment_wraps_after_256_steps() {
    let source = "+".repeat(256);
    let (engine, status) = run_fresh(&source, &[]);
    assert_eq!(status, RunStatus::Halted(vec![]));
    assert_eq!(engine.memory[15000], 0);
}

#[test]
fn test_decrement_zero_cell_wraps_to_255() {
    let (engine, status) = run_fresh("-", &[]);
    assert_eq!(status, RunStatus::Halted(vec![]));
    assert_eq!(engine.memory[15000], 255);
}

#[test]
fn test_pointer_out_of_bounds_left() {
    let source = "<".repeat(15001);
    let (engine, status) = run_fresh(&source, &[]);
    assert_eq!(
        status,
        RunStatus::Faulted("Data pointer out of bounds (left)".to_string())
    );
    assert_eq!(engine.data_pointer, 0);
}

#[test]
fn test_pointer_out_of_bounds_right() {
    let source = ">".repeat(15000);
    let (engine, status) = run_fresh(&source, &[]);
    assert_eq!(
        status,
        RunStatus::Faulted("Data pointer out of bounds (right)".to_string())
    );
    assert_eq!(engine.data_pointer, 30000);
}

#[test]
fn test_two_fresh_runs_agree() {
    let source = ",>,<[->+<]>.";
    let input = [20, 30];
    let (first_engine, first_status) = run_fresh(source, &input);
    let (second_engine, second_status) = run_fresh(source, &input);
    assert_eq!(first_status, second_status);
    assert_eq!(first_status, RunStatus::Halted(vec![50]));
    assert_eq!(first_engine.memory, second_engine.memory);
    assert_eq!(first_engine.data_pointer, second_engine.data_pointer);
}

#[test]
fn test_loop_moves_sum_and_outputs_seven() {
    let (engine, status) = run_fresh("++>+++++[<+>-]<.", &[]);
    assert_eq!(status, RunStatus::Halted(vec![7]));
    assert_eq!(engine.memory[15000], 7);
    assert_eq!(engine.memory[15001], 0);
    assert_eq!(engine.data_pointer, 15000);
}

#[test]
fn test_input_exhausted_zero_fills_cell() {
    let (engine, status) = run_fresh("+++++,", &[]);
    assert_eq!(status, RunStatus::Halted(vec![]));
    assert_eq!(engine.memory[15000], 0);
}

#[test]
fn test_input_bytes_read_in_order() {
    let (engine, status) = run_fresh(",>,<.", &[3, 9]);
    assert_eq!(status, RunStatus::Halted(vec![3]));
    assert_eq!(engine.memory[15000], 3);
    assert_eq!(engine.memory[15001], 9);
}

#[test]
fn test_output_emits_current_cell_bytes() {
    let (_, status) = run_fresh("+++.-.", &[]);
    assert_eq!(status, RunStatus::Halted(vec![3, 2]));
}

#[test]
fn test_skipped_loop_on_zero_cell() {
    let (engine, status) = run_fresh("[+++]", &[]);
    assert_eq!(status, RunStatus::Halted(vec![]));
    assert_eq!(engine.memory[15000], 0);
}

#[test]
fn test_missing_jump_entry_for_open_bracket() {
    let tokens = tokenize("[");
    let empty_table: HashMap<usize, usize> = HashMap::new();
    let mut engine = Interpreter::new();
    let status = engine.run(&tokens, &empty_table, &[], FUEL);
    assert_eq!(
        status,
        RunStatus::Faulted("Jump table missing entry for '[' at 0".to_string())
    );
}

#[test]
fn test_missing_jump_entry_for_close_bracket() {
    let tokens = tokenize("+]");
    let empty_table: HashMap<usize, usize> = HashMap::new();
    let mut engine = Interpreter::new();
    let status = engine.run(&tokens, &empty_table, &[], FUEL);
    assert_eq!(
        status,
        RunStatus::Faulted("Jump table missing entry for ']' at 1".to_string())
    );
}

#[test]
fn test_endless_loop_runs_out_of_steps() {
    let tokens = tokenize("+[]");
    let table = parse_loops(&tokens).unwrap();
    let mut engine = Interpreter::new();
    let status = engine.run(&tokens, &table, &[], 50);
    assert_eq!(status, RunStatus::OutOfSteps(vec![]));
}

#[test]
fn test_memory_window_around_pointer() {
    let (engine, status) = run_fresh(">+++", &[]);
    assert_eq!(status, RunStatus::Halted(vec![]));
    let (start, cells) = engine.memory_window(2);
    assert_eq!(start, 14999);
    assert_eq!(cells, vec![0, 0, 3, 0, 0]);
}

#[test]
fn test_memory_window_clipped_at_tape_start() {
    let source = "<".repeat(15000);
    let (engine, status) = run_fresh(&source, &[]);
    assert_eq!(status, RunStatus::Halted(vec![]));
    assert_eq!(engine.data_pointer, 0);
    let (start, cells) = engine.memory_window(3);
    assert_eq!(start, 0);
    assert_eq!(cells.len(), 4);
}
