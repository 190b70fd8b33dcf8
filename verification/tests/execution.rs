use brainyuck::engine::{Engine, RunResult, StepEffect, find_matching_close, run};
use brainyuck::semantics::{BfError, DEFAULT_TAPE_LEN, RunStatus};

const FUEL: u64 = 10_000_000;

fn run_simple(program: &[u8]) -> RunResult {
    run(program.to_vec(), &Vec::new(), DEFAULT_TAPE_LEN, FUEL)
}

#[test]
fn hello_world_end_to_end() {
    let program = b"++++++++[>++++[>++>+++>+++>+<<<<-]>+>+>->>+[<]<-]>>.>---.+++++++..+++.>>.<-.<.+++.------.--------.>>+.>++.";
    let r = run(program.to_vec(), &Vec::new(), 30000, FUEL);
    assert_eq!(r.status, RunStatus::Finished);
    assert_eq!(r.output, b"Hello World!\n".to_vec());
}

#[test]
fn balanced_program_ends_with_empty_stack() {
    let r = run_simple(b"++[>++[-]<-]");
    assert_eq!(r.status, RunStatus::Finished);
    assert_eq!(r.engine.stack_depth(), 0);
}

#[test]
fn pointer_clamps_at_left_edge() {
    let r = run_simple(b"<<<<<");
    assert_eq!(r.status, RunStatus::Finished);
    assert_eq!(r.engine.pointer(), 0);
}

#[test]
fn pointer_clamps_at_right_edge() {
    let r = run(b">>>>>>".to_vec(), &Vec::new(), 3, FUEL);
    assert_eq!(r.status, RunStatus::Finished);
    assert_eq!(r.engine.pointer(), 2);
}

#[test]
fn decrement_saturates_at_zero() {
    let r = run_simple(b"---");
    assert_eq!(r.status, RunStatus::Finished);
    assert_eq!(r.engine.cell(0), 0);
}

#[test]
fn increment_saturates_at_max_byte() {
    let mut program: Vec<u8> = Vec::new();
    for _ in 0..300 {
        program.push(b'+');
    }
    let r = run_simple(&program);
    assert_eq!(r.status, RunStatus::Finished);
    assert_eq!(r.engine.cell(0), 255);
}

#[test]
fn zero_loop_executes_body_zero_times() {
    // The condition cell is 0: the body must not run, and execution resumes
    // just past the matching close, at the final decrement.
    let r = run_simple(b"[+++.]-");
    assert_eq!(r.status, RunStatus::Finished);
    assert_eq!(r.output, Vec::<u8>::new());
    assert_eq!(r.engine.cell(0), 0);
    let stats = r.engine.stats();
    assert_eq!(stats.plus, 0);
    assert_eq!(stats.dot, 0);
    assert_eq!(stats.minus, 1);
    assert_eq!(stats.start_loop, 1);
    assert_eq!(stats.end_loop, 0);
}

#[test]
fn zero_loop_skips_over_nested_loops() {
    let r = run_simple(b"[>[+]<[-]]+.");
    assert_eq!(r.status, RunStatus::Finished);
    assert_eq!(r.output, vec![1u8]);
}

#[test]
fn unmatched_close_is_fatal_with_no_further_output() {
    let r = run_simple(b"]....");
    assert_eq!(r.status, RunStatus::Fault(BfError::UnresolvedBracket));
    assert_eq!(r.output, Vec::<u8>::new());
}

#[test]
fn output_before_unmatched_close_is_kept() {
    let r = run_simple(b"+.]....");
    assert_eq!(r.status, RunStatus::Fault(BfError::UnresolvedBracket));
    assert_eq!(r.output, vec![1u8]);
}

#[test]
fn skip_scan_past_end_is_fatal() {
    let r = run_simple(b"[++");
    assert_eq!(r.status, RunStatus::Fault(BfError::BoundsExhausted));
    assert_eq!(r.output, Vec::<u8>::new());
}

#[test]
fn trailing_open_loop_is_not_an_error() {
    // A loop entered with a nonzero cell whose close never comes: the cursor
    // walks off the end, which is normal termination in this design.
    let r = run_simple(b"+[");
    assert_eq!(r.status, RunStatus::Finished);
    assert_eq!(r.engine.stack_depth(), 1);
}

#[test]
fn input_stores_byte_in_current_cell() {
    let input = b"A".to_vec();
    let r = run(b",.".to_vec(), &input, DEFAULT_TAPE_LEN, FUEL);
    assert_eq!(r.status, RunStatus::Finished);
    assert_eq!(r.output, b"A".to_vec());
}

#[test]
fn input_bytes_are_consumed_in_order() {
    let input = b"xy".to_vec();
    let r = run(b",>,<.>.".to_vec(), &input, DEFAULT_TAPE_LEN, FUEL);
    assert_eq!(r.status, RunStatus::Finished);
    assert_eq!(r.output, b"xy".to_vec());
}

#[test]
fn exhausted_input_is_fatal() {
    let r = run(b",".to_vec(), &Vec::new(), DEFAULT_TAPE_LEN, FUEL);
    assert_eq!(r.status, RunStatus::Fault(BfError::InputExhausted));
    assert_eq!(r.output, Vec::<u8>::new());
}

#[test]
fn fuel_bound_stops_an_endless_loop() {
    let r = run(b"+[]".to_vec(), &Vec::new(), DEFAULT_TAPE_LEN, 1000);
    assert_eq!(r.status, RunStatus::OutOfFuel);
}

#[test]
fn comments_are_skipped() {
    let r = run_simple(b"hello + world .");
    assert_eq!(r.status, RunStatus::Finished);
    assert_eq!(r.output, vec![1u8]);
    assert_eq!(r.engine.stats().skipped, 13);
}

#[test]
fn same_program_and_input_give_identical_output() {
    let program = b"++[>+++<-]>.,.";
    let input = b"Q".to_vec();
    let first = run(program.to_vec(), &input, DEFAULT_TAPE_LEN, FUEL);
    let second = run(program.to_vec(), &input, DEFAULT_TAPE_LEN, FUEL);
    assert_eq!(first.status, second.status);
    assert_eq!(first.output, second.output);
    assert_eq!(first.engine.pointer(), second.engine.pointer());
    assert_eq!(first.engine.cursor(), second.engine.cursor());
}

#[test]
fn nested_loops_multiply() {
    // 2 * 3 into the second cell, then print it.
    let r = run_simple(b"++[>+++<-]>.");
    assert_eq!(r.status, RunStatus::Finished);
    assert_eq!(r.output, vec![6u8]);
}

#[test]
fn statistics_count_each_instruction_kind() {
    let r = run_simple(b"+-><.x");
    assert_eq!(r.status, RunStatus::Finished);
    let stats = r.engine.stats();
    assert_eq!(stats.plus, 1);
    assert_eq!(stats.minus, 1);
    assert_eq!(stats.gt, 1);
    assert_eq!(stats.lt, 1);
    assert_eq!(stats.dot, 1);
    assert_eq!(stats.comma, 0);
    assert_eq!(stats.start_loop, 0);
    assert_eq!(stats.end_loop, 0);
    assert_eq!(stats.skipped, 1);
}

#[test]
fn find_matching_close_resolves_nesting() {
    let program = b"[[]]".to_vec();
    assert_eq!(find_matching_close(&program, 0), Some(3));
    assert_eq!(find_matching_close(&program, 1), Some(2));
}

#[test]
fn find_matching_close_reports_missing_close() {
    let program = b"[[]".to_vec();
    assert_eq!(find_matching_close(&program, 0), None);
    assert_eq!(find_matching_close(&program, 1), Some(2));
}

#[test]
fn stepwise_input_round_trip() {
    let mut eng = Engine::new(b",.".to_vec(), 10);
    assert_eq!(eng.step(), StepEffect::NeedInput);
    eng.provide_input(b'Z');
    assert_eq!(eng.step(), StepEffect::Output(b'Z'));
    assert_eq!(eng.step(), StepEffect::Halted);
    assert!(eng.halted());
    assert_eq!(eng.stats().comma, 1);
    assert_eq!(eng.stats().dot, 1);
}

#[test]
fn stepwise_fault_leaves_machine_in_place() {
    let mut eng = Engine::new(b"]".to_vec(), 10);
    assert_eq!(eng.step(), StepEffect::Fault(BfError::UnresolvedBracket));
    assert_eq!(eng.cursor(), 0);
    assert_eq!(eng.step(), StepEffect::Fault(BfError::UnresolvedBracket));
}

#[test]
fn fresh_engine_starts_zeroed() {
    let eng = Engine::new(b"+".to_vec(), 5);
    assert_eq!(eng.tape_len(), 5);
    assert_eq!(eng.pointer(), 0);
    assert_eq!(eng.cursor(), 0);
    assert_eq!(eng.stack_depth(), 0);
    for i in 0..5 {
        assert_eq!(eng.cell(i), 0);
    }
}
