use brainfuck_vm::engine::BrainfuckInterpreter;
use brainfuck_vm::engine::IoChannel;
use brainfuck_vm::engine::RuntimeError;
use brainfuck_vm::parser::BrainfuckParser;

const BUDGET: usize = 1_000_000;

fn run_source(source: &str, input: Vec<u8>) -> (BrainfuckInterpreter, IoChannel, Result<bool, RuntimeError>) {
    let program = BrainfuckParser::parse(source).unwrap();
    let mut interpreter = BrainfuckInterpreter::new();
    let mut io = IoChannel::new(input);
    let r = interpreter.run(&program, &mut io, BUDGET);
    (interpreter, io, r)
}

#[test]
fn three_increments_output_three() {
    let (_, io, r) = run_source("+++.", vec![]);
    assert_eq!(r, Ok(true));
    assert_eq!(io.output, vec![3u8]);
}

#[test]
fn eight_times_eight_outputs_sixty_four() {
    let (_, io, r) = run_source("++++++++[>++++++++<-]>.", vec![]);
    assert_eq!(r, Ok(true));
    assert_eq!(io.output, vec![64u8]);
}

#[test]
fn loop_clears_cell_and_body_runs_once() {
    let program = BrainfuckParser::parse("+[-]").unwrap();
    let mut interpreter = BrainfuckInterpreter::new();
    let mut io = IoChannel::new(vec![]);
    let mut decrement_runs = 0;
    loop {
        if interpreter.pc == 2 {
            decrement_runs += 1;
        }
        match interpreter.step(&program, &mut io) {
            Ok(true) => break,
            Ok(false) => {}
            Err(e) => panic!("unexpected runtime error: {:?}", e),
        }
    }
    assert_eq!(decrement_runs, 1);
    assert_eq!(interpreter.data[0], 0);
    assert!(io.output.is_empty());
}

#[test]
fn pointer_clamped_at_left_edge() {
    let (interpreter, io, r) = run_source("<<", vec![]);
    assert_eq!(r, Ok(true));
    assert_eq!(interpreter.ptr, 0);
    assert!(io.output.is_empty());
}

#[test]
fn decrement_clamped_at_zero() {
    let (interpreter, io, r) = run_source("--.", vec![]);
    assert_eq!(r, Ok(true));
    assert_eq!(interpreter.data[0], 0);
    assert_eq!(io.output, vec![0u8]);
}

#[test]
fn output_is_low_byte_of_cell() {
    let source = format!("{}.", "+".repeat(260));
    let (interpreter, io, r) = run_source(&source, vec![]);
    assert_eq!(r, Ok(true));
    assert_eq!(interpreter.data[0], 260);
    assert_eq!(io.output, vec![4u8]);
}

#[test]
fn input_byte_stored_and_echoed() {
    let (interpreter, io, r) = run_source(",.", vec![65]);
    assert_eq!(r, Ok(true));
    assert_eq!(io.output, vec![65u8]);
    assert_eq!(io.read_pos, 1);
    assert_eq!(interpreter.data[0], 65);
}

#[test]
fn exhausted_input_yields_zero() {
    let (interpreter, io, r) = run_source("+,.", vec![]);
    assert_eq!(r, Ok(true));
    assert_eq!(interpreter.data[0], 0);
    assert_eq!(io.output, vec![0u8]);
}

#[test]
fn moving_past_tape_end_is_an_error() {
    let source = ">".repeat(4096);
    let (interpreter, _, r) = run_source(&source, vec![]);
    assert_eq!(r, Err(RuntimeError::TapeOverflow));
    assert_eq!(interpreter.ptr, 4095);
}

#[test]
fn moving_to_last_cell_is_fine() {
    let source = ">".repeat(4095);
    let (interpreter, _, r) = run_source(&source, vec![]);
    assert_eq!(r, Ok(true));
    assert_eq!(interpreter.ptr, 4095);
}

#[test]
fn budget_exhaustion_reports_still_running() {
    let program = BrainfuckParser::parse("+++.").unwrap();
    let mut interpreter = BrainfuckInterpreter::new();
    let mut io = IoChannel::new(vec![]);
    let r = interpreter.run(&program, &mut io, 2);
    assert_eq!(r, Ok(false));
    assert!(io.output.is_empty());
    let r2 = interpreter.resume(&program, &mut io, BUDGET);
    assert_eq!(r2, Ok(true));
    assert_eq!(io.output, vec![3u8]);
}

#[test]
fn program_reusable_across_runs() {
    let program = BrainfuckParser::parse("++.").unwrap();
    let mut interpreter = BrainfuckInterpreter::new();
    let mut first = IoChannel::new(vec![]);
    assert_eq!(interpreter.run(&program, &mut first, BUDGET), Ok(true));
    let mut second = IoChannel::new(vec![]);
    assert_eq!(interpreter.run(&program, &mut second, BUDGET), Ok(true));
    assert_eq!(first.output, vec![2u8]);
    assert_eq!(second.output, vec![2u8]);
}

#[test]
fn reset_clears_state() {
    let program = BrainfuckParser::parse(">+").unwrap();
    let mut interpreter = BrainfuckInterpreter::new();
    let mut io = IoChannel::new(vec![]);
    assert_eq!(interpreter.run(&program, &mut io, BUDGET), Ok(true));
    assert_eq!(interpreter.ptr, 1);
    assert_eq!(interpreter.data[1], 1);
    interpreter.reset();
    assert_eq!(interpreter.pc, 0);
    assert_eq!(interpreter.ptr, 0);
    assert_eq!(interpreter.data[1], 0);
}
