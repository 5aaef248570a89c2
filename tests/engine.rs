use bf_engine::error::EngineError;
use bf_engine::instruction::Instruction;
use bf_engine::loops::match_loops;
use bf_engine::machine::{compile, Interpreter, TAPE_LEN};
use bf_engine::translate::{lexer, parse, to_source};

fn chars(s: &str) -> Vec<char> {
    s.chars().collect()
}

fn run_text(s: &str, input: Vec<u8>) -> Result<Interpreter, EngineError> {
    let program = parse(chars(s)).expect("command characters only");
    compile(program, input, 1_000_000)
}

#[test]
fn scenario_two_increments_then_emit() {
    let m = run_text("++.", Vec::new()).unwrap();
    assert!(m.is_halted());
    assert_eq!(m.tape()[0], 2);
    assert_eq!(m.output(), &vec![2u8]);
}

#[test]
fn scenario_countdown_loop() {
    let program = parse(chars("++[-]")).unwrap();
    let mut m = Interpreter::new(program, Vec::new()).unwrap();
    let mut steps = 0;
    let mut decrements = 0;
    while !m.is_halted() {
        if m.instruction_pointer() == 3 {
            decrements += 1;
        }
        m.step().unwrap();
        steps += 1;
    }
    assert_eq!(decrements, 2);
    assert_eq!(steps, 7);
    assert_eq!(m.tape()[0], 0);
    assert!(m.output().is_empty());
}

#[test]
fn scenario_two_cells_output() {
    let m = run_text("+++++.>+++.", Vec::new()).unwrap();
    assert_eq!(m.output(), &vec![5u8, 3u8]);
    assert_eq!(m.data_pointer(), 1);
    assert_eq!(m.tape()[0], 5);
    assert_eq!(m.tape()[1], 3);
}

#[test]
fn scenario_lone_loop_end_is_unbalanced() {
    let program = parse(chars("]")).unwrap();
    assert_eq!(program, vec![Instruction::LoopEnd]);
    let r = compile(program, Vec::new(), 1_000_000);
    assert_eq!(r.err(), Some(EngineError::UnbalancedLoopError { position: 0 }));
}

#[test]
fn lone_loop_start_is_unbalanced() {
    let program = parse(chars("[")).unwrap();
    let r = compile(program, Vec::new(), 1_000_000);
    assert_eq!(r.err(), Some(EngineError::UnbalancedLoopError { position: 0 }));
}

#[test]
fn stray_loop_end_after_balanced_part() {
    let program = parse(chars("+[-]]")).unwrap();
    let r = Interpreter::new(program, Vec::new());
    assert_eq!(r.err(), Some(EngineError::UnbalancedLoopError { position: 4 }));
}

#[test]
fn oldest_unclosed_loop_start_is_reported() {
    let program = parse(chars("+[[]")).unwrap();
    assert_eq!(match_loops(&program), Err(EngineError::UnbalancedLoopError { position: 1 }));
}

#[test]
fn wraparound_after_256_increments() {
    let text = "+".repeat(256);
    let m = run_text(&text, Vec::new()).unwrap();
    assert_eq!(m.tape()[0], 0);
    assert!(m.tape().iter().all(|&b| b == 0));
}

#[test]
fn no_wraparound_before_256_increments() {
    let text = "+".repeat(255);
    let m = run_text(&text, Vec::new()).unwrap();
    assert_eq!(m.tape()[0], 255);
}

#[test]
fn decrement_of_zero_wraps_to_255() {
    let m = run_text("-.", Vec::new()).unwrap();
    assert_eq!(m.output(), &vec![255u8]);
}

#[test]
fn round_trip_through_instructions() {
    let source = chars("+-<>[].,[[-]>]");
    let program = parse(source.clone()).unwrap();
    assert_eq!(to_source(&program), source);
}

#[test]
fn translation_is_deterministic() {
    let source = chars("++[>+<-].");
    assert_eq!(parse(source.clone()), parse(source));
}

#[test]
fn translation_table() {
    let program = parse(chars("><+-.,[]")).unwrap();
    assert_eq!(
        program,
        vec![
            Instruction::MovePtrRight,
            Instruction::MovePtrLeft,
            Instruction::IncrementCell,
            Instruction::DecrementCell,
            Instruction::EmitOutput,
            Instruction::ReadInput,
            Instruction::LoopStart,
            Instruction::LoopEnd,
        ]
    );
}

#[test]
fn empty_source_translates_and_halts() {
    let program = parse(Vec::new()).unwrap();
    assert!(program.is_empty());
    let m = compile(program, Vec::new(), 0).unwrap();
    assert!(m.is_halted());
    assert!(m.output().is_empty());
}

#[test]
fn unknown_character_is_rejected() {
    assert_eq!(parse(chars("+a-")), Err(EngineError::TranslationError { position: 1 }));
    assert_eq!(parse(chars(" ")), Err(EngineError::TranslationError { position: 0 }));
}

#[test]
fn lexer_keeps_only_commands() {
    assert_eq!(lexer(&chars("a+b [c]\n.x")), chars("+[]."));
    assert!(lexer(&chars("hello")).is_empty());
}

#[test]
fn moving_left_of_the_tape_fails() {
    let r = run_text("+<", Vec::new());
    assert_eq!(r.err(), Some(EngineError::OutOfBoundsError { position: 1 }));
}

#[test]
fn moving_right_off_the_tape_fails() {
    let last = ">".repeat(TAPE_LEN - 1);
    let m = run_text(&last, Vec::new()).unwrap();
    assert_eq!(m.data_pointer(), TAPE_LEN - 1);
    let past = ">".repeat(TAPE_LEN);
    let r = run_text(&past, Vec::new());
    assert_eq!(r.err(), Some(EngineError::OutOfBoundsError { position: TAPE_LEN - 1 }));
}

#[test]
fn failed_step_leaves_state_alone() {
    let program = parse(chars("<")).unwrap();
    let mut m = Interpreter::new(program, Vec::new()).unwrap();
    assert_eq!(m.step(), Err(EngineError::OutOfBoundsError { position: 0 }));
    assert_eq!(m.instruction_pointer(), 0);
    assert_eq!(m.data_pointer(), 0);
}

#[test]
fn read_input_takes_bytes_then_leaves_cell() {
    let m = run_text(",.,.,.", vec![7, 9]).unwrap();
    assert_eq!(m.output(), &vec![7u8, 9u8, 9u8]);
}

#[test]
fn read_input_without_input_is_no_op() {
    let m = run_text("+++,.", Vec::new()).unwrap();
    assert_eq!(m.output(), &vec![3u8]);
}

#[test]
fn loop_body_runs_once_on_zero_cell() {
    let m = run_text("[.]", Vec::new()).unwrap();
    assert_eq!(m.output(), &vec![0u8]);
}

#[test]
fn nested_loops_multiply() {
    let m = run_text("+++[>++[>+<-]<-]>>.", Vec::new()).unwrap();
    assert_eq!(m.output(), &vec![6u8]);
}

#[test]
fn jump_table_pairs_brackets() {
    let program = parse(chars("[[]]")).unwrap();
    assert_eq!(match_loops(&program), Ok(vec![3, 2, 1, 0]));
    let program = parse(chars("+[>]")).unwrap();
    assert_eq!(match_loops(&program), Ok(vec![0, 3, 2, 1]));
}

#[test]
fn step_limit_stops_endless_loop() {
    let m = compile(parse(chars("+[]")).unwrap(), Vec::new(), 10).unwrap();
    assert!(!m.is_halted());
    assert_eq!(m.tape()[0], 1);
}

#[test]
fn loop_free_program_halts_within_its_length() {
    let source = "++>+<-.>.";
    let program = parse(chars(source)).unwrap();
    let m = compile(program, Vec::new(), source.len() as u64).unwrap();
    assert!(m.is_halted());
    assert_eq!(m.output(), &vec![1u8, 1u8]);
}

#[test]
fn run_resumes_where_it_stopped() {
    let program = parse(chars("+++.")).unwrap();
    let mut m = Interpreter::new(program, Vec::new()).unwrap();
    assert_eq!(m.run(2), Ok(()));
    assert_eq!(m.instruction_pointer(), 2);
    assert_eq!(m.run(10), Ok(()));
    assert!(m.is_halted());
    assert_eq!(m.output(), &vec![3u8]);
}
