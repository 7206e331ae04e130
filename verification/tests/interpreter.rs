use bfi::lexer::{lex, LexingError, Token};
use bfi::parser::{parse, Expression, ParseError};
use bfi::runtime::{
    execute_internal, InputSource, Memory, OutputSink, Progress, RuntimeError,
};

fn run_with(source: &str, inputs: Vec<isize>, steps: u64) -> (Result<Progress, RuntimeError>, Vec<char>) {
    let tokens = lex(source).expect("source should scan");
    let expressions = parse(&tokens).expect("source should parse");
    let mut memory = Memory::new();
    let mut input = InputSource::Script(inputs, 0);
    let mut output = OutputSink::Buffer(Vec::new());
    let mut budget = steps;
    let r = execute_internal(&mut memory, &mut input, &mut output, &expressions, &mut budget);
    let printed = match output {
        OutputSink::Buffer(v) => v,
        OutputSink::Console => panic!("sink changed kind"),
    };
    (r, printed)
}

#[test]
fn scanner_maps_all_eight_symbols_in_order() {
    let tokens = lex("><+-[].,").expect("all characters are recognized");
    assert_eq!(
        tokens,
        vec![
            Token::MovePointerRight,
            Token::MovePointerLeft,
            Token::IncrementCurrentRegister,
            Token::DecrementCurrentRegister,
            Token::LoopStart,
            Token::LoopEnd,
            Token::PrintCurrentRegister,
            Token::ReadToCurrentRegister,
        ]
    );
}

#[test]
fn scanner_of_empty_source_gives_no_symbols() {
    assert_eq!(lex("").expect("empty source scans"), Vec::new());
}

#[test]
fn scanner_fails_at_first_unrecognized_character() {
    let e: LexingError = lex("+a>b").expect_err("'a' is not recognized");
    assert_eq!(e.symbol, 'a');
    assert_eq!(e.index, 1);
    assert_eq!(e.message(), "Unrecognized symbol 'a' at index 1.");
}

#[test]
fn scanner_reports_position_of_first_offender_only() {
    let e = lex(">>x").expect_err("'x' is not recognized");
    assert_eq!(e.symbol, 'x');
    assert_eq!(e.index, 2);
}

#[test]
fn tokenizer_matches_lexer_on_symbols() {
    let tokens = bfi::tokenizer::tokenize("><+-[].,").expect("all characters are recognized");
    assert_eq!(tokens.len(), 8);
    assert_eq!(tokens[0], bfi::tokenizer::Token::MovePointerRight);
    assert_eq!(tokens[7], bfi::tokenizer::Token::ReadToCurrentRegister);
}

#[test]
fn tokenizer_fails_like_lexer() {
    let e = bfi::tokenizer::tokenize("7").expect_err("'7' is not recognized");
    assert_eq!(e.symbol, '7');
    assert_eq!(e.index, 0);
    assert_eq!(e.message(), "Unrecognized symbol '7' at index 0.");
}

#[test]
fn parser_rejects_single_open_bracket() {
    let tokens = lex("[").unwrap();
    let e = parse(&tokens).expect_err("counts differ");
    assert_eq!(
        e,
        ParseError::UnmatchedBrackets { no_opening_brackets: 1, no_closing_brackets: 0 }
    );
    assert_eq!(e.message(), "Unmatched brackets. 1 opening and 0 closing");
}

#[test]
fn parser_rejects_with_exact_counts() {
    let tokens = lex("[[]").unwrap();
    let e = parse(&tokens).expect_err("counts differ");
    assert_eq!(
        e,
        ParseError::UnmatchedBrackets { no_opening_brackets: 2, no_closing_brackets: 1 }
    );
}

#[test]
fn parser_builds_nested_tree() {
    let tokens = lex("+[>[-]<].").unwrap();
    let expressions = parse(&tokens).expect("balanced source parses");
    assert_eq!(
        expressions,
        vec![
            Expression::ModifyRegister(1),
            Expression::Loop(vec![
                Expression::MovePointer(1),
                Expression::Loop(vec![Expression::ModifyRegister(-1)]),
                Expression::MovePointer(-1),
            ]),
            Expression::PrintRegister,
        ]
    );
}

#[test]
fn parser_round_trips_simple_symbols() {
    let tokens = lex("><+-.,").unwrap();
    let expressions = parse(&tokens).expect("no brackets at all");
    assert_eq!(
        expressions,
        vec![
            Expression::MovePointer(1),
            Expression::MovePointer(-1),
            Expression::ModifyRegister(1),
            Expression::ModifyRegister(-1),
            Expression::PrintRegister,
            Expression::ReadToRegister,
        ]
    );
}

#[test]
fn parser_truncates_at_stray_close_bracket() {
    // Equal counts but wrong order: the descent stops at the stray loop-end
    // and silently truncates the top level.
    let tokens = lex("+][+").unwrap();
    let expressions = parse(&tokens).expect("counts are equal");
    assert_eq!(expressions, vec![Expression::ModifyRegister(1)]);
}

#[test]
fn memory_starts_as_one_zero_cell() {
    let m = Memory::new();
    assert_eq!(m.get_current_register_value(), 0);
}

#[test]
fn memory_set_and_modify_current_cell() {
    let mut m = Memory::new();
    m.set_current_register_value(40);
    m.modify_current_register_value(&2);
    assert_eq!(m.get_current_register_value(), 42);
    m.modify_current_register_value(&(-50));
    assert_eq!(m.get_current_register_value(), -8);
}

#[test]
fn cell_arithmetic_wraps_at_the_isize_boundary() {
    let mut m = Memory::new();
    m.set_current_register_value(isize::MAX);
    m.modify_current_register_value(&1);
    assert_eq!(m.get_current_register_value(), isize::MIN);
    m.modify_current_register_value(&(-1));
    assert_eq!(m.get_current_register_value(), isize::MAX);
}

#[test]
fn memory_move_below_zero_is_illegal_and_changes_nothing() {
    let mut m = Memory::new();
    m.set_current_register_value(9);
    let r = m.move_pointer(&(-1));
    assert_eq!(r, Err(RuntimeError::IllegalMemoryAccess()));
    assert_eq!(m.get_current_register_value(), 9);
}

#[test]
fn memory_grows_with_zero_cells_and_keeps_old_values() {
    let mut m = Memory::new();
    m.set_current_register_value(7);
    // Far beyond the current end in a single step.
    m.move_pointer(&5).expect("growth succeeds");
    assert_eq!(m.get_current_register_value(), 0);
    m.set_current_register_value(11);
    m.move_pointer(&(-5)).expect("back to the first cell");
    assert_eq!(m.get_current_register_value(), 7);
    m.move_pointer(&5).expect("forward again");
    assert_eq!(m.get_current_register_value(), 11);
}

#[test]
fn bell_program_prints_code_point_seven() {
    let (r, printed) = run_with("++>+++++[<+>-]<.", Vec::new(), u64::MAX);
    assert_eq!(r, Ok(Progress::Completed));
    assert_eq!(printed, vec!['\u{7}']);
}

#[test]
fn move_left_on_fresh_tape_is_illegal_access() {
    let (r, printed) = run_with("<", Vec::new(), u64::MAX);
    assert_eq!(r, Err(RuntimeError::IllegalMemoryAccess()));
    assert_eq!(printed, Vec::new());
}

#[test]
fn input_value_is_stored_and_printed() {
    let (r, printed) = run_with(",.", vec![65], u64::MAX);
    assert_eq!(r, Ok(Progress::Completed));
    assert_eq!(printed, vec!['A']);
}

#[test]
fn exhausted_script_reads_zero() {
    let (r, printed) = run_with(",+.", Vec::new(), u64::MAX);
    assert_eq!(r, Ok(Progress::Completed));
    assert_eq!(printed, vec!['\u{1}']);
}

#[test]
fn negative_cell_cannot_print() {
    let (r, printed) = run_with(",.", vec![-1], u64::MAX);
    assert_eq!(r, Err(RuntimeError::UnableToPrintValueAsCharacter()));
    assert_eq!(printed, Vec::new());
}

#[test]
fn surrogate_code_point_cannot_print() {
    let (r, _) = run_with(",.", vec![0xD800], u64::MAX);
    assert_eq!(r, Err(RuntimeError::UnableToPrintValueAsCharacter()));
}

#[test]
fn cell_beyond_code_points_cannot_print() {
    let (r, printed) = run_with(",.", vec![0x110000], u64::MAX);
    assert_eq!(r, Err(RuntimeError::UnableToPrintValueAsCharacter()));
    assert_eq!(printed, Vec::new());
}

#[test]
fn negative_cell_with_printable_low_bits_cannot_print() {
    // 65 - 2^32: its low 32 bits spell 'A', but the value itself is no
    // code point, so printing must fail rather than print 'A'.
    let (r, printed) = run_with(",.", vec![65 - (1isize << 32)], u64::MAX);
    assert_eq!(r, Err(RuntimeError::UnableToPrintValueAsCharacter()));
    assert_eq!(printed, Vec::new());
}

#[test]
fn loop_with_zero_condition_runs_no_iteration() {
    let (r, printed) = run_with("[.]", Vec::new(), u64::MAX);
    assert_eq!(r, Ok(Progress::Completed));
    assert_eq!(printed, Vec::new());
}

#[test]
fn failure_inside_loop_keeps_earlier_output() {
    // One character is printed, then the pointer moves below zero inside
    // the loop; what was printed stays visible.
    let (r, printed) = run_with("+.[<]", Vec::new(), u64::MAX);
    assert_eq!(r, Err(RuntimeError::IllegalMemoryAccess()));
    assert_eq!(printed, vec!['\u{1}']);
}

#[test]
fn endless_loop_runs_out_of_steps() {
    let (r, printed) = run_with("+[]", Vec::new(), 5);
    assert_eq!(r, Ok(Progress::OutOfSteps));
    assert_eq!(printed, Vec::new());
}

#[test]
fn runtime_error_messages_are_fixed() {
    assert_eq!(
        RuntimeError::IllegalMemoryAccess().message(),
        "Pointer moved out of memory."
    );
    assert_eq!(
        RuntimeError::UnableToPrintValueAsCharacter().message(),
        "Unable to print register value as character."
    );
}

#[test]
fn script_input_is_consumed_in_order() {
    let (r, printed) = run_with(",>,>,<<.>.>.", vec![72, 73, 33], u64::MAX);
    assert_eq!(r, Ok(Progress::Completed));
    assert_eq!(printed, vec!['H', 'I', '!']);
}
