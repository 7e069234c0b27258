use turing::ast::{Command, SpannedCommand};
use turing::interpreter::{display_char, key_cell_value, Interpreter, InterpreterUtils, Out, Status};
use turing::parser::parse;
use turing::tape::{Direction, Number, Tape};
use turing::{ParseErrorKind, RuntimeError};

fn run(src: &str) -> (Interpreter, Status) {
    let commands = parse(src).unwrap();
    let mut interpreter = Interpreter::new();
    let st = interpreter.interpret_commands(&commands);
    (interpreter, st)
}

#[test]
fn scenario_add_integer() {
    let (i, st) = run("5");
    assert_eq!(st, Status::Finished);
    assert_eq!(i.get_cell(1), Some(5));
    assert_eq!(i.get_cell(0), Some(0));
    assert_eq!(i.cursor(), 1);
}

#[test]
fn scenario_right_add() {
    let (i, st) = run("[3]+>");
    assert_eq!(st, Status::Finished);
    assert_eq!(i.get_cell(0), Some(3));
    assert_eq!(i.get_cell(1), Some(3));
}

#[test]
fn write_in_place_round_trip() {
    let (i, st) = run("[42]");
    assert_eq!(st, Status::Finished);
    assert_eq!(i.get_cell(0), Some(42));
    assert_eq!(i.cursor(), 0);
}

#[test]
fn scenario_if_zero_skips() {
    let (i, st) = run("if + end");
    assert_eq!(st, Status::Finished);
    assert_eq!(i.get_cell(0), Some(0));
}

#[test]
fn scenario_if_nonzero_runs_then_branch() {
    let (i, st) = run("[2] if + end");
    assert_eq!(st, Status::Finished);
    assert_eq!(i.get_cell(0), Some(3));
}

#[test]
fn scenario_if_else_branch() {
    let (i, st) = run("if + else [9] end");
    assert_eq!(st, Status::Finished);
    assert_eq!(i.get_cell(0), Some(9));
}

#[test]
fn scenario_get_function_index() {
    let (i, st) = run("fun f + end getfun f");
    assert_eq!(st, Status::Finished);
    assert_eq!(i.get_cell(0), Some(0));
}

#[test]
fn scenario_second_function_index() {
    let (i, st) = run("fun f + end fun g - end getfun g");
    assert_eq!(st, Status::Finished);
    assert_eq!(i.get_cell(0), Some(1));
}

#[test]
fn scenario_add_string() {
    let (i, st) = run("\"Hi\"");
    assert_eq!(st, Status::Finished);
    assert_eq!(i.get_cell(1), Some('H' as i64));
    assert_eq!(i.get_cell(2), Some('i' as i64));
    assert_eq!(i.cursor(), 2);
}

#[test]
fn scenario_comment_is_a_no_op() {
    let (i, st) = run("#comment\n+");
    assert_eq!(st, Status::Finished);
    assert_eq!(i.get_cell(0), Some(1));
    assert_eq!(i.cursor(), 0);
}

#[test]
fn while_zero_cell_runs_zero_times() {
    let (i, st) = run("while + end");
    assert_eq!(st, Status::Finished);
    assert_eq!(i.get_cell(0), Some(0));
    assert_eq!(i.tape_len(), 1);
}

#[test]
fn while_counts_down() {
    // Three iterations: each adds one to the right and lowers the counter.
    let (i, st) = run("[3] while +> - end");
    assert_eq!(st, Status::Finished);
    assert_eq!(i.get_cell(0), Some(0));
    assert_eq!(i.get_cell(1), Some(3 + 2 + 1));
}

#[test]
fn loop_runs_at_least_once() {
    let (i, st) = run("loop 7 < [0] end");
    assert_eq!(st, Status::Finished);
    assert_eq!(i.get_cell(1), Some(7));
    assert_eq!(i.get_cell(0), Some(0));
}

#[test]
fn move_left_saturates_at_zero() {
    let (i, st) = run("< < <");
    assert_eq!(st, Status::Finished);
    assert_eq!(i.cursor(), 0);
}

#[test]
fn tape_only_grows() {
    let commands_a = parse("(5>").unwrap();
    let commands_b = parse("<10)").unwrap();
    let mut i = Interpreter::new();
    assert_eq!(i.tape_len(), 1);
    i.interpret_commands(&commands_a);
    assert_eq!(i.tape_len(), 6);
    i.interpret_commands(&commands_b);
    assert!(i.tape_len() >= 6);
    assert_eq!(i.cursor(), 0);
}

#[test]
fn function_call_by_name() {
    let (i, st) = run("fun bump + end bump bump");
    assert_eq!(st, Status::Finished);
    assert_eq!(i.get_cell(0), Some(2));
}

#[test]
fn function_call_inside_while_body() {
    // The body of the loop is a single bare call, kept by the parser.
    let (i, st) = run("fun dec - end [3] while dec end");
    assert_eq!(st, Status::Finished);
    assert_eq!(i.get_cell(0), Some(0));
}

#[test]
fn recursive_function_call() {
    // The function calls itself from inside its conditional until the
    // counter reaches zero.
    let (i, st) = run("fun f - if f end end [3] f");
    assert_eq!(st, Status::Finished);
    assert_eq!(i.get_cell(0), Some(0));
}

#[test]
fn key_cell_values() {
    assert_eq!(key_cell_value(true, ' ', false), '\n' as i64);
    assert_eq!(key_cell_value(false, 'a', true), 'A' as i64);
    assert_eq!(key_cell_value(false, 'q', false), 'q' as i64);
}

#[test]
fn unknown_function_is_a_no_op() {
    let (i, st) = run("nothing_here +");
    assert_eq!(st, Status::Finished);
    assert_eq!(i.get_cell(0), Some(1));
}

#[test]
fn call_function_by_cell_value() {
    // Register two functions, select the second by its index, and call it.
    let (i, st) = run("fun a + end fun b 9 end [1] call");
    assert_eq!(st, Status::Finished);
    assert_eq!(i.get_cell(1), Some(9));
}

#[test]
fn movement_by_cell_value() {
    let (i, st) = run("[3]|>");
    assert_eq!(st, Status::Finished);
    assert_eq!(i.cursor(), 3);
    let (j, st2) = run("(4>[2]<|");
    assert_eq!(st2, Status::Finished);
    assert_eq!(j.cursor(), 2);
}

#[test]
fn directional_arithmetic_family() {
    let (i, _) = run("[3]->");
    assert_eq!(i.get_cell(1), Some(-3));
    let (i, _) = run("[3]+>[4]*>");
    // Three lands in the right-hand cell, then four multiplies it.
    assert_eq!(i.get_cell(1), Some(12));
    let (i, _) = run("[7]/>");
    // The right-hand cell starts at zero, and zero divided by seven is zero.
    assert_eq!(i.get_cell(1), Some(0));
    let (i, _) = run("9 < [4] %>");
    // cell one holds nine; back on cell zero, write four; the right-hand
    // neighbour takes nine modulo four.
    assert_eq!(i.get_cell(1), Some(1));
}

#[test]
fn left_arithmetic_with_offset() {
    let (i, st) = run("5 3 <2+");
    // With the cursor on the second literal, the offset reaches cell zero.
    assert_eq!(st, Status::Finished);
    assert_eq!(i.get_cell(0), Some(3));
    assert_eq!(i.get_cell(1), Some(5));
}

#[test]
fn division_by_zero_fails() {
    let (_, st) = run("/>");
    assert_eq!(st, Status::Failed(RuntimeError::DivisionByZero));
}

#[test]
fn modulo_by_zero_fails() {
    let (_, st) = run("%>");
    assert_eq!(st, Status::Failed(RuntimeError::DivisionByZero));
}

#[test]
fn increment_overflow_fails() {
    let (_, st) = run("[9223372036854775807]+");
    assert_eq!(st, Status::Failed(RuntimeError::Overflow));
}

#[test]
fn left_target_out_of_bounds_fails() {
    let (_, st) = run("<+");
    assert_eq!(st, Status::Failed(RuntimeError::OutOfBounds));
}

#[test]
fn read_key_waits_then_stores() {
    let commands = parse("?+").unwrap();
    let mut i = Interpreter::new();
    let st = i.interpret_commands(&commands);
    assert_eq!(st, Status::NeedKey);
    i.provide_key('A' as i64);
    let st2 = i.run_steps(u64::MAX);
    assert_eq!(st2, Status::Finished);
    assert_eq!(i.get_cell(0), Some('A' as i64 + 1));
}

#[test]
fn output_number_and_char() {
    let (mut i, st) = run("5.,");
    assert_eq!(st, Status::Finished);
    let out = i.take_output();
    assert_eq!(out, vec![Out::Num(5), Out::Ch(5)]);
    assert!(i.take_output().is_empty());
}

#[test]
fn output_char_display_rules() {
    let (mut i, _) = run("[72],[55296],");
    let out = i.take_output();
    assert_eq!(out, vec![Out::Ch(72), Out::Ch(55296)]);
    assert_eq!(display_char(72), 'H');
    // A surrogate value is not a code point and displays as a space.
    assert_eq!(display_char(55296), ' ');
}

#[test]
fn parse_error_kinds() {
    assert_eq!(parse("|x").unwrap_err().kind, ParseErrorKind::ExpectedMoveRight);
    assert_eq!(
        parse("99999999999999999999").unwrap_err().kind,
        ParseErrorKind::MalformedNumber
    );
    assert_eq!(parse("\"abc").unwrap_err().kind, ParseErrorKind::UnterminatedString);
    assert_eq!(parse("fun 5 end").unwrap_err().kind, ParseErrorKind::ExpectedFunctionName);
    assert_eq!(parse("getfun").unwrap_err().kind, ParseErrorKind::ExpectedFunctionName);
    assert_eq!(parse("<12").unwrap_err().kind, ParseErrorKind::UnterminatedOffset);
    assert_eq!(parse("[\"x\"y").unwrap_err().kind, ParseErrorKind::ExpectedClosingBracket);
    assert_eq!(parse("^").unwrap_err().kind, ParseErrorKind::UnexpectedChar);
    assert_eq!(parse("+a>").unwrap_err().kind, ParseErrorKind::MalformedNumber);
}

#[test]
fn parse_error_offset_points_at_token() {
    let e = parse("  ^").unwrap_err();
    assert_eq!(e.offset, 2);
}

#[test]
fn unicode_identifier_and_spans() {
    let parsed = parse("héllo").unwrap();
    // The accented letter occupies two bytes, so the span ends at six.
    assert_eq!(
        parsed,
        vec![SpannedCommand {
            command: Command::FunctionCall(String::from("héllo")),
            start: 0,
            end: 6,
        }]
    );
}

#[test]
fn write_string_ends_one_past() {
    let (i, st) = run("[\"Hi\"]");
    assert_eq!(st, Status::Finished);
    assert_eq!(i.get_cell(0), Some('H' as i64));
    assert_eq!(i.get_cell(1), Some('i' as i64));
    assert_eq!(i.cursor(), 2);
}

#[test]
fn escaped_quote_stays_in_string() {
    let parsed = parse("\"a\\\"b\"").unwrap();
    assert_eq!(
        parsed,
        vec![SpannedCommand {
            command: Command::AddString(String::from("a\\\"b")),
            start: 0,
            end: 5,
        }]
    );
}

#[test]
fn number_trait_on_narrow_cells() {
    assert_eq!(<i32 as Number>::from(5i64), 5i32);
    assert_eq!(<i16 as Number>::from(-3i64), -3i16);
    assert_eq!(<i8 as Number>::from(7i64), 7i8);
    assert!(Number::is_zero(&0i64));
    assert!(Number::is_nonzero(&-1i32));
    assert_eq!(Number::to_u64(&-1i64), u64::MAX);
    assert_eq!(Number::checked_add(i8::MAX, 1i8), None);
    assert_eq!(Number::checked_div(7i64, 2i64), Some(3));
    assert_eq!(Number::checked_rem(-7i64, 2i64), Some(-1));
    assert_eq!(Number::checked_div(1i64, 0i64), None);
}

#[test]
fn write_char_stores_code_point() {
    let mut i = Interpreter::new();
    i.write_char('Q');
    assert_eq!(i.get_cell(0), Some('Q' as i64));
    assert_eq!(i.cursor(), 0);
}

#[test]
fn tape_trait_on_vectors() {
    let mut v: Vec<i64> = vec![2, 3];
    assert!(Tape::in_bounds(&v, 1));
    assert!(!Tape::in_bounds(&v, 2));
    assert_eq!(Tape::get(&v, 0), 2);
    Tape::set(&mut v, 1, 10);
    assert_eq!(Tape::get(&v, 1), 10);
    // A right-hand target past the end grows the tape first.
    assert_eq!(Tape::add(&mut v, 1, Direction::Right, Some(3)), Ok(()));
    assert_eq!(v, vec![2, 10, 0, 0, 10]);
    assert_eq!(Tape::div(&mut v, 2, Direction::Left, None), Err(RuntimeError::DivisionByZero));
    assert_eq!(
        Tape::sub(&mut v, 0, Direction::Left, None),
        Err(RuntimeError::OutOfBounds)
    );
    Tape::grow(&mut v);
    assert_eq!(v.len(), 6);
    assert_eq!(Tape::get(&v, 5), 0);
}
