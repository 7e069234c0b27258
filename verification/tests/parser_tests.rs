use turing::ast::{Command, SpannedCommand};
use turing::parser::parse;

#[test]
fn test_parse_add_integer() {
    let input = "123";
    let expected = vec![SpannedCommand { command: Command::AddInteger(123), start: 0, end: 3 }];
    assert_eq!(parse(input), Ok(expected));
}

#[test]
fn test_parse_add_string() {
    let input = "\"hello\"";
    let expected = vec![SpannedCommand {
        command: Command::AddString(String::from("hello")),
        start: 0,
        end: 6,
    }];
    assert_eq!(parse(input), Ok(expected));
}

#[test]
fn test_write_integer() {
    let input = "[123]";
    let expected = vec![SpannedCommand { command: Command::WriteInteger(123), start: 0, end: 5 }];
    assert_eq!(parse(input), Ok(expected));
}

#[test]
fn test_write_string() {
    let input = "[\"hello\"]";
    let expected = vec![SpannedCommand {
        command: Command::WriteString(String::from("hello")),
        start: 0,
        end: 9,
    }];
    assert_eq!(parse(input), Ok(expected));
}

#[test]
fn test_parse() {
    let input = "fun add_one +> end";
    let expected = vec![SpannedCommand {
        command: Command::FunctionDefinition(
            String::from("add_one"),
            vec![SpannedCommand { command: Command::RightAdd(None), start: 12, end: 14 }],
        ),
        start: 0,
        end: 18,
    }];
    assert_eq!(parse(input), Ok(expected));
}

#[test]
fn test_parse_if() {
    let input = "if add_one +> else add_two -> end";
    let expected = vec![SpannedCommand {
        command: Command::If(
            vec![
                SpannedCommand {
                    command: Command::FunctionCall(String::from("add_one")),
                    start: 3,
                    end: 10,
                },
                SpannedCommand { command: Command::RightAdd(None), start: 11, end: 13 },
            ],
            Some(vec![
                SpannedCommand {
                    command: Command::FunctionCall(String::from("add_two")),
                    start: 19,
                    end: 26,
                },
                SpannedCommand { command: Command::RightSubtract(None), start: 27, end: 29 },
            ]),
        ),
        start: 0,
        end: 33,
    }];
    assert_eq!(parse(input), Ok(expected));
}

#[test]
fn test_parse_single_if() {
    let input = "if add_one +> end";
    let expected = vec![SpannedCommand {
        command: Command::If(
            vec![
                SpannedCommand {
                    command: Command::FunctionCall(String::from("add_one")),
                    start: 3,
                    end: 10,
                },
                SpannedCommand { command: Command::RightAdd(None), start: 11, end: 13 },
            ],
            None,
        ),
        start: 0,
        end: 17,
    }];
    assert_eq!(parse(input), Ok(expected));
}

#[test]
fn test_parse_while() {
    let input = "while add_one +> end";
    let expected = vec![SpannedCommand {
        command: Command::While(vec![
            SpannedCommand {
                command: Command::FunctionCall(String::from("add_one")),
                start: 6,
                end: 13,
            },
            SpannedCommand { command: Command::RightAdd(None), start: 14, end: 16 },
        ]),
        start: 0,
        end: 20,
    }];
    assert_eq!(parse(input), Ok(expected));
}

#[test]
fn test_parse_function_definition() {
    let input = "fun add_one +> end";
    let expected = vec![SpannedCommand {
        command: Command::FunctionDefinition(
            String::from("add_one"),
            vec![SpannedCommand { command: Command::RightAdd(None), start: 12, end: 14 }],
        ),
        start: 0,
        end: 18,
    }];
    assert_eq!(parse(input), Ok(expected));
}

#[test]
fn test_parse_get_function() {
    let input = "getfun add_one";
    let expected = vec![SpannedCommand {
        command: Command::GetFunction(String::from("add_one")),
        start: 0,
        end: 14,
    }];
    assert_eq!(parse(input), Ok(expected));
}

#[test]
fn test_parse_call_function() {
    let input = "call";
    let expected = vec![SpannedCommand { command: Command::CallFunction, start: 0, end: 4 }];
    assert_eq!(parse(input), Ok(expected));
}

#[test]
fn test_parse_output_number() {
    let input = ".";
    let expected = vec![SpannedCommand { command: Command::OutputNumber, start: 0, end: 1 }];
    assert_eq!(parse(input), Ok(expected));
}

#[test]
fn test_parse_output_char() {
    let input = ",";
    let expected = vec![SpannedCommand { command: Command::OutputChar, start: 0, end: 1 }];
    assert_eq!(parse(input), Ok(expected));
}

#[test]
fn test_parse_read_key() {
    let input = "?";
    let expected = vec![SpannedCommand { command: Command::ReadKey, start: 0, end: 1 }];
    assert_eq!(parse(input), Ok(expected));
}

#[test]
fn test_parse_comment() {
    let input = "# this is a comment\n";
    let expected = vec![SpannedCommand { command: Command::Comment, start: 0, end: 20 }];
    assert_eq!(parse(input), Ok(expected));
}

#[test]
fn test_parse_move_left() {
    let input = "<";
    let expected = vec![SpannedCommand { command: Command::MoveLeft, start: 0, end: 1 }];
    assert_eq!(parse(input), Ok(expected));
}

#[test]
fn test_parse_move_right() {
    let input = ">";
    let expected = vec![SpannedCommand { command: Command::MoveRight, start: 0, end: 1 }];
    assert_eq!(parse(input), Ok(expected));
}

#[test]
fn test_parse_read_move_left() {
    let input = "|>";
    let expected = vec![SpannedCommand { command: Command::ReadMoveRight, start: 0, end: 2 }];
    assert_eq!(parse(input), Ok(expected));
}

#[test]
fn test_parse_read_move_right() {
    let input = "<|";
    let expected = vec![SpannedCommand { command: Command::ReadMoveLeft, start: 0, end: 2 }];
    assert_eq!(parse(input), Ok(expected));
}

#[test]
fn test_parse_move_n_left() {
    let input = "<123)";
    let expected = vec![SpannedCommand { command: Command::MoveNLeft(123), start: 0, end: 5 }];
    assert_eq!(parse(input), Ok(expected));
}

#[test]
fn test_parse_move_n_right() {
    let input = "(123>";
    let expected = vec![SpannedCommand { command: Command::MoveNRight(123), start: 0, end: 5 }];
    assert_eq!(parse(input), Ok(expected));
}

#[test]
fn test_parse_increment() {
    let input = "+";
    let expected = vec![SpannedCommand { command: Command::Increment, start: 0, end: 1 }];
    assert_eq!(parse(input), Ok(expected));
}

#[test]
fn test_parse_decrement() {
    let input = "-";
    let expected = vec![SpannedCommand { command: Command::Decrement, start: 0, end: 1 }];
    assert_eq!(parse(input), Ok(expected));
}

#[test]
fn test_parse_left_add() {
    let input = "<+";
    let expected = vec![SpannedCommand { command: Command::LeftAdd(None), start: 0, end: 2 }];
    assert_eq!(parse(input), Ok(expected));
}

#[test]
fn test_parse_left_add_with_value() {
    let input = "<123+";
    let expected = vec![SpannedCommand {
        command: Command::LeftAdd(Some(123)),
        start: 0,
        end: 5,
    }];
    assert_eq!(parse(input), Ok(expected));
}

#[test]
fn test_parse_nested_if() {
    let input = "if add_one +> else if add_two -> end end";
    let expected = vec![SpannedCommand {
        command: Command::If(
            vec![
                SpannedCommand {
                    command: Command::FunctionCall(String::from("add_one")),
                    start: 3,
                    end: 10,
                },
                SpannedCommand { command: Command::RightAdd(None), start: 11, end: 13 },
            ],
            Some(vec![SpannedCommand {
                command: Command::If(
                    vec![
                        SpannedCommand {
                            command: Command::FunctionCall(String::from("add_two")),
                            start: 22,
                            end: 29,
                        },
                        SpannedCommand {
                            command: Command::RightSubtract(None),
                            start: 30,
                            end: 32,
                        },
                    ],
                    None,
                ),
                // The inner block's span closes at its own `end` token; the
                // final `end` belongs to the outer block.
                start: 19,
                end: 36,
            }]),
        ),
        start: 0,
        end: 40,
    }];
    assert_eq!(parse(input), Ok(expected));
}
