use vstd::prelude::*;

pub mod ast;
pub mod chars;
pub mod interpreter;
pub mod laws;
pub mod parser;
pub mod tape;

pub use tape::{Direction, Number, Tape};

verus! {

/// Classifies the ways a source text can fail to lex into a command sequence.
#[derive(Clone, Copy, Debug, PartialEq, Eq, Structural)]
pub enum ParseErrorKind {
    MalformedNumber,
    UnterminatedString,
    UnterminatedOffset,
    UnexpectedChar,
    ExpectedFunctionName,
    ExpectedMoveRight,
    ExpectedClosingBracket,
}

/// A fatal lexing failure, reported with the byte offset of the token
/// that could not be read.
#[derive(Clone, Copy, Debug, PartialEq, Eq, Structural)]
pub struct ParseError {
    pub kind: ParseErrorKind,
    pub offset: usize,
}

/// A failure during execution, surfaced as a value rather than a panic.
#[derive(Clone, Copy, Debug, PartialEq, Eq, Structural)]
pub enum RuntimeError {
    DivisionByZero,
    Overflow,
    OutOfBounds,
}

} // verus!
