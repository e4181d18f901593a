//! The error taxonomy: what the scanner can report while it keeps going, and
//! what stops a parse. Both are plain values handed to the caller; nothing
//! here writes output or aborts the process.
use vstd::prelude::*;

use crate::token::TokenType;

verus! {

/// A scanning diagnostic. Scanning recovers from both: an unexpected
/// character is skipped, and an unterminated string ends the scan at the end
/// of the source; in either case the scanner still returns a well-formed,
/// EOF-terminated token sequence.
#[derive(Clone, Copy, Debug, PartialEq, Eq, Structural)]
pub enum LexicalError {
    UnexpectedCharacter { line: i32, character: char },
    UnterminatedString { line: i32 },
}

/// The mathematical model of a `LexicalError`.
pub ghost enum LexicalErrorView {
    UnexpectedCharacter { line: int, character: char },
    UnterminatedString { line: int },
}

impl View for LexicalError {
    type V = LexicalErrorView;

    open spec fn view(&self) -> LexicalErrorView {
        match self {
            LexicalError::UnexpectedCharacter { line, character } => LexicalErrorView::UnexpectedCharacter {
                line: *line as int,
                character: *character,
            },
            LexicalError::UnterminatedString { line } => LexicalErrorView::UnterminatedString {
                line: *line as int,
            },
        }
    }
}

/// A parsing diagnostic, fatal for the parse call that raised it: the parser
/// yields it instead of a partial tree. `ExpectedToken` reports a required
/// token (such as the `)` closing a group) that was not there; `found` is the
/// kind that stood in its place. `InvalidPrimary` reports a token that cannot
/// begin a primary expression.
#[derive(Clone, Copy, Debug, PartialEq, Eq, Structural)]
pub enum ParseError {
    ExpectedToken { line: i32, expected: TokenType, found: TokenType },
    InvalidPrimary { line: i32, found: TokenType },
}

/// The mathematical model of a `ParseError`.
pub ghost enum ParseErrorView {
    ExpectedToken { line: int, expected: TokenType, found: TokenType },
    InvalidPrimary { line: int, found: TokenType },
}

impl View for ParseError {
    type V = ParseErrorView;

    open spec fn view(&self) -> ParseErrorView {
        match self {
            ParseError::ExpectedToken { line, expected, found } => ParseErrorView::ExpectedToken {
                line: *line as int,
                expected: *expected,
                found: *found,
            },
            ParseError::InvalidPrimary { line, found } => ParseErrorView::InvalidPrimary {
                line: *line as int,
                found: *found,
            },
        }
    }
}

} // verus!
