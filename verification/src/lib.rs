//! Front end of a small scripting language: a maximal-munch lexer that turns
//! source text into an EOF-terminated token sequence, and a recursive-descent
//! parser that turns that sequence into an expression tree, together with a
//! prefix-notation printer for the tree. Scanning recovers from bad input and
//! collects diagnostics; parsing stops at the first fatal diagnostic and
//! yields it instead of a partial tree.
use vstd::prelude::*;

pub mod ast;
pub mod parser;
pub mod scanner;
pub mod diag;
pub mod token;

verus! {

/// A diagnostic record: a line number, the context in which the error arose,
/// and a human-readable message. The scanner and parser hand these to their
/// caller instead of writing to any output themselves.
pub struct Report {
    pub line: i32,
    pub context: String,
    pub message: String,
}

/// Builds the diagnostic record for an error at `line` with the given
/// context and message.
pub fn report(line: i32, context: String, message: String) -> (r: Report)
    ensures
        r.line == line,
        r.context == context,
        r.message == message,
{
    Report { line, context, message }
}

/// Builds the diagnostic record for an error at `line` with no context.
pub fn error(line: i32, message: String) -> (r: Report)
    ensures
        r.line == line,
        r.context@ == Seq::<char>::empty(),
        r.message == message,
{
    report(line, String::new(), message)
}

} // verus!
