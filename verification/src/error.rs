//! What a failed parse reports.

use vstd::prelude::*;

verus! {

/// Why the input is not a value.
#[derive(Debug, Clone, Copy, PartialEq, Eq, Structural)]
pub enum ErrorKind {
    /// The text at the position starts or continues no form that the grammar
    /// allows there: it holds a character that cannot stand there, or it
    /// ends where a value is to start outside brackets.
    UnexpectedCharacter,
    /// The input ends inside a string, or within brackets: where a value or
    /// a keyword argument is due in them, or before their closing delimiter.
    UnterminatedLiteral,
    /// A backslash in a string is followed by a character that cannot be
    /// escaped.
    InvalidEscapeSequence,
    /// An identifier is due at the position and none starts there.
    EmptyIdentifier,
}

/// A failed parse: its kind, and the number of characters of the input that
/// lie before the place where it went wrong.
#[derive(Debug, Clone, Copy, PartialEq, Eq, Structural)]
pub struct ParseError {
    pub kind: ErrorKind,
    pub position: usize,
}

} // verus!
