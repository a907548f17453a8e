//! The ways in which a scan can fail.

use vstd::prelude::*;

verus! {

/// What went wrong.
#[derive(Clone, Copy, Debug, PartialEq, Eq, Structural)]
pub enum ErrorKind {
    /// A string literal was opened and the input ended before its closing quote.
    UnterminatedString,
    /// A run of digits and dots does not spell a number.
    InvalidNumberLiteral,
    /// A character that begins no token.
    UnexpectedCharacter,
}

/// A fatal scan error: its kind, and the line on which it was detected.
///
/// Lines are counted from zero; each newline character that the scanner has
/// passed before detecting the error adds one.
#[derive(Clone, Copy, Debug, PartialEq, Eq, Structural)]
pub struct ScanError {
    pub kind: ErrorKind,
    pub line: usize,
}

impl ScanError {
    /// Builds the error of the given kind for the given line.
    pub fn new(kind: ErrorKind, line: usize) -> (e: Self)
        ensures
            e.kind == kind,
            e.line == line,
    {
        ScanError { kind, line }
    }
}

} // verus!
