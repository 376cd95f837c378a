//! The closed set of parse failures, each tied to the line that caused it.
use vstd::prelude::*;

verus! {

/// Which numeric reading of a token failed.
#[derive(Clone, Copy, Debug, PartialEq, Eq, Structural)]
pub enum NumericKind {
    Int,
    Float,
}

/// What went wrong on a line.
#[derive(Clone, Copy, Debug, PartialEq, Eq, Structural)]
pub enum ErrorKind {
    /// A line with no tokens, or a directive with the wrong number of arguments.
    InvalidFormat,
    /// A token that does not read as the number it must be.
    NumericParse(NumericKind),
    /// A face corner whose position or normal index is absent, zero, or past
    /// the entries defined so far.
    IndexOutOfRange,
}

/// A parse failure: its kind, the 0-based index of the line, and the line's text.
#[derive(Debug)]
pub struct Error {
    pub kind: ErrorKind,
    pub index: usize,
    pub line: String,
}

impl Error {
    pub fn new(kind: ErrorKind, index: usize, line: String) -> (r: Error)
        ensures
            r.kind == kind,
            r.index == index,
            r.line@ == line@,
    {
        Error { kind, index, line }
    }

    /// A failure of kind `InvalidFormat`.
    pub fn invalid(index: usize, line: String) -> (r: Error)
        ensures
            r.kind == ErrorKind::InvalidFormat,
            r.index == index,
            r.line@ == line@,
    {
        Error::new(ErrorKind::InvalidFormat, index, line)
    }
}

} // verus!
