use vstd::prelude::*;

verus! {

/// The position of a token in the source: its line (counted from 1), the
/// byte offset where it starts and its length in bytes.
#[derive(Debug, PartialEq, Eq, Clone, Copy, Structural)]
pub struct Span {
    pub offset: usize,
    pub len: usize,
    pub line: usize,
}

impl Span {
    /// Builds a span from a line, a byte offset and a byte length.
    pub fn new(line: usize, offset: usize, len: usize) -> (s: Span)
        ensures
            s.line == line,
            s.offset == offset,
            s.len == len,
    {
        Span { offset, len, line }
    }

    /// The byte offset where the spanned text starts.
    pub fn offset(&self) -> (r: usize)
        ensures
            r == self.offset,
    {
        self.offset
    }

    /// The length of the spanned text in bytes.
    pub fn len(&self) -> (r: usize)
        ensures
            r == self.len,
    {
        self.len
    }

    /// The line on which the spanned text stands.
    pub fn line(&self) -> (r: usize)
        ensures
            r == self.line,
    {
        self.line
    }

    /// Builds a span from a `(line, offset, len)` triple.
    pub fn from_triple(value: (usize, usize, usize)) -> (s: Span)
        ensures
            s.line == value.0,
            s.offset == value.1,
            s.len == value.2,
    {
        Span { line: value.0, offset: value.1, len: value.2 }
    }
}

} // verus!
