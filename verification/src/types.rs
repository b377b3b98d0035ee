//! Plain data shared by every component.

use vstd::prelude::*;

verus! {

/// A cursor position as editors count it: a zero-based line and a column in
/// UTF-16 code units from the start of that line.
#[derive(Clone, Copy, Debug, PartialEq, Eq, Structural)]
pub struct Position {
    pub line: u32,
    pub character: u32,
}

impl Position {
    pub fn new(line: u32, character: u32) -> (p: Position)
        ensures
            p.line == line,
            p.character == character,
    {
        Position { line, character }
    }
}

/// A span of text between two positions; the end is not part of it.
#[derive(Clone, Copy, Debug, PartialEq, Eq, Structural)]
pub struct Range {
    pub start: Position,
    pub end: Position,
}

impl Range {
    pub fn new(start: Position, end: Position) -> (r: Range)
        ensures
            r.start == start,
            r.end == end,
    {
        Range { start, end }
    }
}

/// One edit of a document: the span to replace and what replaces it. Without
/// a span the whole text is replaced.
#[derive(Debug)]
pub struct Change {
    pub range: Option<Range>,
    pub text: String,
}

} // verus!
