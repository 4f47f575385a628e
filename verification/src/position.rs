//! Source locations attached to every token and AST node.

use vstd::prelude::*;

verus! {

/// A source-location value: a 1-based line number and the span of a token or
/// node as character offsets into the original input.
#[derive(Debug, PartialEq, Eq, Structural, Copy, Clone)]
pub struct Position {
    pub line: usize,
    pub column_start: usize,
    pub column_end: usize,
}

impl Position {
    pub fn new(line: usize, column_start: usize, column_end: usize) -> (p: Position)
        ensures
            p == (Position { line, column_start, column_end }),
    {
        Position { line, column_start, column_end }
    }

    /// A zero-width span: both columns at the same offset.
    pub fn new_single_position(line: usize, column: usize) -> (p: Position)
        ensures
            p == (Position { line, column_start: column, column_end: column }),
    {
        Position { line, column_start: column, column_end: column }
    }
}

} // verus!
