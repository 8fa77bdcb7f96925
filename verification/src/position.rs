use vstd::prelude::*;

verus! {

/// A cursor location in a document: zero-based line and column, in the units
/// the protocol uses.
#[derive(Clone, Copy, Debug, PartialEq, Eq, Structural)]
pub struct Position {
    pub line: u32,
    pub character: u32,
}

impl Position {
    pub fn new(line: u32, character: u32) -> (r: Position)
        ensures
            r == (Position { line, character }),
    {
        Position { line, character }
    }
}

/// A pair of positions; a well-formed range has `start` at or before `end`
/// in document order.
#[derive(Clone, Copy, Debug, PartialEq, Eq, Structural)]
pub struct Range {
    pub start: Position,
    pub end: Position,
}

impl Range {
    pub fn new(start: Position, end: Position) -> (r: Range)
        ensures
            r == (Range { start, end }),
    {
        Range { start, end }
    }
}

/// A location as row and column indices, the unit used by the syntax tree
/// nodes.
#[derive(Clone, Copy, Debug, PartialEq, Eq, Structural)]
pub struct Point {
    pub row: usize,
    pub column: usize,
}

/// Document order on positions: `a` is at or before `b`.
pub open spec fn pos_le(a: Position, b: Position) -> bool {
    a.line < b.line || (a.line == b.line && a.character <= b.character)
}

pub fn get_range(start_row: u32, start_column: u32, end_row: u32, end_column: u32) -> (r: Range)
    ensures
        r.start == (Position { line: start_row, character: start_column }),
        r.end == (Position { line: end_row, character: end_column }),
{
    Range::new(Position::new(start_row, start_column), Position::new(end_row, end_column))
}

/// Converts a tree point to a protocol position.
pub fn point_to_position(input: Point) -> (r: Position)
    requires
        input.row <= u32::MAX,
        input.column <= u32::MAX,
    ensures
        r.line == input.row,
        r.character == input.column,
{
    Position { line: input.row as u32, character: input.column as u32 }
}

/// Converts a protocol position to a tree point.
pub fn position_to_point(input: Position) -> (r: Point)
    ensures
        r.row == input.line,
        r.column == input.character,
{
    Point { row: input.line as usize, column: input.character as usize }
}

/// The same range with its endpoints ordered.
pub open spec fn spec_wellformed_range(range: Range) -> Range {
    if pos_le(range.start, range.end) {
        range
    } else {
        Range { start: range.end, end: range.start }
    }
}

/// Orders a possibly reversed range so that `start` comes first; a reversed
/// range must be normalized this way before it is used to address text.
pub fn get_wellformed_range(range: Range) -> (r: Range)
    ensures
        r == spec_wellformed_range(range),
        pos_le(r.start, r.end),
{
    let start = range.start;
    let end = range.end;
    if start.line > end.line || (start.line == end.line && start.character > end.character) {
        Range::new(end, start)
    } else {
        range
    }
}

} // verus!
