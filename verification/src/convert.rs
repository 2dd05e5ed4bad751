use vstd::prelude::*;

use crate::protocol::{Point, Position, Range, TsRange};

verus! {

/// A tree point as a protocol position; the row and column are cut to 32 bits.
pub fn convert_point(from: Point) -> (p: Position)
    ensures
        p.line == from.row as u32,
        p.character == from.column as u32,
{
    Position { line: from.row as u32, character: from.column as u32 }
}

/// The points of a tree range as a protocol range.
pub fn convert_ts_range(from: TsRange) -> (r: Range)
    ensures
        r.start == convert_point_spec(from.start_point),
        r.end == convert_point_spec(from.end_point),
{
    Range { start: convert_point(from.start_point), end: convert_point(from.end_point) }
}

pub open spec fn convert_point_spec(p: Point) -> Position {
    Position { line: p.row as u32, character: p.column as u32 }
}

} // verus!
