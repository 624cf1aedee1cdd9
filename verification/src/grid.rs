//! Mapping between world coordinates and the coarse cell grid that route
//! histories are recorded in.  A cell spans `CELL_SPAN` thousandths of a
//! world unit, and the grid's origin cell sits `GRID_HALF` cells up and left
//! of the world origin.

use vstd::prelude::*;
use crate::vec2::Vec2;

verus! {

/// Width and height of one grid cell, in thousandths of a world unit.
pub const CELL_SPAN: i64 = 96_000;

/// The grid is `GRID_DIM` cells on each side.
pub const GRID_DIM: usize = 24;

/// Half the world extent covered by the grid, plus half a cell: the offset
/// that shifts a world coordinate into the grid's index space.
pub const GRID_OFFSET: i64 = 1_200_000;

/// The grid index that a world coordinate falls in: coordinates are shifted
/// by `GRID_OFFSET`, divided by the cell span, and clamped below at zero.
pub open spec fn index_of(w: int) -> int {
    if w + GRID_OFFSET < 0 {
        0
    } else {
        (w + GRID_OFFSET) / (CELL_SPAN as int)
    }
}

/// The world coordinate of the centre of the cell with the given index.
pub open spec fn coordinate_of(idx: int) -> int {
    (idx - (GRID_DIM as int) / 2) * (CELL_SPAN as int)
}

/// The world-space centre of the cell at `(row, column)`.  The grid is laid
/// out with rows along the x axis and columns along the y axis.
pub fn get_coordinates(row: usize, column: usize) -> (r: Vec2)
    requires
        row <= 21_000,
        column <= 21_000,
    ensures
        r.x == coordinate_of(row as int),
        r.y == coordinate_of(column as int),
{
    Vec2 { x: (row as i64 - 12) * CELL_SPAN, y: (column as i64 - 12) * CELL_SPAN }
}

/// The grid cell that a world position falls in.  Positions left of or below
/// the grid clamp to index zero; positions beyond the far edge keep their
/// unclamped index, exactly as a float-to-unsigned cast would behave.
pub fn get_indeces(position: Vec2) -> (r: (usize, usize))
    requires
        position.in_world(),
    ensures
        r.0 == index_of(position.x as int),
        r.1 == index_of(position.y as int),
{
    let nx = position.x + GRID_OFFSET;
    let ny = position.y + GRID_OFFSET;
    let row: usize = if nx < 0 { 0 } else { (nx / CELL_SPAN) as usize };
    let column: usize = if ny < 0 { 0 } else { (ny / CELL_SPAN) as usize };
    (row, column)
}

/// A position inside the world bound maps to a small grid index.
pub proof fn lemma_index_of_range(w: int)
    requires
        -1_000_000_000 <= w <= 1_000_000_000,
    ensures
        0 <= index_of(w) <= 10_500,
{
    if w + GRID_OFFSET >= 0 {
        assert(0 <= (w + GRID_OFFSET) / (CELL_SPAN as int) <= 10_500) by (nonlinear_arith)
            requires 0 <= w + GRID_OFFSET <= 1_001_200_000 && CELL_SPAN == 96_000;
    }
}

/// Snaps a world position to the centre of the grid cell it falls in.
pub fn snap(position: Vec2) -> (r: Vec2)
    requires
        -998_000_000 <= position.x <= 998_000_000,
        -998_000_000 <= position.y <= 998_000_000,
    ensures
        r.x == coordinate_of(index_of(position.x as int)),
        r.y == coordinate_of(index_of(position.y as int)),
        r.in_world(),
{
    let (row, column) = get_indeces(position);
    get_coordinates(row, column)
}

} // verus!
