//! The flow field: a fixed grid of cells over the playfield, each open cell
//! holding a direction that leads one step closer to the target.
//!
//! Regeneration resets the grid, marks the cells covered by each solid's
//! shrunk bounding box (the target's cells doubly, as solid and as target),
//! then floods directions outward from the target cells, breadth first:
//! each cell reached gets a direction pointing at the cell it was reached
//! from, and once set a direction is never overwritten.  Cells no chain of
//! open neighbours connects to a target keep no direction, and a query
//! there answers with a small random jitter instead.

use vstd::prelude::*;
use crate::vec2::Vec2;

verus! {

/// The field is `FIELD_DIM` cells on each side.
pub const FIELD_DIM: usize = 30;

/// One of the eight compass directions a cell can send movers along.
/// Rows grow along the y axis, columns along the x axis: `Up` decreases the
/// row, `Left` decreases the column.
#[derive(Clone, Copy, Debug, PartialEq, Eq, Structural)]
pub enum Movement {
    Up,
    Right,
    Down,
    Left,
    UpRight,
    UpLeft,
    DownRight,
    DownLeft,
}

/// One cell of the field.  A target cell is always also solid; a cell with
/// a movement is never solid.
#[derive(Clone, Copy, Debug)]
pub struct Cell {
    pub solid: bool,
    pub tower: bool,
    pub movement: Option<Movement>,
}

impl Default for Cell {
    /// An open, unmarked cell with no direction.
    fn default() -> (c: Cell)
        ensures
            !c.solid,
            !c.tower,
            c.movement is None,
    {
        Cell { solid: false, tower: false, movement: None }
    }
}

/// Whether `(r, c)` is a cell of the field.
pub open spec fn in_grid(r: int, c: int) -> bool {
    0 <= r < 30 && 0 <= c < 30
}

/// The flat index of the cell at `(r, c)`.
pub open spec fn fidx(r: int, c: int) -> int {
    r * 30 + c
}

/// The cell of `cells` at `(r, c)`.
pub open spec fn cell_at(cells: Seq<Cell>, r: int, c: int) -> Cell {
    cells[r * 30 + c]
}

/// Whether the two cells are distinct and touch, orthogonally or
/// diagonally.
pub open spec fn adjacent(r1: int, c1: int, r2: int, c2: int) -> bool {
    &&& -1 <= r1 - r2 <= 1
    &&& -1 <= c1 - c2 <= 1
    &&& !(r1 == r2 && c1 == c2)
}

/// The cell that a movement leads to from `(r, c)`: the cell the flood
/// reached `(r, c)` from, one step closer to the target.
pub open spec fn step_dest(r: int, c: int, m: Movement) -> (int, int) {
    match m {
        Movement::Up => (r - 1, c),
        Movement::Down => (r + 1, c),
        Movement::Left => (r, c - 1),
        Movement::Right => (r, c + 1),
        Movement::UpLeft => (r - 1, c - 1),
        Movement::UpRight => (r - 1, c + 1),
        Movement::DownLeft => (r + 1, c - 1),
        Movement::DownRight => (r + 1, c + 1),
    }
}

/// The unit vector of a movement, in thousandths: diagonals use seven
/// tenths along each axis.
pub open spec fn unit_vector_spec(m: Movement) -> Vec2 {
    match m {
        Movement::Up => Vec2 { x: 0, y: (-1000) as i64 },
        Movement::Down => Vec2 { x: 0, y: 1000 },
        Movement::Left => Vec2 { x: (-1000) as i64, y: 0 },
        Movement::Right => Vec2 { x: 1000, y: 0 },
        Movement::UpRight => Vec2 { x: 700, y: (-700) as i64 },
        Movement::UpLeft => Vec2 { x: (-700) as i64, y: (-700) as i64 },
        Movement::DownRight => Vec2 { x: 700, y: 700 },
        Movement::DownLeft => Vec2 { x: (-700) as i64, y: 700 },
    }
}

/// Whether a cell is a target or already carries a direction: the cells the
/// flood has seeded or reached.
pub open spec fn set_or_target(c: Cell) -> bool {
    c.tower || c.movement is Some
}

/// The depth bookkeeping of a generated field: targets sit at depth zero,
/// and every directed cell is open and points at a cell strictly closer to
/// a target.  The depth map holds exactly the seeded and reached cells.
pub open spec fn depth_ok(cells: Seq<Cell>, depth: Map<int, nat>) -> bool {
    &&& forall|r: int, c: int|
        in_grid(r, c) && #[trigger] cell_at(cells, r, c).tower ==> depth.contains_key(fidx(r, c))
            && depth[fidx(r, c)] == 0
    &&& forall|r: int, c: int|
        in_grid(r, c) && (#[trigger] cell_at(cells, r, c).movement) is Some ==> {
            let m = cell_at(cells, r, c).movement->0;
            let dest = step_dest(r, c, m);
            &&& !cell_at(cells, r, c).solid
            &&& in_grid(dest.0, dest.1)
            &&& set_or_target(cell_at(cells, dest.0, dest.1))
            &&& depth.contains_key(fidx(r, c))
            &&& depth.contains_key(fidx(dest.0, dest.1))
            &&& depth[fidx(dest.0, dest.1)] < depth[fidx(r, c)]
        }
    &&& forall|r: int, c: int|
        in_grid(r, c) && #[trigger] depth.contains_key(fidx(r, c)) ==> set_or_target(
            cell_at(cells, r, c),
        )
}

/// Whether the flood has closed: every open neighbour of a seeded or
/// reached cell has been reached too.  This is what makes a cell without a
/// direction provably unreachable.
pub open spec fn flow_closed(cells: Seq<Cell>) -> bool {
    forall|r1: int, c1: int, r2: int, c2: int|
        in_grid(r1, c1) && in_grid(r2, c2) && adjacent(r1, c1, r2, c2) && set_or_target(
            #[trigger] cell_at(cells, r1, c1),
        ) && !(#[trigger] cell_at(cells, r2, c2)).solid ==> set_or_target(cell_at(cells, r2, c2))
}

/// The vector field over the playfield.  `width` and `height` give the
/// world extent the grid is stretched over; the ghost `depth` records how
/// far from the target the flood reached each cell, witnessing that every
/// direction leads toward the target.
pub struct VectorField {
    pub cells: Vec<Cell>,
    pub width: i64,
    pub height: i64,
    pub depth: Ghost<Map<int, nat>>,
}

/// The grid row or column that a world coordinate falls in along one axis
/// of extent `extent`: coordinates are shifted by half the extent, scaled
/// to thirtieths, and clamped to the grid.
pub open spec fn axis_index(w: int, extent: int) -> int {
    let scaled = 60 * w + 30 * extent;
    if scaled < 0 {
        0
    } else if scaled / (2 * extent) > 29 {
        29
    } else {
        scaled / (2 * extent)
    }
}

impl VectorField {
    pub open spec fn wf(self) -> bool {
        &&& self.cells@.len() == 900
        &&& 1 <= self.width <= 2_000_000_000
        &&& 1 <= self.height <= 2_000_000_000
    }

    /// A generated field: the depth bookkeeping holds and the flood closed.
    pub open spec fn flow_ok(self) -> bool {
        depth_ok(self.cells@, self.depth@) && flow_closed(self.cells@)
    }

    /// The `(row, column)` cell that a world position falls in.
    pub open spec fn index_spec(self, position: Vec2) -> (int, int) {
        (axis_index(position.y as int, self.height as int), axis_index(
            position.x as int,
            self.width as int,
        ))
    }

    /// An empty field stretched over the given world extent.
    pub fn new(width: i64, height: i64) -> (field: VectorField)
        requires
            1 <= width <= 2_000_000_000,
            1 <= height <= 2_000_000_000,
        ensures
            field.wf(),
            field.width == width,
            field.height == height,
            forall|r: int, c: int|
                in_grid(r, c) ==> #[trigger] cell_at(field.cells@, r, c) == (Cell {
                    solid: false,
                    tower: false,
                    movement: None,
                }),
            field.depth@ =~= Map::<int, nat>::empty(),
    {
        let mut cells: Vec<Cell> = Vec::new();
        let mut i: usize = 0;
        while i < 900
            invariant
                i <= 900,
                cells@.len() == i,
                forall|k: int|
                    0 <= k < i ==> #[trigger] cells@[k] == (Cell {
                        solid: false,
                        tower: false,
                        movement: None,
                    }),
            decreases 900 - i,
        {
            cells.push(Cell { solid: false, tower: false, movement: None });
            i = i + 1;
        }
        VectorField { cells, width, height, depth: Ghost(Map::empty()) }
    }

    /// Clears every cell, keeping the world extent.
    pub fn reset(&mut self)
        requires
            old(self).wf(),
        ensures
            final(self).wf(),
            final(self).width == old(self).width,
            final(self).height == old(self).height,
            forall|r: int, c: int|
                in_grid(r, c) ==> #[trigger] cell_at(final(self).cells@, r, c) == (Cell {
                    solid: false,
                    tower: false,
                    movement: None,
                }),
            final(self).depth@ =~= Map::<int, nat>::empty(),
    {
        let fresh = VectorField::new(self.width, self.height);
        self.cells = fresh.cells;
        self.depth = Ghost(Map::empty());
    }

    /// Maps a world position to the cell it falls in; positions beyond the
    /// covered extent clamp to the nearest edge cell.
    pub fn position_to_index(&self, position: Vec2) -> (rc: (usize, usize))
        requires
            self.wf(),
            -1_200_000_000 <= position.x <= 1_200_000_000,
            -1_200_000_000 <= position.y <= 1_200_000_000,
        ensures
            (rc.0 as int, rc.1 as int) == self.index_spec(position),
            rc.0 < 30,
            rc.1 < 30,
    {
        let row = axis_index_exec(position.y, self.height);
        let column = axis_index_exec(position.x, self.width);
        (row, column)
    }

    /// The directional bias at a world position: the unit vector of the
    /// cell's direction, or a uniform random jitter within a small cone
    /// when the cell has none, so that agents in unreachable pockets keep
    /// wandering instead of freezing.
    pub fn get_direction(&self, from: Vec2) -> (dir: Vec2)
        requires
            self.wf(),
            from.in_world(),
        ensures
            ({
                let rc = self.index_spec(from);
                match cell_at(self.cells@, rc.0, rc.1).movement {
                    Some(m) => dir == unit_vector_spec(m),
                    None => -700 <= dir.x < 700 && -700 <= dir.y < 700,
                }
            }),
            -1000 <= dir.x <= 1000,
            -1000 <= dir.y <= 1000,
    {
        let (row, column) = self.position_to_index(from);
        let cell = self.cells[row * 30 + column];
        match cell.movement {
            Some(Movement::Up) => Vec2 { x: 0, y: -1000 },
            Some(Movement::Down) => Vec2 { x: 0, y: 1000 },
            Some(Movement::Left) => Vec2 { x: -1000, y: 0 },
            Some(Movement::Right) => Vec2 { x: 1000, y: 0 },
            Some(Movement::UpRight) => Vec2 { x: 700, y: -700 },
            Some(Movement::UpLeft) => Vec2 { x: -700, y: -700 },
            Some(Movement::DownRight) => Vec2 { x: 700, y: 700 },
            Some(Movement::DownLeft) => Vec2 { x: -700, y: 700 },
            None => Vec2 { x: crate::rng::jitter(-700, 700), y: crate::rng::jitter(-700, 700) },
        }
    }

    /// The rows and columns of the cells that the box between `upperleft`
    /// and `lowerright` covers.
    pub fn get_region_indices(&self, upperleft: Vec2, lowerright: Vec2) -> (region: (
        (usize, usize),
        (usize, usize),
    ))
        requires
            self.wf(),
            -1_200_000_000 <= upperleft.x <= 1_200_000_000,
            -1_200_000_000 <= upperleft.y <= 1_200_000_000,
            -1_200_000_000 <= lowerright.x <= 1_200_000_000,
            -1_200_000_000 <= lowerright.y <= 1_200_000_000,
        ensures
            region.0.0 as int == self.index_spec(upperleft).0,
            region.0.1 as int == self.index_spec(lowerright).0,
            region.1.0 as int == self.index_spec(upperleft).1,
            region.1.1 as int == self.index_spec(lowerright).1,
            region.0.0 < 30 && region.0.1 < 30 && region.1.0 < 30 && region.1.1 < 30,
    {
        let (row_min, column_min) = self.position_to_index(upperleft);
        let (row_max, column_max) = self.position_to_index(lowerright);
        ((row_min, row_max), (column_min, column_max))
    }

    /// Marks every cell in the given row and column range solid, and as
    /// target cells when `set_tower` holds.  Directions are untouched.
    fn mark_region(&mut self, rows: (usize, usize), columns: (usize, usize), set_tower: bool)
        requires
            old(self).wf(),
            rows.0 <= rows.1 < 30,
            columns.0 <= columns.1 < 30,
        ensures
            final(self).wf(),
            final(self).width == old(self).width,
            final(self).height == old(self).height,
            final(self).depth == old(self).depth,
            forall|r: int, c: int|
                in_grid(r, c) ==> #[trigger] cell_at(final(self).cells@, r, c) == (if rows.0 <= r
                    <= rows.1 && columns.0 <= c <= columns.1 {
                    Cell {
                        solid: true,
                        tower: set_tower || cell_at(old(self).cells@, r, c).tower,
                        movement: cell_at(old(self).cells@, r, c).movement,
                    }
                } else {
                    cell_at(old(self).cells@, r, c)
                }),
    {
        let mut r: usize = rows.0;
        while r <= rows.1
            invariant
                rows.0 <= r <= rows.1 + 1,
                rows.1 < 30,
                columns.0 <= columns.1 < 30,
                self.cells@.len() == 900,
                self.width == old(self).width,
                self.height == old(self).height,
                old(self).wf(),
                self.depth == old(self).depth,
                forall|i: int, j: int|
                    in_grid(i, j) ==> #[trigger] cell_at(self.cells@, i, j) == (if rows.0 <= i < r
                        && columns.0 <= j <= columns.1 {
                        Cell {
                            solid: true,
                            tower: set_tower || cell_at(old(self).cells@, i, j).tower,
                            movement: cell_at(old(self).cells@, i, j).movement,
                        }
                    } else {
                        cell_at(old(self).cells@, i, j)
                    }),
            decreases rows.1 + 1 - r,
        {
            let mut c: usize = columns.0;
            let ghost row_entry = self.cells@;
            while c <= columns.1
                invariant
                    columns.0 <= c <= columns.1 + 1,
                    rows.0 <= r <= rows.1,
                    rows.1 < 30,
                    columns.0 <= columns.1 < 30,
                    self.cells@.len() == 900,
                    self.width == old(self).width,
                    self.height == old(self).height,
                    old(self).wf(),
                    self.depth == old(self).depth,
                    forall|i: int, j: int|
                        in_grid(i, j) ==> #[trigger] cell_at(self.cells@, i, j) == (if i == r
                            && columns.0 <= j < c {
                            Cell {
                                solid: true,
                                tower: set_tower || cell_at(row_entry, i, j).tower,
                                movement: cell_at(row_entry, i, j).movement,
                            }
                        } else {
                            cell_at(row_entry, i, j)
                        }),
                decreases columns.1 + 1 - c,
            {
                let idx = r * 30 + c;
                let old_cell = self.cells[idx];
                proof {
                    assert(old_cell == cell_at(self.cells@, r as int, c as int));
                }
                let ghost before = self.cells@;
                self.cells[idx] = Cell {
                    solid: true,
                    tower: set_tower || old_cell.tower,
                    movement: old_cell.movement,
                };
                proof {
                    assert forall|i: int, j: int| in_grid(i, j) implies #[trigger] cell_at(
                        self.cells@,
                        i,
                        j,
                    ) == (if i == r && columns.0 <= j < c + 1 {
                        Cell {
                            solid: true,
                            tower: set_tower || cell_at(row_entry, i, j).tower,
                            movement: cell_at(row_entry, i, j).movement,
                        }
                    } else {
                        cell_at(row_entry, i, j)
                    }) by {
                        if i == r && j == c {
                        } else {
                            assert(i * 30 + j != r * 30 + c);
                            assert(cell_at(self.cells@, i, j) == cell_at(before, i, j));
                        }
                    }
                }
                c = c + 1;
            }
            proof {
                let ghost after_row = self.cells@;
                assert forall|i: int, j: int| in_grid(i, j) implies #[trigger] cell_at(
                    after_row,
                    i,
                    j,
                ) == (if rows.0 <= i < r + 1 && columns.0 <= j <= columns.1 {
                    Cell {
                        solid: true,
                        tower: set_tower || cell_at(old(self).cells@, i, j).tower,
                        movement: cell_at(old(self).cells@, i, j).movement,
                    }
                } else {
                    cell_at(old(self).cells@, i, j)
                }) by {
                    assert(cell_at(after_row, i, j) == (if i == r && columns.0 <= j <= columns.1 {
                        Cell {
                            solid: true,
                            tower: set_tower || cell_at(row_entry, i, j).tower,
                            movement: cell_at(row_entry, i, j).movement,
                        }
                    } else {
                        cell_at(row_entry, i, j)
                    }));
                }
            }
            r = r + 1;
        }
    }
}

/// A flat index below nine hundred names a cell of the grid.
proof fn lemma_flat(i: int)
    requires
        0 <= i < 900,
    ensures
        in_grid(i / 30, i % 30),
        fidx(i / 30, i % 30) == i,
{
    vstd::arithmetic::div_mod::lemma_fundamental_div_mod(i, 30);
    vstd::arithmetic::div_mod::lemma_mod_bound(i, 30);
}

/// Flat indexing is the inverse of the `(row, column)` pairing.
proof fn lemma_fidx_inverse(r: int, c: int)
    requires
        in_grid(r, c),
    ensures
        fidx(r, c) / 30 == r,
        fidx(r, c) % 30 == c,
{
    vstd::arithmetic::div_mod::lemma_fundamental_div_mod(fidx(r, c), 30);
    vstd::arithmetic::div_mod::lemma_mod_bound(fidx(r, c), 30);
}

/// A duplicate-free queue of cell indices holds at most one entry per cell.
proof fn lemma_queue_bound(q: Seq<usize>)
    requires
        q.no_duplicates(),
        forall|k: int| 0 <= k < q.len() ==> (#[trigger] q[k]) < 900,
    ensures
        q.len() <= 900,
{
    let qi = q.map_values(|u: usize| u as int);
    assert(qi.no_duplicates()) by {
        assert forall|i: int, j: int| 0 <= i < qi.len() && 0 <= j < qi.len() && i != j implies qi[i]
            != qi[j] by {
            assert(q[i] != q[j]);
        }
    }
    qi.unique_seq_to_set();
    vstd::set_lib::lemma_int_range(0, 900);
    assert(qi.to_set().subset_of(vstd::set_lib::set_int_range(0, 900))) by {
        assert forall|x: int| qi.to_set().contains(x) implies vstd::set_lib::set_int_range(
            0,
            900,
        ).contains(x) by {
            let k = choose|k: int| 0 <= k < qi.len() && qi[k] == x;
            assert(q[k] < 900);
        }
    }
    vstd::set_lib::lemma_len_subset(qi.to_set(), vstd::set_lib::set_int_range(0, 900));
}

/// The solid and target flags of the two grids agree cell for cell.
pub open spec fn flags_eq(a: Seq<Cell>, b: Seq<Cell>) -> bool {
    forall|i: int|
        0 <= i < 900 ==> (#[trigger] a[i]).solid == b[i].solid && a[i].tower == b[i].tower
}

/// Every target cell is solid.
pub open spec fn towers_solid(cells: Seq<Cell>) -> bool {
    forall|i: int| 0 <= i < 900 && (#[trigger] cells[i]).tower ==> cells[i].solid
}

/// The depth map holds exactly the seeded and reached cells, and no others.
pub open spec fn dom_iff(cells: Seq<Cell>, depth: Map<int, nat>) -> bool {
    &&& forall|i: int|
        0 <= i < 900 ==> (depth.contains_key(i) <==> set_or_target(#[trigger] cells[i]))
    &&& forall|k: int| #[trigger] depth.contains_key(k) ==> 0 <= k < 900
}

/// Queue entries name distinct, seeded-or-reached cells.
pub open spec fn queue_ok(cells: Seq<Cell>, q: Seq<usize>) -> bool {
    &&& q.no_duplicates()
    &&& forall|k: int|
        0 <= k < q.len() ==> (#[trigger] q[k]) < 900 && set_or_target(cells[q[k] as int])
}

/// Every seeded-or-reached cell is on the queue.
pub open spec fn coverage(cells: Seq<Cell>, q: Seq<usize>) -> bool {
    forall|i: int| 0 <= i < 900 && set_or_target(#[trigger] cells[i]) ==> q.contains(i as usize)
}

/// A cell that is open has been reached.
pub open spec fn settled(cells: Seq<Cell>, r: int, c: int) -> bool {
    !cell_at(cells, r, c).solid ==> set_or_target(cell_at(cells, r, c))
}

/// Every open neighbour of the cell with flat index `idx` has been reached.
pub open spec fn neighbors_done(cells: Seq<Cell>, idx: int) -> bool {
    forall|r2: int, c2: int|
        in_grid(r2, c2) && adjacent(idx / 30, idx % 30, r2, c2) && !(#[trigger] cell_at(
            cells,
            r2,
            c2,
        )).solid ==> set_or_target(cell_at(cells, r2, c2))
}

/// Once all eight neighbours of a cell are settled, every open neighbour
/// of it has been reached.
proof fn lemma_assemble_done(cells: Seq<Cell>, cur: int)
    requires
        0 <= cur < 900,
        cur / 30 > 0 ==> settled(cells, cur / 30 - 1, cur % 30),
        cur / 30 < 29 ==> settled(cells, cur / 30 + 1, cur % 30),
        cur % 30 > 0 ==> settled(cells, cur / 30, cur % 30 - 1),
        cur % 30 < 29 ==> settled(cells, cur / 30, cur % 30 + 1),
        cur / 30 > 0 && cur % 30 > 0 ==> settled(cells, cur / 30 - 1, cur % 30 - 1),
        cur / 30 > 0 && cur % 30 < 29 ==> settled(cells, cur / 30 - 1, cur % 30 + 1),
        cur / 30 < 29 && cur % 30 > 0 ==> settled(cells, cur / 30 + 1, cur % 30 - 1),
        cur / 30 < 29 && cur % 30 < 29 ==> settled(cells, cur / 30 + 1, cur % 30 + 1),
    ensures
        neighbors_done(cells, cur),
{
    lemma_flat(cur);
    assert forall|r2: int, c2: int|
        in_grid(r2, c2) && adjacent(cur / 30, cur % 30, r2, c2) && !(#[trigger] cell_at(
            cells,
            r2,
            c2,
        )).solid implies set_or_target(cell_at(cells, r2, c2)) by {
        assert(settled(cells, r2, c2));
    }
}

/// How much of a bounding box's half-extent blocks cells: the box is
/// shrunk by a small margin so that it does not over-block neighbouring
/// cells.
pub open spec fn shrink(b: int) -> int {
    (b * 10) / 18
}

/// Whether the shrunk bounding box of `entry` — a position and a box —
/// covers the cell `(r, c)` of a field stretched over `w` by `h`.
pub open spec fn covers(entry: (Vec2, Vec2), w: int, h: int, r: int, c: int) -> bool {
    &&& axis_index(entry.0.y - shrink(entry.1.y as int), h) <= r <= axis_index(
        entry.0.y + shrink(entry.1.y as int),
        h,
    )
    &&& axis_index(entry.0.x - shrink(entry.1.x as int), w) <= c <= axis_index(
        entry.0.x + shrink(entry.1.x as int),
        w,
    )
}

/// The cell index grows with the coordinate.
proof fn lemma_axis_index_monotone(w1: int, w2: int, extent: int)
    requires
        w1 <= w2,
        extent >= 1,
    ensures
        axis_index(w1, extent) <= axis_index(w2, extent),
{
    let s1 = 60 * w1 + 30 * extent;
    let s2 = 60 * w2 + 30 * extent;
    if s1 >= 0 {
        vstd::arithmetic::div_mod::lemma_div_is_ordered(s1, s2, 2 * extent);
    } else if s2 >= 0 {
        vstd::arithmetic::div_mod::lemma_div_is_ordered(0, s2, 2 * extent);
    }
}

/// The whole invariant the flood maintains between visits.
pub open spec fn bfs_inv(cells: Seq<Cell>, depth: Map<int, nat>, q: Seq<usize>) -> bool {
    &&& cells.len() == 900
    &&& towers_solid(cells)
    &&& depth_ok(cells, depth)
    &&& dom_iff(cells, depth)
    &&& queue_ok(cells, q)
    &&& coverage(cells, q)
}

impl VectorField {
    /// Offers one neighbour cell `(r2, c2)` the movement `m`, which leads
    /// back to the queued cell `cur`: an open cell without a direction takes
    /// it, one depth further than `cur`, and joins the queue; any other cell
    /// is left alone.
    fn bfs_visit(&mut self, queue: &mut Vec<usize>, r2: usize, c2: usize, m: Movement, cur: usize)
        requires
            old(self).cells@.len() == 900,
            in_grid(r2 as int, c2 as int),
            cur < 900,
            step_dest(r2 as int, c2 as int, m) == ((cur as int) / 30, (cur as int) % 30),
            old(self).depth@.contains_key(cur as int),
            set_or_target(old(self).cells@[cur as int]),
            bfs_inv(old(self).cells@, old(self).depth@, old(queue)@),
        ensures
            final(self).cells@.len() == 900,
            final(self).width == old(self).width,
            final(self).height == old(self).height,
            bfs_inv(final(self).cells@, final(self).depth@, final(queue)@),
            flags_eq(final(self).cells@, old(self).cells@),
            forall|i: int|
                0 <= i < 900 && set_or_target(#[trigger] old(self).cells@[i])
                    ==> final(self).cells@[i] == old(self).cells@[i],
            forall|i: int|
                0 <= i < 900 && i != fidx(r2 as int, c2 as int)
                    ==> #[trigger] final(self).cells@[i] == old(self).cells@[i],
            settled(final(self).cells@, r2 as int, c2 as int),
            forall|rr: int, cc: int|
                in_grid(rr, cc) && settled(old(self).cells@, rr, cc) ==> #[trigger] settled(
                    final(self).cells@,
                    rr,
                    cc,
                ),
            forall|idx: int|
                0 <= idx < 900 && neighbors_done(old(self).cells@, idx) ==> #[trigger]
                neighbors_done(final(self).cells@, idx),
            old(queue)@.len() <= final(queue)@.len() <= old(queue)@.len() + 1,
            forall|k: int|
                0 <= k < old(queue)@.len() ==> #[trigger] final(queue)@[k] == old(queue)@[k],
    {
        proof {
            lemma_flat(cur as int);
        }
        let n_idx = r2 * 30 + c2;
        let ncell = self.cells[n_idx];
        proof {
            assert(ncell == cell_at(self.cells@, r2 as int, c2 as int));
        }
        if !ncell.solid && ncell.movement.is_none() {
            let ghost cells_before = self.cells@;
            let ghost depth_before = self.depth@;
            let ghost dcur = self.depth@[cur as int];
            self.cells[n_idx] = Cell { solid: false, tower: ncell.tower, movement: Some(m) };
            self.depth = Ghost(self.depth@.insert(n_idx as int, (dcur + 1) as nat));
            queue.push(n_idx);
            proof {
                let nf = fidx(r2 as int, c2 as int);
                let cells_now = self.cells@;
                let depth_now = self.depth@;
                assert(!cells_before[nf].tower);
                assert(!depth_before.contains_key(nf));
                assert(depth_ok(cells_now, depth_now)) by {
                    assert forall|r: int, c: int|
                        in_grid(r, c) && #[trigger] cell_at(cells_now, r, c).tower implies
                        depth_now.contains_key(fidx(r, c)) && depth_now[fidx(r, c)] == 0 by {
                        assert(cell_at(cells_before, r, c).tower);
                    }
                    assert forall|r: int, c: int|
                        in_grid(r, c) && (#[trigger] cell_at(cells_now, r, c).movement) is Some
                        implies {
                        let mm = cell_at(cells_now, r, c).movement->0;
                        let dest = step_dest(r, c, mm);
                        &&& !cell_at(cells_now, r, c).solid
                        &&& in_grid(dest.0, dest.1)
                        &&& set_or_target(cell_at(cells_now, dest.0, dest.1))
                        &&& depth_now.contains_key(fidx(r, c))
                        &&& depth_now.contains_key(fidx(dest.0, dest.1))
                        &&& depth_now[fidx(dest.0, dest.1)] < depth_now[fidx(r, c)]
                    } by {
                        if fidx(r, c) == nf {
                            lemma_fidx_inverse(r2 as int, c2 as int);
                            assert(r == r2 && c == c2);
                            assert(cell_at(cells_now, r, c).movement == Some(m));
                            assert(step_dest(r, c, m) == ((cur as int) / 30, (cur as int) % 30));
                            lemma_flat(cur as int);
                            assert(fidx((cur as int) / 30, (cur as int) % 30) == cur as int);
                            assert(cell_at(cells_now, (cur as int) / 30, (cur as int) % 30)
                                == cells_now[cur as int]);
                            assert(cells_now[cur as int] == cells_before[cur as int]);
                            assert(depth_now[cur as int] == depth_before[cur as int]);
                            assert(depth_now[nf] == dcur + 1);
                        } else {
                            assert(cell_at(cells_now, r, c) == cell_at(cells_before, r, c));
                            let mm = cell_at(cells_before, r, c).movement->0;
                            let dest = step_dest(r, c, mm);
                            assert(set_or_target(cell_at(cells_before, dest.0, dest.1)));
                            if fidx(dest.0, dest.1) == nf {
                                assert(cell_at(cells_now, dest.0, dest.1) == cells_now[nf]);
                                assert(set_or_target(cells_now[nf]));
                            } else {
                                assert(cell_at(cells_now, dest.0, dest.1) == cell_at(
                                    cells_before,
                                    dest.0,
                                    dest.1,
                                ));
                            }
                            assert(depth_now[fidx(r, c)] == depth_before[fidx(r, c)]);
                            assert(depth_now[fidx(dest.0, dest.1)] == depth_before[fidx(
                                dest.0,
                                dest.1,
                            )]);
                        }
                    }
                }
                assert(queue_ok(cells_now, queue@)) by {
                    assert forall|a: int, b: int|
                        0 <= a < queue@.len() && 0 <= b < queue@.len() && a != b implies queue@[a]
                        != queue@[b] by {
                        if a < queue@.len() - 1 && b < queue@.len() - 1 {
                        } else {
                            let other = if a < queue@.len() - 1 {
                                a
                            } else {
                                b
                            };
                            assert(set_or_target(cells_before[old(queue)@[other] as int]));
                            assert(!set_or_target(cells_before[nf]));
                        }
                    }
                    assert(queue@.no_duplicates());
                }
                assert(coverage(cells_now, queue@)) by {
                    assert forall|i: int|
                        0 <= i < 900 && set_or_target(#[trigger] cells_now[i]) implies
                        queue@.contains(i as usize) by {
                        if i == nf {
                            assert(queue@[queue@.len() - 1] == n_idx);
                        } else {
                            assert(set_or_target(cells_before[i]));
                            let k = choose|k: int|
                                0 <= k < old(queue)@.len() && old(queue)@[k] == i as usize;
                            assert(queue@[k] == i as usize);
                        }
                    }
                }
                assert forall|rr: int, cc: int|
                    in_grid(rr, cc) && settled(cells_before, rr, cc) implies #[trigger] settled(
                        cells_now,
                        rr,
                        cc,
                    ) by {
                    if fidx(rr, cc) == nf {
                        assert(cell_at(cells_now, rr, cc) == cells_now[nf]);
                    } else {
                        assert(cell_at(cells_now, rr, cc) == cell_at(cells_before, rr, cc));
                    }
                }
                assert forall|idx: int|
                    0 <= idx < 900 && neighbors_done(cells_before, idx) implies #[trigger]
                    neighbors_done(cells_now, idx) by {
                    assert forall|rr: int, cc: int|
                        in_grid(rr, cc) && adjacent(idx / 30, idx % 30, rr, cc) && !(
                        #[trigger] cell_at(cells_now, rr, cc)).solid implies set_or_target(
                        cell_at(cells_now, rr, cc)) by {
                        if fidx(rr, cc) == nf {
                            assert(cell_at(cells_now, rr, cc) == cells_now[nf]);
                        } else {
                            assert(cell_at(cells_now, rr, cc) == cell_at(cells_before, rr, cc));
                        }
                    }
                }
            }
        }
    }
}

impl VectorField {
    /// Offers the four orthogonal neighbours of the queued cell `cur` a
    /// movement pointing back at it: up, down, left, right.
    #[verifier::rlimit(100)]
    fn visit_orthogonal(&mut self, queue: &mut Vec<usize>, cur: usize)
        requires
            cur < 900,
            set_or_target(old(self).cells@[cur as int]),
            old(self).depth@.contains_key(cur as int),
            bfs_inv(old(self).cells@, old(self).depth@, old(queue)@),
        ensures
            final(self).width == old(self).width,
            final(self).height == old(self).height,
            bfs_inv(final(self).cells@, final(self).depth@, final(queue)@),
            flags_eq(final(self).cells@, old(self).cells@),
            set_or_target(final(self).cells@[cur as int]),
            (cur as int) / 30 > 0 ==> settled(
                final(self).cells@,
                (cur as int) / 30 - 1,
                (cur as int) % 30,
            ),
            (cur as int) / 30 < 29 ==> settled(
                final(self).cells@,
                (cur as int) / 30 + 1,
                (cur as int) % 30,
            ),
            (cur as int) % 30 > 0 ==> settled(
                final(self).cells@,
                (cur as int) / 30,
                (cur as int) % 30 - 1,
            ),
            (cur as int) % 30 < 29 ==> settled(
                final(self).cells@,
                (cur as int) / 30,
                (cur as int) % 30 + 1,
            ),
            forall|rr: int, cc: int|
                in_grid(rr, cc) && settled(old(self).cells@, rr, cc) ==> #[trigger] settled(
                    final(self).cells@,
                    rr,
                    cc,
                ),
            forall|idx: int|
                0 <= idx < 900 && neighbors_done(old(self).cells@, idx) ==> #[trigger]
                neighbors_done(final(self).cells@, idx),
            old(queue)@.len() <= final(queue)@.len(),
            forall|k: int|
                0 <= k < old(queue)@.len() ==> #[trigger] final(queue)@[k] == old(queue)@[k],
    {
        let r = cur / 30;
        let c = cur % 30;
        proof {
            lemma_flat(cur as int);
        }
        if r > 0 {
            self.bfs_visit(queue, r - 1, c, Movement::Down, cur);
        }
        if r < 29 {
            self.bfs_visit(queue, r + 1, c, Movement::Up, cur);
        }
        if c > 0 {
            self.bfs_visit(queue, r, c - 1, Movement::Right, cur);
        }
        if c < 29 {
            self.bfs_visit(queue, r, c + 1, Movement::Left, cur);
        }
        proof {
            assert(r > 0 ==> settled(self.cells@, r as int - 1, c as int));
            assert(r < 29 ==> settled(self.cells@, r as int + 1, c as int));
            assert(c > 0 ==> settled(self.cells@, r as int, c as int - 1));
            assert(c < 29 ==> settled(self.cells@, r as int, c as int + 1));
        }
    }

    /// Offers the four diagonal neighbours of the queued cell `cur` a
    /// movement pointing back at it.
    #[verifier::rlimit(100)]
    fn visit_diagonal(&mut self, queue: &mut Vec<usize>, cur: usize)
        requires
            cur < 900,
            set_or_target(old(self).cells@[cur as int]),
            old(self).depth@.contains_key(cur as int),
            bfs_inv(old(self).cells@, old(self).depth@, old(queue)@),
            (cur as int) / 30 > 0 ==> settled(
                old(self).cells@,
                (cur as int) / 30 - 1,
                (cur as int) % 30,
            ),
            (cur as int) / 30 < 29 ==> settled(
                old(self).cells@,
                (cur as int) / 30 + 1,
                (cur as int) % 30,
            ),
            (cur as int) % 30 > 0 ==> settled(
                old(self).cells@,
                (cur as int) / 30,
                (cur as int) % 30 - 1,
            ),
            (cur as int) % 30 < 29 ==> settled(
                old(self).cells@,
                (cur as int) / 30,
                (cur as int) % 30 + 1,
            ),
        ensures
            neighbors_done(final(self).cells@, cur as int),
            final(self).width == old(self).width,
            final(self).height == old(self).height,
            bfs_inv(final(self).cells@, final(self).depth@, final(queue)@),
            flags_eq(final(self).cells@, old(self).cells@),
            set_or_target(final(self).cells@[cur as int]),
            (cur as int) / 30 > 0 && (cur as int) % 30 > 0 ==> settled(
                final(self).cells@,
                (cur as int) / 30 - 1,
                (cur as int) % 30 - 1,
            ),
            (cur as int) / 30 > 0 && (cur as int) % 30 < 29 ==> settled(
                final(self).cells@,
                (cur as int) / 30 - 1,
                (cur as int) % 30 + 1,
            ),
            (cur as int) / 30 < 29 && (cur as int) % 30 > 0 ==> settled(
                final(self).cells@,
                (cur as int) / 30 + 1,
                (cur as int) % 30 - 1,
            ),
            (cur as int) / 30 < 29 && (cur as int) % 30 < 29 ==> settled(
                final(self).cells@,
                (cur as int) / 30 + 1,
                (cur as int) % 30 + 1,
            ),
            forall|rr: int, cc: int|
                in_grid(rr, cc) && settled(old(self).cells@, rr, cc) ==> #[trigger] settled(
                    final(self).cells@,
                    rr,
                    cc,
                ),
            forall|idx: int|
                0 <= idx < 900 && neighbors_done(old(self).cells@, idx) ==> #[trigger]
                neighbors_done(final(self).cells@, idx),
            old(queue)@.len() <= final(queue)@.len(),
            forall|k: int|
                0 <= k < old(queue)@.len() ==> #[trigger] final(queue)@[k] == old(queue)@[k],
    {
        let r = cur / 30;
        let c = cur % 30;
        proof {
            lemma_flat(cur as int);
        }
        if r > 0 && c > 0 {
            self.bfs_visit(queue, r - 1, c - 1, Movement::DownRight, cur);
        }
        if r > 0 && c < 29 {
            self.bfs_visit(queue, r - 1, c + 1, Movement::DownLeft, cur);
        }
        if r < 29 && c > 0 {
            self.bfs_visit(queue, r + 1, c - 1, Movement::UpRight, cur);
        }
        if r < 29 && c < 29 {
            self.bfs_visit(queue, r + 1, c + 1, Movement::UpLeft, cur);
        }
        proof {
            assert(r > 0 && c > 0 ==> settled(self.cells@, r as int - 1, c as int - 1));
            assert(r > 0 && c < 29 ==> settled(self.cells@, r as int - 1, c as int + 1));
            assert(r < 29 && c > 0 ==> settled(self.cells@, r as int + 1, c as int - 1));
            assert(r < 29 && c < 29 ==> settled(self.cells@, r as int + 1, c as int + 1));
            assert(r > 0 ==> settled(self.cells@, r as int - 1, c as int));
            assert(r < 29 ==> settled(self.cells@, r as int + 1, c as int));
            assert(c > 0 ==> settled(self.cells@, r as int, c as int - 1));
            assert(c < 29 ==> settled(self.cells@, r as int, c as int + 1));
            lemma_assemble_done(self.cells@, cur as int);
        }
    }

}

impl VectorField {
    /// Floods directions outward from the target cells, breadth first.
    /// Must run on a freshly marked grid: no cell has a direction yet, and
    /// every target cell is solid.  Afterwards every direction points at a
    /// strictly shallower cell, and every open neighbour of a reached cell
    /// has been reached — so a cell left without a direction has no open
    /// chain of neighbours to any target.
    ///
    /// Each processed cell offers its neighbours a direction in a fixed
    /// priority — the four orthogonal ones first (up, down, left, right),
    /// then the four diagonal ones — which settles the tie between equally
    /// short paths on symmetric layouts.  The contract pins the guarantees
    /// above, not which of several equally valid directions a cell gets:
    /// that tie-break is decided by this visit order alone.
    #[verifier::rlimit(100)]
    pub fn generate(&mut self)
        requires
            old(self).wf(),
            forall|r: int, c: int|
                in_grid(r, c) ==> (#[trigger] cell_at(old(self).cells@, r, c).movement) is None,
            towers_solid(old(self).cells@),
        ensures
            final(self).wf(),
            final(self).width == old(self).width,
            final(self).height == old(self).height,
            flags_eq(final(self).cells@, old(self).cells@),
            final(self).flow_ok(),
    {
        let ghost cells0 = self.cells@;
        let mut queue: Vec<usize> = Vec::new();
        self.depth = Ghost(Map::empty());
        let mut i: usize = 0;
        while i < 900
            invariant
                i <= 900,
                self.cells@ == cells0,
                self.width == old(self).width,
                self.height == old(self).height,
                old(self).wf(),
                cells0.len() == 900,
                towers_solid(cells0),
                forall|r: int, c: int|
                    in_grid(r, c) ==> (#[trigger] cell_at(cells0, r, c).movement) is None,
                forall|k: int| 0 <= k < queue@.len() ==> (#[trigger] queue@[k]) < i,
                forall|k: int|
                    0 <= k < queue@.len() ==> cells0[(#[trigger] queue@[k]) as int].tower,
                queue@.no_duplicates(),
                forall|j: int|
                    0 <= j < i && (#[trigger] cells0[j]).tower ==> queue@.contains(j as usize),
                forall|j: int|
                    0 <= j < 900 ==> (self.depth@.contains_key(j) <==> (j < i && (
                    #[trigger] cells0[j]).tower)),
                forall|k: int| #[trigger] self.depth@.contains_key(k) ==> 0 <= k < 900,
                forall|k: int| #[trigger] self.depth@.contains_key(k) ==> self.depth@[k] == 0,
            decreases 900 - i,
        {
            if self.cells[i].tower {
                let ghost q0 = queue@;
                queue.push(i);
                self.depth = Ghost(self.depth@.insert(i as int, 0));
                proof {
                    assert forall|a: int, b: int|
                        0 <= a < queue@.len() && 0 <= b < queue@.len() && a != b implies queue@[a]
                        != queue@[b] by {
                        if a < q0.len() && b < q0.len() {
                            assert(q0[a] != q0[b]);
                        } else {
                            let other = if a < q0.len() {
                                a
                            } else {
                                b
                            };
                            assert(q0[other] < i);
                        }
                    }
                    assert forall|j: int|
                        0 <= j < i + 1 && (#[trigger] cells0[j]).tower implies queue@.contains(
                        j as usize) by {
                        if j == i {
                            assert(queue@[q0.len() as int] == i as usize);
                        } else {
                            assert(q0.contains(j as usize));
                            let k = choose|k: int| 0 <= k < q0.len() && q0[k] == j as usize;
                            assert(queue@[k] == j as usize);
                        }
                    }
                }
            }
            i = i + 1;
        }
        proof {
            lemma_queue_bound(queue@);
            assert(bfs_inv(self.cells@, self.depth@, queue@)) by {
                assert forall|r: int, c: int|
                    in_grid(r, c) && #[trigger] cell_at(self.cells@, r, c).tower implies
                    self.depth@.contains_key(fidx(r, c)) && self.depth@[fidx(r, c)] == 0 by {
                    assert(cells0[fidx(r, c)].tower);
                }
                assert forall|r: int, c: int|
                    in_grid(r, c) && #[trigger] self.depth@.contains_key(fidx(r, c)) implies
                    set_or_target(cell_at(self.cells@, r, c)) by {
                    assert(cells0[fidx(r, c)].tower);
                }
                assert forall|j: int|
                    0 <= j < 900 && set_or_target(#[trigger] self.cells@[j]) implies
                    queue@.contains(j as usize) by {
                    lemma_flat(j);
                    assert(cell_at(cells0, j / 30, j % 30).movement is None);
                    assert(cells0[j].tower);
                }
                assert forall|j: int|
                    0 <= j < 900 implies (self.depth@.contains_key(j) <==> set_or_target(
                    #[trigger] self.cells@[j])) by {
                    lemma_flat(j);
                    assert(cell_at(cells0, j / 30, j % 30).movement is None);
                }
            }
        }
        let mut head: usize = 0;
        while head < queue.len()
            invariant
                head <= queue@.len(),
                queue@.len() <= 900,
                self.width == old(self).width,
                self.height == old(self).height,
                old(self).wf(),
                bfs_inv(self.cells@, self.depth@, queue@),
                flags_eq(self.cells@, old(self).cells@),
                forall|k: int|
                    0 <= k < head ==> neighbors_done(self.cells@, (#[trigger] queue@[k]) as int),
            decreases 900 - head,
        {
            let cur = queue[head];
            head = head + 1;
            let ghost snap0 = self.cells@;
            let ghost q_start = queue@;
            self.visit_orthogonal(&mut queue, cur);
            self.visit_diagonal(&mut queue, cur);
            proof {
                assert forall|k: int|
                    0 <= k < head implies neighbors_done(
                    self.cells@, (#[trigger] queue@[k]) as int) by {
                    assert(queue@[k] == q_start[k]);
                    if k < head - 1 {
                        assert(neighbors_done(snap0, q_start[k] as int));
                        assert(0 <= q_start[k] < 900);
                    } else {
                        assert(q_start[k] == cur);
                    }
                }
                lemma_queue_bound(queue@);
            }
        }
        proof {
            assert(flow_closed(self.cells@)) by {
                assert forall|r1: int, c1: int, r2: int, c2: int|
                    in_grid(r1, c1) && in_grid(r2, c2) && adjacent(r1, c1, r2, c2) && set_or_target(
                        #[trigger] cell_at(self.cells@, r1, c1),
                    ) && !(#[trigger] cell_at(self.cells@, r2, c2)).solid implies set_or_target(
                    cell_at(self.cells@, r2, c2)) by {
                    assert(set_or_target(self.cells@[fidx(r1, c1)]));
                    assert(queue@.contains(fidx(r1, c1) as usize));
                    let k = choose|k: int|
                        0 <= k < queue@.len() && queue@[k] == fidx(r1, c1) as usize;
                    assert(neighbors_done(self.cells@, queue@[k] as int));
                    lemma_fidx_inverse(r1, c1);
                }
            }
        }
    }
}

impl VectorField {
    /// The row and column range of the cells that the shrunk box of
    /// `entry` covers.
    fn entry_region(&self, entry: (Vec2, Vec2)) -> (region: ((usize, usize), (usize, usize)))
        requires
            self.wf(),
            entry.0.in_world(),
            0 <= entry.1.x <= crate::physics::SIZE_LIMIT,
            0 <= entry.1.y <= crate::physics::SIZE_LIMIT,
        ensures
            forall|r: int, c: int|
                (region.0.0 <= r <= region.0.1 && region.1.0 <= c <= region.1.1) <==> covers(
                    entry,
                    self.width as int,
                    self.height as int,
                    r,
                    c,
                ),
            region.0.0 <= region.0.1 < 30,
            region.1.0 <= region.1.1 < 30,
    {
        let sx = (entry.1.x * 10) / 18;
        let sy = (entry.1.y * 10) / 18;
        let upperleft = Vec2 { x: entry.0.x - sx, y: entry.0.y - sy };
        let lowerright = Vec2 { x: entry.0.x + sx, y: entry.0.y + sy };
        let region = self.get_region_indices(upperleft, lowerright);
        proof {
            lemma_axis_index_monotone(
                upperleft.y as int,
                lowerright.y as int,
                self.height as int,
            );
            lemma_axis_index_monotone(upperleft.x as int, lowerright.x as int, self.width as int);
        }
        region
    }

    /// Rebuilds the whole field from the current layout: every cell is
    /// cleared, the cells covered by the target's shrunk box are marked
    /// solid and target, the cells covered by each solid's shrunk box are
    /// marked solid, and directions are flooded outward from the target in
    /// the fixed neighbour priority of `generate`.  With no target, no cell
    /// gets a direction.
    pub fn regenerate(&mut self, target: Option<(Vec2, Vec2)>, solids: &Vec<(Vec2, Vec2)>)
        requires
            old(self).wf(),
            (target matches Some(t) ==> t.0.in_world() && 0 <= t.1.x <= crate::physics::SIZE_LIMIT
                && 0 <= t.1.y <= crate::physics::SIZE_LIMIT),
            forall|j: int|
                0 <= j < solids@.len() ==> (#[trigger] solids@[j]).0.in_world() && 0
                    <= solids@[j].1.x <= crate::physics::SIZE_LIMIT && 0 <= solids@[j].1.y
                    <= crate::physics::SIZE_LIMIT,
        ensures
            final(self).wf(),
            final(self).width == old(self).width,
            final(self).height == old(self).height,
            final(self).flow_ok(),
            forall|r: int, c: int|
                in_grid(r, c) ==> (cell_at(final(self).cells@, r, c).tower <==> (target matches Some(
                    t,
                ) && covers(t, old(self).width as int, old(self).height as int, r, c))),
            forall|r: int, c: int|
                in_grid(r, c) ==> (cell_at(final(self).cells@, r, c).solid <==> (cell_at(
                    final(self).cells@,
                    r,
                    c,
                ).tower || (exists|j: int|
                    0 <= j < solids@.len() && covers(
                        #[trigger] solids@[j],
                        old(self).width as int,
                        old(self).height as int,
                        r,
                        c,
                    )))),
    {
        let ghost w = self.width as int;
        let ghost h = self.height as int;
        self.reset();
        match target {
            Some(t) => {
                let region = self.entry_region(t);
                self.mark_region(region.0, region.1, true);
            },
            None => {},
        }
        proof {
            assert forall|r: int, c: int| in_grid(r, c) implies (#[trigger] cell_at(
                self.cells@,
                r,
                c,
            ).tower <==> (target matches Some(t) && covers(t, w, h, r, c))) && (cell_at(
                self.cells@,
                r,
                c,
            ).solid <==> cell_at(self.cells@, r, c).tower) && cell_at(
                self.cells@,
                r,
                c,
            ).movement is None by {}
        }
        let n = solids.len();
        let mut j: usize = 0;
        while j < n
            invariant
                j <= n,
                n == solids@.len(),
                self.wf(),
                self.width == old(self).width,
                self.height == old(self).height,
                w == self.width as int,
                h == self.height as int,
                forall|k: int|
                    0 <= k < solids@.len() ==> (#[trigger] solids@[k]).0.in_world() && 0
                        <= solids@[k].1.x <= crate::physics::SIZE_LIMIT && 0 <= solids@[k].1.y
                        <= crate::physics::SIZE_LIMIT,
                forall|r: int, c: int|
                    in_grid(r, c) ==> ((#[trigger] cell_at(self.cells@, r, c).tower) <==> (
                    target matches Some(t) && covers(t, w, h, r, c))),
                forall|r: int, c: int|
                    in_grid(r, c) ==> ((#[trigger] cell_at(self.cells@, r, c).solid) <==> (cell_at(
                        self.cells@,
                        r,
                        c,
                    ).tower || (exists|k: int|
                        0 <= k < j && covers(#[trigger] solids@[k], w, h, r, c)))),
                forall|r: int, c: int|
                    in_grid(r, c) ==> (#[trigger] cell_at(self.cells@, r, c).movement) is None,
            decreases n - j,
        {
            let entry = *vstd::slice::slice_index_get(solids.as_slice(), j);
            let region = self.entry_region(entry);
            let ghost prev = self.cells@;
            self.mark_region(region.0, region.1, false);
            proof {
                assert forall|r: int, c: int| in_grid(r, c) implies ((#[trigger] cell_at(
                    self.cells@,
                    r,
                    c,
                ).solid) <==> (cell_at(self.cells@, r, c).tower || (exists|k: int|
                    0 <= k < j + 1 && covers(#[trigger] solids@[k], w, h, r, c)))) by {
                    if covers(solids@[j as int], w, h, r, c) {
                        assert(region.0.0 <= r <= region.0.1 && region.1.0 <= c <= region.1.1);
                        assert(cell_at(self.cells@, r, c).solid);
                        assert(0 <= j < j + 1 && covers(solids@[j as int], w, h, r, c));
                    } else {
                        assert(!(region.0.0 <= r <= region.0.1 && region.1.0 <= c
                            <= region.1.1));
                        assert(cell_at(self.cells@, r, c) == cell_at(prev, r, c));
                        if exists|k: int| 0 <= k < j + 1 && covers(#[trigger] solids@[k], w, h, r, c) {
                            let k = choose|k: int|
                                0 <= k < j + 1 && covers(#[trigger] solids@[k], w, h, r, c);
                            assert(k < j);
                        }
                    }
                }
            }
            j = j + 1;
        }
        let ghost before_flood = self.cells@;
        proof {
            assert forall|i: int|
                0 <= i < 900 && (#[trigger] self.cells@[i]).tower implies self.cells@[i].solid by {
                lemma_flat(i);
                assert(cell_at(self.cells@, i / 30, i % 30).tower);
                assert(cell_at(self.cells@, i / 30, i % 30).solid);
            }
        }
        self.generate();
        proof {
            assert forall|r: int, c: int| in_grid(r, c) implies (#[trigger] cell_at(
                self.cells@,
                r,
                c,
            ).tower == cell_at(before_flood, r, c).tower) && (cell_at(self.cells@, r, c).solid
                == cell_at(before_flood, r, c).solid) by {}
        }
    }
}

/// A path that follows the flow: each cell is open, carries a direction,
/// and the direction leads to the next cell; the last cell is a target.
pub open spec fn follows_flow(cells: Seq<Cell>, path: Seq<(int, int)>) -> bool {
    &&& path.len() >= 1
    &&& forall|k: int| 0 <= k < path.len() ==> in_grid((#[trigger] path[k]).0, path[k].1)
    &&& forall|k: int|
        0 <= k < path.len() - 1 ==> {
            let cell = cell_at(cells, (#[trigger] path[k]).0, path[k].1);
            &&& !cell.solid
            &&& cell.movement is Some
            &&& step_dest(path[k].0, path[k].1, cell.movement->0) == path[k + 1]
        }
    &&& cell_at(cells, path.last().0, path.last().1).tower
}

/// Flow field correctness: from any cell the flood reached, following the
/// stored directions walks a path of strictly decreasing depth that stays
/// on open cells and ends at a target cell — no cycles, and no direction
/// pointing away from the target.
pub proof fn lemma_flow_reaches_target(
    cells: Seq<Cell>,
    depth: Map<int, nat>,
    r: int,
    c: int,
) -> (path: Seq<(int, int)>)
    requires
        cells.len() == 900,
        depth_ok(cells, depth),
        in_grid(r, c),
        set_or_target(cell_at(cells, r, c)),
    ensures
        follows_flow(cells, path),
        path[0] == (r, c),
        depth.contains_key(fidx(r, c)),
        path.len() <= depth[fidx(r, c)] + 1,
        forall|k: int|
            0 <= k < path.len() - 1 ==> depth[fidx(path[k + 1].0, path[k + 1].1)] < depth[fidx(
                (#[trigger] path[k]).0,
                path[k].1,
            )],
    decreases
            (if depth.contains_key(fidx(r, c)) {
                depth[fidx(r, c)]
            } else {
                0
            }),
{
    if cell_at(cells, r, c).tower {
        let path = seq![(r, c)];
        assert(path.last() == (r, c));
        path
    } else {
        let m = cell_at(cells, r, c).movement->0;
        let dest = step_dest(r, c, m);
        let rest = lemma_flow_reaches_target(cells, depth, dest.0, dest.1);
        let path = seq![(r, c)] + rest;
        assert(path[0] == (r, c));
        assert(path.last() == rest.last());
        assert forall|k: int| 0 <= k < path.len() implies in_grid(
            (#[trigger] path[k]).0,
            path[k].1,
        ) by {
            if k > 0 {
                assert(path[k] == rest[k - 1]);
            }
        }
        assert forall|k: int| 0 <= k < path.len() - 1 implies {
            let cell = cell_at(cells, (#[trigger] path[k]).0, path[k].1);
            &&& !cell.solid
            &&& cell.movement is Some
            &&& step_dest(path[k].0, path[k].1, cell.movement->0) == path[k + 1]
        } by {
            if k == 0 {
                assert(path[1] == rest[0]);
            } else {
                assert(path[k] == rest[k - 1]);
                assert(path[k + 1] == rest[k]);
            }
        }
        assert forall|k: int| 0 <= k < path.len() - 1 implies depth[fidx(
            path[k + 1].0,
            path[k + 1].1,
        )] < depth[fidx((#[trigger] path[k]).0, path[k].1)] by {
            if k == 0 {
                assert(path[1] == rest[0]);
            } else {
                assert(path[k] == rest[k - 1]);
                assert(path[k + 1] == rest[k]);
            }
        }
        path
    }
}

/// A chain of pairwise adjacent cells, open up to its last cell, which is
/// a target cell.
pub open spec fn open_path(cells: Seq<Cell>, path: Seq<(int, int)>) -> bool {
    &&& path.len() >= 1
    &&& forall|k: int| 0 <= k < path.len() ==> in_grid((#[trigger] path[k]).0, path[k].1)
    &&& forall|k: int|
        0 <= k < path.len() - 1 ==> adjacent(
            (#[trigger] path[k]).0,
            path[k].1,
            path[k + 1].0,
            path[k + 1].1,
        )
    &&& forall|k: int|
        0 <= k < path.len() - 1 ==> !cell_at(cells, (#[trigger] path[k]).0, path[k].1).solid
    &&& cell_at(cells, path.last().0, path.last().1).tower
}

/// Unreachable cells keep no direction — stated as its contrapositive:
/// once the flood has closed, any cell from which a chain of open
/// neighbours leads to a target has been reached, so a non-target cell
/// left without a direction admits no such chain.
pub proof fn lemma_reachable_cell_is_directed(cells: Seq<Cell>, path: Seq<(int, int)>)
    requires
        cells.len() == 900,
        flow_closed(cells),
        open_path(cells, path),
    ensures
        set_or_target(cell_at(cells, path[0].0, path[0].1)),
    decreases path.len(),
{
    if path.len() == 1 {
    } else {
        let rest = path.subrange(1, path.len() as int);
        assert(rest.last() == path.last());
        assert forall|k: int| 0 <= k < rest.len() implies in_grid(
            (#[trigger] rest[k]).0,
            rest[k].1,
        ) by {
            assert(rest[k] == path[k + 1]);
        }
        assert forall|k: int| 0 <= k < rest.len() - 1 implies adjacent(
            (#[trigger] rest[k]).0,
            rest[k].1,
            rest[k + 1].0,
            rest[k + 1].1,
        ) by {
            assert(rest[k] == path[k + 1]);
            assert(rest[k + 1] == path[k + 2]);
        }
        assert forall|k: int| 0 <= k < rest.len() - 1 implies !cell_at(
            cells,
            (#[trigger] rest[k]).0,
            rest[k].1,
        ).solid by {
            assert(rest[k] == path[k + 1]);
        }
        lemma_reachable_cell_is_directed(cells, rest);
        assert(rest[0] == path[1]);
        assert(adjacent(path[1].0, path[1].1, path[0].0, path[0].1));
    }
}

/// With no target cell anywhere, the flood reaches nothing: every cell
/// keeps `movement` unset.
pub proof fn lemma_no_target_no_direction(cells: Seq<Cell>, depth: Map<int, nat>, r: int, c: int)
    requires
        cells.len() == 900,
        depth_ok(cells, depth),
        in_grid(r, c),
        forall|r2: int, c2: int|
            in_grid(r2, c2) ==> !(#[trigger] cell_at(cells, r2, c2)).tower,
    ensures
        cell_at(cells, r, c).movement is None,
{
    if cell_at(cells, r, c).movement is Some {
        let path = lemma_flow_reaches_target(cells, depth, r, c);
        assert(cell_at(cells, path.last().0, path.last().1).tower);
        assert(in_grid(path.last().0, path.last().1));
    }
}

/// The slow cadence the field regenerates on, in milliseconds.
pub const REGEN_INTERVAL_MS: i64 = 2_000;

/// The countdown that schedules regeneration: rebuilding the field is due
/// on the first tick after the timer is created or forced, and then once
/// every two seconds — a bound on recomputation cost, not a concurrency
/// primitive.
pub struct RegenTimer {
    pub remaining_ms: i64,
}

impl RegenTimer {
    pub open spec fn wf(self) -> bool {
        0 <= self.remaining_ms <= REGEN_INTERVAL_MS
    }

    /// A timer that is due on its first tick.
    pub fn new() -> (t: RegenTimer)
        ensures
            t.remaining_ms == 0,
            t.wf(),
    {
        RegenTimer { remaining_ms: 0 }
    }

    /// Makes the timer due on the next tick: the static layout changed.
    pub fn force(&mut self)
        ensures
            final(self).remaining_ms == 0,
            final(self).wf(),
    {
        self.remaining_ms = 0;
    }

    /// Counts one frame down; reports whether regeneration is due now and,
    /// when it is, rearms the countdown.
    pub fn tick(&mut self, dt_ms: i64) -> (due: bool)
        requires
            old(self).wf(),
            1 <= dt_ms <= 1000,
        ensures
            due == (old(self).remaining_ms <= dt_ms),
            final(self).remaining_ms == (if due {
                REGEN_INTERVAL_MS as int
            } else {
                old(self).remaining_ms - dt_ms
            }),
            final(self).wf(),
    {
        if self.remaining_ms <= dt_ms {
            self.remaining_ms = REGEN_INTERVAL_MS;
            true
        } else {
            self.remaining_ms = self.remaining_ms - dt_ms;
            false
        }
    }
}

/// Maps a world coordinate to a row or column of the field.
fn axis_index_exec(w: i64, extent: i64) -> (i: usize)
    requires
        1 <= extent <= 2_000_000_000,
        -1_200_000_000 <= w <= 1_200_000_000,
    ensures
        i as int == axis_index(w as int, extent as int),
        i < 30,
{
    let scaled = 60 * w + 30 * extent;
    if scaled < 0 {
        0
    } else {
        let i = scaled / (2 * extent);
        if i > 29 {
            29
        } else {
            proof {
                assert(0 <= (scaled as int) / (2 * (extent as int)) <= 29);
            }
            i as usize
        }
    }
}

} // verus!
