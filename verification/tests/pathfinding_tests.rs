use wandersim::pathfinding::VectorField;
use wandersim::vec2::Vec2;

const EXTENT: i64 = 2_880_000;

fn field() -> VectorField {
    VectorField::new(EXTENT, EXTENT)
}

// The world centre of the cell at `(row, column)` of a field stretched over
// `EXTENT`: each cell spans ninety-six thousand thousandths.
fn cell_centre(row: usize, column: usize) -> Vec2 {
    Vec2::new(
        96_000 * column as i64 - 1_392_000,
        96_000 * row as i64 - 1_392_000,
    )
}

fn target_at_origin() -> Option<(Vec2, Vec2)> {
    Some((Vec2::new(0, 0), Vec2::new(120_000, 120_000)))
}

#[test]
fn no_target_leaves_every_cell_undirected() {
    let mut f = field();
    f.regenerate(None, &Vec::new());
    for cell in f.cells.iter() {
        assert!(cell.movement.is_none());
        assert!(!cell.solid);
        assert!(!cell.tower);
    }
    // A query then answers with a small jitter instead of freezing.
    let dir = f.get_direction(Vec2::new(0, 0));
    assert!(-700 <= dir.x && dir.x < 700);
    assert!(-700 <= dir.y && dir.y < 700);
}

#[test]
fn target_cells_are_marked_solid_and_target() {
    let mut f = field();
    f.regenerate(target_at_origin(), &Vec::new());
    for row in 0..30usize {
        for column in 0..30usize {
            let cell = &f.cells[row * 30 + column];
            let in_target = (14..=15).contains(&row) && (14..=15).contains(&column);
            assert_eq!(cell.tower, in_target, "row {row} column {column}");
            assert_eq!(cell.solid, in_target, "row {row} column {column}");
        }
    }
}

#[test]
fn open_cells_all_point_somewhere_when_target_reachable() {
    let mut f = field();
    f.regenerate(target_at_origin(), &Vec::new());
    for row in 0..30usize {
        for column in 0..30usize {
            let cell = &f.cells[row * 30 + column];
            if !cell.solid {
                assert!(cell.movement.is_some(), "row {row} column {column}");
            }
        }
    }
}

#[test]
fn cell_right_of_target_points_left() {
    let mut f = field();
    f.regenerate(target_at_origin(), &Vec::new());
    // The cell in row fourteen, column sixteen touches the target block on
    // its left; the flood reaches it from there first.
    let dir = f.get_direction(Vec2::new(100_000, -50_000));
    assert_eq!(dir.x, -1000);
    assert_eq!(dir.y, 0);
}

#[test]
fn enclosed_pocket_keeps_no_direction() {
    let mut f = field();
    let small_box = Vec2::new(20_000, 20_000);
    let mut solids = Vec::new();
    for row in 4..=6usize {
        for column in 4..=6usize {
            if !(row == 5 && column == 5) {
                solids.push((cell_centre(row, column), small_box));
            }
        }
    }
    f.regenerate(target_at_origin(), &solids);
    // The ring itself is solid.
    assert!(f.cells[4 * 30 + 4].solid);
    assert!(f.cells[6 * 30 + 6].solid);
    // The enclosed cell is open but the flood never reached it.
    let pocket = &f.cells[5 * 30 + 5];
    assert!(!pocket.solid);
    assert!(pocket.movement.is_none());
    // Outside the ring the flood got everywhere.
    assert!(f.cells[5 * 30 + 8].movement.is_some());
    assert!(f.cells[0].movement.is_some());
    // Queries in the pocket wander randomly within the jitter cone.
    let dir = f.get_direction(cell_centre(5, 5));
    assert!(-700 <= dir.x && dir.x < 700);
    assert!(-700 <= dir.y && dir.y < 700);
}

#[test]
fn reset_clears_directions_and_flags() {
    let mut f = field();
    f.regenerate(target_at_origin(), &Vec::new());
    f.reset();
    for cell in f.cells.iter() {
        assert!(cell.movement.is_none());
        assert!(!cell.solid);
        assert!(!cell.tower);
    }
}

#[test]
fn out_of_range_queries_clamp_to_edge_cells() {
    let mut f = field();
    f.regenerate(target_at_origin(), &Vec::new());
    // Far beyond the covered extent, the query clamps to the nearest edge
    // cell instead of failing; that cell is open and directed.
    let dir = f.get_direction(Vec2::new(900_000_000, 900_000_000));
    assert!(dir.x != 0 || dir.y != 0);
    assert!(dir.x.abs() <= 1000 && dir.y.abs() <= 1000);
}

#[test]
fn regeneration_timer_fires_every_two_seconds() {
    let mut timer = wandersim::pathfinding::RegenTimer::new();
    assert!(timer.tick(16), "due on the first tick");
    let mut fired = 0;
    for _ in 0..125 {
        if timer.tick(16) {
            fired += 1;
        }
    }
    assert_eq!(fired, 1, "125 frames of 16 ms hold one two-second mark");
    timer.force();
    assert!(timer.tick(16), "a forced timer is due at once");
}
