use wandersim::grid::{get_coordinates, get_indeces, snap};
use wandersim::vec2::{isqrt, length, Vec2};

#[test]
fn centre_cell_is_world_origin() {
    let c = get_coordinates(12, 12);
    assert_eq!(c.x, 0);
    assert_eq!(c.y, 0);
}

#[test]
fn corner_cell_coordinates() {
    let c = get_coordinates(0, 0);
    assert_eq!(c.x, -1_152_000);
    assert_eq!(c.y, -1_152_000);
}

#[test]
fn origin_falls_in_centre_cell() {
    let (r, c) = get_indeces(Vec2::new(0, 0));
    assert_eq!(r, 12);
    assert_eq!(c, 12);
}

#[test]
fn coordinates_round_trip_through_indices() {
    for row in [0usize, 5, 12, 23] {
        for column in [0usize, 7, 12, 23] {
            let pos = get_coordinates(row, column);
            assert_eq!(get_indeces(pos), (row, column));
        }
    }
}

#[test]
fn far_negative_positions_clamp_to_cell_zero() {
    let (r, c) = get_indeces(Vec2::new(-900_000_000, -900_000_000));
    assert_eq!(r, 0);
    assert_eq!(c, 0);
}

#[test]
fn snap_lands_on_cell_centres() {
    let s = snap(Vec2::new(10_000, -50_000));
    assert_eq!(s.x, 0);
    assert_eq!(s.y, -96_000);
    // Snapping a snapped position changes nothing.
    let again = snap(s);
    assert_eq!(again.x, s.x);
    assert_eq!(again.y, s.y);
}

#[test]
fn integer_square_roots() {
    assert_eq!(isqrt(0), 0);
    assert_eq!(isqrt(1), 1);
    assert_eq!(isqrt(15), 3);
    assert_eq!(isqrt(16), 4);
    assert_eq!(isqrt(1_000_000_000_000), 1_000_000);
    assert_eq!(isqrt(u64::MAX), 4_294_967_295);
}

#[test]
fn vector_length_of_three_four_five() {
    assert_eq!(length(3_000, 4_000), 5_000);
    assert_eq!(length(-3_000, 4_000), 5_000);
    assert_eq!(length(0, 0), 0);
}
