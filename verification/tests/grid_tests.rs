use grid_combat::grid::ceil_div_i64;
use grid_combat::grid::compute_bbox;
use grid_combat::grid::encode_cell;
use grid_combat::grid::floor_div_i64;
use grid_combat::grid::Coordinate;

#[test]
fn floor_and_ceil_division_round_correctly() {
    assert_eq!(floor_div_i64(40, 16), 2);
    assert_eq!(floor_div_i64(-40, 16), -3);
    assert_eq!(floor_div_i64(-32, 16), -2);
    assert_eq!(floor_div_i64(0, 16), 0);
    assert_eq!(ceil_div_i64(40, 16), 3);
    assert_eq!(ceil_div_i64(-40, 16), -2);
    assert_eq!(ceil_div_i64(32, 16), 2);
    assert_eq!(ceil_div_i64(0, 16), 0);
}

#[test]
fn bbox_of_unit_at_cell_center() {
    // An entity of half-extent 8 standing at (8, 8) covers exactly cell
    // (0, 0).
    let c = compute_bbox(8, 8, 8, 8);
    assert_eq!(c, Coordinate::new(0, 0, 0, 0));
}

#[test]
fn bbox_spanning_several_cells() {
    // Half-extent 16 around (8, 8): from -16 to 32 relative to the
    // offset grid, covering cells -1 through 1... x range is
    // [ceil(-24/16), floor(8/16 + 1)] = [-1, 1].
    let c = compute_bbox(8, 8, 16, 16);
    assert_eq!(c, Coordinate::new(-1, -1, 1, 1));
}

#[test]
fn bbox_at_negative_world_position() {
    let c = compute_bbox(-24, -24, 8, 8);
    assert_eq!(c, Coordinate::new(-2, -2, -2, -2));
}

#[test]
fn cell_keys_are_distinct_for_distinct_cells() {
    let cells = [(0, 0), (1, 0), (0, 1), (-1, 0), (0, -1), (7, -9), (-7, 9)];
    for a in cells {
        for b in cells {
            if a == b {
                assert_eq!(encode_cell(a.0, a.1), encode_cell(b.0, b.1));
            } else {
                assert_ne!(encode_cell(a.0, a.1), encode_cell(b.0, b.1));
            }
        }
    }
}
