use grid_combat::maps::TileGridMap;
use grid_combat::maps::TileType;
use grid_combat::path_finder::build_navability_grid;
use grid_combat::path_finder::Navability;

#[test]
fn tile_classification_default_is_solid() {
    // A 2 x 2 region with one floor tile and one wall tile; the two
    // unpopulated cells must come out solid, so pathfinding treats them
    // as impassable.
    let mut tiles = TileGridMap::new();
    tiles.insert((0, 0), 1, TileType::Floor);
    tiles.insert((1, 1), 2, TileType::Wall);
    let grid = build_navability_grid(&tiles);
    assert_eq!(grid.len(), 4);
    let width = (tiles.max_x + 1) as usize;
    assert_eq!(grid[0 * width + 0], Navability::Navable);
    assert_eq!(grid[0 * width + 1], Navability::Solid, "unpopulated cell is solid");
    assert_eq!(grid[1 * width + 0], Navability::Solid, "unpopulated cell is solid");
    assert_eq!(grid[1 * width + 1], Navability::Solid, "wall tile is solid");
}

#[test]
fn navability_grid_covers_whole_extent() {
    let mut tiles = TileGridMap::new();
    for x in 0..4 {
        for y in 0..3 {
            tiles.insert((x, y), (10 + x + y) as u64, TileType::Floor);
        }
    }
    tiles.insert((2, 1), 99, TileType::Wall);
    let grid = build_navability_grid(&tiles);
    assert_eq!(grid.len(), 12);
    let width = 4usize;
    for x in 0..4usize {
        for y in 0..3usize {
            let expected = if x == 2 && y == 1 { Navability::Solid } else { Navability::Navable };
            assert_eq!(grid[y * width + x], expected, "cell ({}, {})", x, y);
        }
    }
}
