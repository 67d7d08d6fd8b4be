//! The navigability grid the pathfinding service consumes: a row-major
//! classification of every cell from `(0, 0)` to the tile map's extents.
//! Pathfinding itself (navmesh generation, path queries) is an outside
//! service; this module only prepares its input.

use vstd::prelude::*;

use crate::maps::TileGridMap;
use crate::maps::TileType;
use crate::grid::cell_key;

verus! {

/// Whether an agent may walk through a cell.
#[derive(Clone, Copy, Debug, PartialEq, Eq, Structural)]
pub enum Navability {
    Navable,
    Solid,
}

/// Row-major position of cell `(x, y)` in a grid `max_x + 1` cells wide.
pub open spec fn nav_index(max_x: int, x: int, y: int) -> int {
    y * (max_x + 1) + x
}

/// The classification the navigability grid owes cell `(x, y)`: navable
/// exactly for populated floor tiles.  An unpopulated cell is solid by
/// policy — absent means impassable.
pub open spec fn nav_cell(tile_grid_map: TileGridMap, x: int, y: int) -> Navability {
    if tile_grid_map.contains_tile(cell_key(x, y)) && tile_grid_map.tile_at(
        cell_key(x, y),
    ).1 == TileType::Floor {
        Navability::Navable
    } else {
        Navability::Solid
    }
}

/// Largest tile-map extent the grid builder accepts; keeps the grid's
/// cell count inside `usize`.
pub const NAV_EXTENT_LIMIT: i32 = 32_767;

/// Builds the navigability grid for the populated region of the tile
/// map, row by row from `(0, 0)` to `(max_x, max_y)`: floor tiles are
/// navable, wall tiles and unpopulated cells are solid.
pub fn build_navability_grid(tile_grid_map: &TileGridMap) -> (grid: Vec<Navability>)
    requires
        tile_grid_map.wf(),
        tile_grid_map.max_x <= NAV_EXTENT_LIMIT,
        tile_grid_map.max_y <= NAV_EXTENT_LIMIT,
    ensures
        grid@.len() == (tile_grid_map.max_x + 1) * (tile_grid_map.max_y + 1),
        forall|x: int, y: int|
            0 <= x <= tile_grid_map.max_x && 0 <= y <= tile_grid_map.max_y ==> grid@[#[trigger]
                nav_index(tile_grid_map.max_x as int, x, y)] == nav_cell(*tile_grid_map, x, y),
{
    let max_x = tile_grid_map.max_x;
    let max_y = tile_grid_map.max_y;
    let ghost width = max_x as int + 1;
    let mut grid: Vec<Navability> = Vec::new();
    let mut y: i32 = 0;
    while y <= max_y
        invariant
            tile_grid_map.wf(),
            max_x == tile_grid_map.max_x,
            max_y == tile_grid_map.max_y,
            0 <= max_x <= NAV_EXTENT_LIMIT,
            0 <= max_y <= NAV_EXTENT_LIMIT,
            width == max_x + 1,
            0 <= y <= max_y + 1,
            grid@.len() == y * width,
            forall|x2: int, y2: int|
                0 <= x2 <= max_x && 0 <= y2 < y ==> grid@[#[trigger] nav_index(
                    max_x as int,
                    x2,
                    y2,
                )] == nav_cell(*tile_grid_map, x2, y2),
        decreases max_y + 1 - y,
    {
        let mut x: i32 = 0;
        while x <= max_x
            invariant
                tile_grid_map.wf(),
                max_x == tile_grid_map.max_x,
                max_y == tile_grid_map.max_y,
                0 <= max_x <= NAV_EXTENT_LIMIT,
                0 <= max_y <= NAV_EXTENT_LIMIT,
                width == max_x + 1,
                0 <= y <= max_y,
                0 <= x <= max_x + 1,
                grid@.len() == y * width + x,
                forall|x2: int, y2: int|
                    0 <= x2 <= max_x && 0 <= y2 < y ==> grid@[#[trigger] nav_index(
                        max_x as int,
                        x2,
                        y2,
                    )] == nav_cell(*tile_grid_map, x2, y2),
                forall|x2: int|
                    0 <= x2 < x ==> grid@[#[trigger] nav_index(max_x as int, x2, y as int)]
                        == nav_cell(*tile_grid_map, x2, y as int),
            decreases max_x + 1 - x,
        {
            proof {
                lemma_nav_row_bound(width, y as int, max_y as int);
            }
            let classification = match tile_grid_map.get((x, y)) {
                Some(tile) => match tile.1 {
                    TileType::Floor => Navability::Navable,
                    TileType::Wall => Navability::Solid,
                },
                None => Navability::Solid,
            };
            grid.push(classification);
            proof {
                assert(grid@.len() == y * width + x + 1);
                assert(grid@[nav_index(max_x as int, x as int, y as int)] == nav_cell(
                    *tile_grid_map,
                    x as int,
                    y as int,
                ));
                assert forall|x2: int, y2: int|
                    0 <= x2 <= max_x && 0 <= y2 < y implies grid@[#[trigger] nav_index(
                    max_x as int,
                    x2,
                    y2,
                )] == nav_cell(*tile_grid_map, x2, y2) by {
                    lemma_nav_index_in_prefix(width, x2, y2, y as int, x as int);
                }
                assert forall|x2: int| 0 <= x2 < x + 1 implies grid@[#[trigger] nav_index(
                    max_x as int,
                    x2,
                    y as int,
                )] == nav_cell(*tile_grid_map, x2, y as int) by {
                    if x2 < x {
                        lemma_nav_index_in_prefix(width, x2, y as int, y as int, x as int);
                    }
                }
            }
            x += 1;
        }
        proof {
            assert((y + 1) * width == y * width + width) by (nonlinear_arith);
        }
        y += 1;
    }
    proof {
        assert((max_y + 1) * width == max_y * width + width) by (nonlinear_arith);
    }
    grid
}

/// A full row fits before the end of the grid being built.
proof fn lemma_nav_row_bound(width: int, y: int, max_y: int)
    requires
        width >= 1,
        0 <= y <= max_y,
        max_y <= NAV_EXTENT_LIMIT,
        width <= NAV_EXTENT_LIMIT + 1,
    ensures
        0 <= y * width,
        y * width + width <= (NAV_EXTENT_LIMIT + 1) * (NAV_EXTENT_LIMIT + 1),
{
    assert(0 <= y * width && y * width + width <= (NAV_EXTENT_LIMIT + 1) * (NAV_EXTENT_LIMIT + 1))
        by (nonlinear_arith)
        requires
            width >= 1,
            0 <= y <= NAV_EXTENT_LIMIT,
            width <= NAV_EXTENT_LIMIT + 1,
    ;
}

/// A cell strictly before the write position keeps its grid slot inside
/// the prefix already built.
proof fn lemma_nav_index_in_prefix(width: int, x2: int, y2: int, y: int, x: int)
    requires
        width >= 1,
        0 <= x2 < width,
        0 <= y2 <= y,
        0 <= x,
        y2 < y || x2 < x,
    ensures
        0 <= y2 * width + x2,
        y2 * width + x2 < y * width + x,
{
    assert(0 <= y2 * width + x2 && y2 * width + x2 < y * width + x) by (nonlinear_arith)
        requires
            width >= 1,
            0 <= x2 < width,
            0 <= y2 <= y,
            0 <= x,
            y2 < y || x2 < x,
    ;
}

} // verus!
