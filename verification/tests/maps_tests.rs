use grid_combat::grid::Coordinate;
use grid_combat::maps::change_coordinate_of_moved_entity;
use grid_combat::maps::insert_floor;
use grid_combat::maps::insert_wall;
use grid_combat::maps::EntityGridMap;
use grid_combat::maps::TileGridMap;
use grid_combat::maps::TileType;

#[test]
fn idempotent_insert_yields_one_occupant() {
    let mut map = EntityGridMap::new();
    map.insert((3, -2), 77);
    map.insert((3, -2), 77);
    let occupants = map.get((3, -2)).expect("cell should exist");
    assert_eq!(occupants.len(), 1);
    assert_eq!(occupants[0], 77);
}

#[test]
fn delete_last_occupant_removes_cell() {
    let mut map = EntityGridMap::new();
    map.insert((5, 5), 9);
    assert!(map.get((5, 5)).is_some());
    map.delete((5, 5), 9);
    assert!(map.get((5, 5)).is_none());
}

#[test]
fn delete_keeps_other_occupants() {
    let mut map = EntityGridMap::new();
    map.insert((1, 1), 10);
    map.insert((1, 1), 11);
    map.delete((1, 1), 10);
    let occupants = map.get((1, 1)).expect("cell should keep the other occupant");
    assert_eq!(occupants.len(), 1);
    assert_eq!(occupants[0], 11);
}

#[test]
fn delete_on_absent_cell_is_noop() {
    let mut map = EntityGridMap::new();
    map.delete((4, 4), 1);
    assert!(map.get((4, 4)).is_none());
    map.insert((4, 4), 2);
    map.delete((4, 4), 3);
    assert!(map.contains((4, 4), 2));
}

#[test]
fn contains_and_clear() {
    let mut map = EntityGridMap::new();
    map.insert((0, 0), 5);
    map.insert((0, 0), 6);
    assert!(map.contains((0, 0), 5));
    assert!(map.contains((0, 0), 6));
    assert!(!map.contains((0, 0), 7));
    map.clear((0, 0));
    assert!(map.get((0, 0)).is_none());
}

fn fill_box(map: &mut EntityGridMap, c: Coordinate, entity: u64) {
    let mut x = c.min_x;
    while x <= c.max_x {
        let mut y = c.min_y;
        while y <= c.max_y {
            map.insert((x, y), entity);
            y += 1;
        }
        x += 1;
    }
}

fn check_tracks(map: &EntityGridMap, c: Coordinate, entity: u64) {
    for x in -12..=12 {
        for y in -12..=12 {
            let covered = c.min_x <= x && x <= c.max_x && c.min_y <= y && y <= c.max_y;
            assert_eq!(
                map.contains((x, y), entity),
                covered,
                "cell ({}, {}) for box {:?}",
                x,
                y,
                c
            );
        }
    }
}

#[test]
fn moving_entity_across_cell_boundary() {
    let mut map = EntityGridMap::new();
    let entity = 42;
    let mut coordinate = Coordinate::new(0, 0, 0, 0);
    map.insert((0, 0), entity);
    let target = Coordinate::new(1, 0, 1, 0);
    change_coordinate_of_moved_entity(&mut map, &mut coordinate, target, entity);
    assert!(map.get((0, 0)).is_none());
    let occupants = map.get((1, 0)).expect("new cell should be occupied");
    assert_eq!(occupants.as_slice(), &[entity]);
    assert_eq!(coordinate, target);
}

#[test]
fn index_invariant_through_update_sequence() {
    let mut map = EntityGridMap::new();
    let entity = 7;
    let start = Coordinate::new(0, 0, 2, 2);
    let mut coordinate = start;
    fill_box(&mut map, start, entity);
    check_tracks(&map, start, entity);

    let steps = [
        Coordinate::new(1, 1, 3, 3),
        Coordinate::new(-2, 1, 0, 3),
        Coordinate::new(5, 5, 6, 6),
        Coordinate::new(5, 5, 6, 6),
        Coordinate::new(-8, -8, -7, -6),
        Coordinate::new(-8, -8, -7, -6),
        Coordinate::new(0, -1, 4, 0),
    ];
    for step in steps {
        change_coordinate_of_moved_entity(&mut map, &mut coordinate, step, entity);
        assert_eq!(coordinate, step);
        check_tracks(&map, step, entity);
    }
}

#[test]
fn update_leaves_other_entities_alone() {
    let mut map = EntityGridMap::new();
    let mover = 1;
    let bystander = 2;
    map.insert((0, 0), bystander);
    map.insert((1, 0), bystander);
    let mut coordinate = Coordinate::new(0, 0, 0, 0);
    map.insert((0, 0), mover);
    change_coordinate_of_moved_entity(&mut map, &mut coordinate, Coordinate::new(1, 0, 1, 0), mover);
    assert!(map.contains((0, 0), bystander));
    assert!(map.contains((1, 0), bystander));
    assert!(!map.contains((0, 0), mover));
    assert!(map.contains((1, 0), mover));
}

#[test]
fn tile_grid_tracks_extents_and_entries() {
    let mut tiles = TileGridMap::new();
    tiles.insert((3, 1), 100, TileType::Wall);
    tiles.insert((1, 4), 101, TileType::Floor);
    tiles.insert((-2, -5), 102, TileType::Floor);
    assert_eq!(tiles.max_x, 3);
    assert_eq!(tiles.max_y, 4);
    assert_eq!(tiles.get((3, 1)), Some(&(100, TileType::Wall)));
    assert_eq!(tiles.get((1, 4)), Some(&(101, TileType::Floor)));
    assert!(tiles.contains((-2, -5)));
    assert!(!tiles.contains((0, 0)));
    tiles.delete((3, 1));
    assert!(tiles.get((3, 1)).is_none());
    assert_eq!(tiles.max_x, 3);
}

#[test]
fn wall_and_floor_world_positions_map_to_cells() {
    let mut tiles = TileGridMap::new();
    // Cell (0, 0) spans world [-8, 8) around its center (8, 8) shifted by
    // the grid offset: position (8, 8) lands in cell (0, 0).
    insert_floor(&mut tiles, 8, 8, 1);
    assert_eq!(tiles.get((0, 0)), Some(&(1, TileType::Floor)));
    // One full cell to the right.
    insert_wall(&mut tiles, 24, 8, 2);
    assert_eq!(tiles.get((1, 0)), Some(&(2, TileType::Wall)));
    // Negative side: position (-8, 8) floors to cell (-1, 0).
    insert_wall(&mut tiles, -8, 8, 3);
    assert_eq!(tiles.get((-1, 0)), Some(&(3, TileType::Wall)));
}
