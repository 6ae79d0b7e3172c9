use combat_core::map::Tilemap;
use combat_core::position::MapPosition;

fn open_map(width: u32, height: u32) -> Tilemap {
    Tilemap::new(0, width, height, 64, 32, &Vec::new())
}

fn map_with(width: u32, height: u32, obstacles: &[(u32, u32)]) -> Tilemap {
    let cells: Vec<MapPosition> =
        obstacles.iter().map(|&(x, y)| MapPosition::new(x, y)).collect();
    Tilemap::new(0, width, height, 64, 32, &cells)
}

#[test]
fn out_of_bounds_is_always_an_obstacle() {
    let map = open_map(5, 5);
    assert!(map.is_obstacle(&MapPosition::new(5, 0)));
    assert!(map.is_obstacle(&MapPosition::new(0, 5)));
    assert!(!map.is_obstacle(&MapPosition::new(4, 4)));
}

#[test]
fn obstacle_layer_blocks_exactly_its_cells() {
    let map = map_with(5, 5, &[(2, 2), (0, 4)]);
    assert!(map.is_obstacle(&MapPosition::new(2, 2)));
    assert!(map.is_obstacle(&MapPosition::new(0, 4)));
    assert!(!map.is_obstacle(&MapPosition::new(2, 3)));
}

#[test]
fn all_positions_enumerates_the_grid_once() {
    let map = open_map(3, 2);
    let all = map.all_positions();
    assert_eq!(all.len(), 6);
    for y in 0..2 {
        for x in 0..3 {
            assert!(all.contains(&MapPosition::new(x, y)));
        }
    }
}

#[test]
fn neighbors_are_walkable_axis_neighbors() {
    let map = map_with(3, 3, &[(1, 0)]);
    let n = map.non_obstacle_tile_neightbours(&MapPosition::new(1, 1));
    assert_eq!(n.len(), 3);
    assert!(n.contains(&(MapPosition::new(1, 2), 1)));
    assert!(n.contains(&(MapPosition::new(0, 1), 1)));
    assert!(n.contains(&(MapPosition::new(2, 1), 1)));
    assert!(!n.contains(&(MapPosition::new(1, 0), 1)));
}

#[test]
fn corner_has_two_neighbors() {
    let map = open_map(3, 3);
    let n = map.non_obstacle_tile_neightbours(&MapPosition::new(0, 0));
    assert_eq!(n.len(), 2);
    assert!(n.contains(&(MapPosition::new(1, 0), 1)));
    assert!(n.contains(&(MapPosition::new(0, 1), 1)));
}

#[test]
fn line_of_sight_ignores_its_endpoints() {
    // Units standing on the two cells are not their own obstacles.
    let map = map_with(5, 5, &[(0, 0), (4, 0)]);
    assert!(map.line_of_sight_check(&MapPosition::new(0, 0), &MapPosition::new(4, 0)));
}

#[test]
fn line_of_sight_blocked_by_a_wall_cell() {
    let map = map_with(5, 5, &[(2, 0)]);
    assert!(!map.line_of_sight_check(&MapPosition::new(0, 0), &MapPosition::new(4, 0)));
    assert!(map.line_of_sight_check(&MapPosition::new(0, 1), &MapPosition::new(4, 1)));
}

#[test]
fn line_of_sight_is_symmetric() {
    let map = map_with(6, 6, &[(2, 1), (3, 3), (1, 4)]);
    let cells: Vec<MapPosition> = map.all_positions();
    for a in &cells {
        for b in &cells {
            assert_eq!(
                map.line_of_sight_check(a, b),
                map.line_of_sight_check(b, a)
            );
        }
    }
}

#[test]
fn shortest_path_threads_the_gap() {
    // A wall on column 2 with a single gap at (2, 4): the path from (0, 0)
    // to (4, 4) must pass through the gap, at the Manhattan cost via it.
    let map = map_with(5, 5, &[(2, 0), (2, 1), (2, 2), (2, 3)]);
    let start = MapPosition::new(0, 0);
    let goal = MapPosition::new(4, 4);
    let (path, cost) = map.pathfinding(&start, &goal).expect("a path exists");
    assert_eq!(cost, 8);
    assert_eq!(path.len(), 9);
    assert_eq!(path[0], start);
    assert_eq!(path[path.len() - 1], goal);
    assert!(path.contains(&MapPosition::new(2, 4)));
}

#[test]
fn complete_wall_makes_the_goal_unreachable() {
    let map = map_with(5, 5, &[(2, 0), (2, 1), (2, 2), (2, 3), (2, 4)]);
    assert!(map.pathfinding(&MapPosition::new(0, 0), &MapPosition::new(4, 4)).is_none());
}

#[test]
fn trivial_path_is_the_start_itself() {
    let map = open_map(4, 4);
    let p = MapPosition::new(1, 1);
    let (path, cost) = map.pathfinding(&p, &p).expect("standing still");
    assert_eq!(cost, 0);
    assert_eq!(path, vec![p]);
}

#[test]
fn neighbors_come_in_the_fixed_up_left_right_down_order() {
    let map = open_map(3, 3);
    let n = map.non_obstacle_tile_neightbours(&MapPosition::new(1, 1));
    assert_eq!(
        n,
        vec![
            (MapPosition::new(1, 2), 1),
            (MapPosition::new(0, 1), 1),
            (MapPosition::new(2, 1), 1),
            (MapPosition::new(1, 0), 1)
        ]
    );
    let corner = map.non_obstacle_tile_neightbours(&MapPosition::new(0, 0));
    assert_eq!(corner, vec![(MapPosition::new(0, 1), 1), (MapPosition::new(1, 0), 1)]);
}
