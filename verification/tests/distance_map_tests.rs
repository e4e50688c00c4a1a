use grid_map::{
    goal_distance_map, obstacle_distance_map, path_distance_map, Cell, GridMap, Indices, Position,
};

#[test]
fn goal_distances_are_bfs_steps() {
    // 5 x 5 empty map; goal in the center. 8-connected unit steps give
    // the Chebyshev distance to the goal.
    let map = GridMap::<u8>::new(Position::new(0, 0), Position::new(500, 500), 100);
    let goal = Indices::new(2, 2);
    let field = goal_distance_map(&map, &goal);
    for col in 0..5usize {
        for row in 0..5usize {
            let flat = field.to_index_by_indices(&Indices::new(col, row)).unwrap();
            let dc = if col > 2 { col - 2 } else { 2 - col };
            let dr = if row > 2 { row - 2 } else { 2 - row };
            let expected = dc.max(dr) as u8;
            match field.cells[flat] {
                Cell::Value(v) => assert_eq!(v, expected),
                _ => panic!("cell ({col},{row}) not reached"),
            }
        }
    }
}

#[test]
fn obstacles_preserved_and_unreachable_stays_uninitialized() {
    // A full vertical wall at column 2 splits the map; the goal sits on
    // the right side, so the left side is never reached.
    let mut map = GridMap::<u8>::new(Position::new(0, 0), Position::new(500, 500), 100);
    for row in 0..5usize {
        map.set_obstacle_by_indices(&Indices::new(2, row)).unwrap();
    }
    let field = goal_distance_map(&map, &Indices::new(4, 2));
    for col in 0..5usize {
        for row in 0..5usize {
            let flat = field.to_index_by_indices(&Indices::new(col, row)).unwrap();
            let in_obstacle = matches!(map.cells[flat], Cell::Obstacle);
            let out_obstacle = matches!(field.cells[flat], Cell::Obstacle);
            assert_eq!(in_obstacle, out_obstacle);
            if col < 2 {
                assert!(matches!(field.cells[flat], Cell::Uninitialized));
            }
            if col > 2 {
                assert!(matches!(field.cells[flat], Cell::Value(_)));
            }
        }
    }
}

#[test]
fn obstacle_distance_neighbors() {
    let mut map = GridMap::<u8>::new(Position::new(0, 0), Position::new(500, 500), 100);
    map.set_obstacle_by_indices(&Indices::new(2, 2)).unwrap();
    let field = obstacle_distance_map(&map);
    // The obstacle itself stays marked; all eight neighbors are one step
    // away, the outer ring two steps.
    let center = field.to_index_by_indices(&Indices::new(2, 2)).unwrap();
    assert!(matches!(field.cells[center], Cell::Obstacle));
    for col in 0..5usize {
        for row in 0..5usize {
            if col == 2 && row == 2 {
                continue;
            }
            let flat = field.to_index_by_indices(&Indices::new(col, row)).unwrap();
            let dc = if col > 2 { col - 2 } else { 2 - col };
            let dr = if row > 2 { row - 2 } else { 2 - row };
            let expected = dc.max(dr) as u8;
            match field.cells[flat] {
                Cell::Value(v) => assert_eq!(v, expected),
                _ => panic!("cell ({col},{row}) not reached"),
            }
        }
    }
}

#[test]
fn path_distance_seeds_are_zero() {
    let map = GridMap::<u8>::new(Position::new(0, 0), Position::new(500, 500), 100);
    let path = vec![Indices::new(0, 0), Indices::new(1, 1), Indices::new(2, 2)];
    let field = path_distance_map(&map, &path);
    for idx in &path {
        let flat = field.to_index_by_indices(idx).unwrap();
        assert!(matches!(field.cells[flat], Cell::Value(0)));
    }
    let far = field.to_index_by_indices(&Indices::new(4, 0)).unwrap();
    assert!(matches!(field.cells[far], Cell::Value(2)));
}

#[test]
fn distances_clamp_at_255() {
    // A 300-cell corridor: distances beyond 255 saturate.
    let map = GridMap::<u8>::new(Position::new(0, 0), Position::new(30000, 100), 100);
    let field = goal_distance_map(&map, &Indices::new(0, 0));
    let near = field.to_index_by_indices(&Indices::new(254, 0)).unwrap();
    assert!(matches!(field.cells[near], Cell::Value(254)));
    let at = field.to_index_by_indices(&Indices::new(255, 0)).unwrap();
    assert!(matches!(field.cells[at], Cell::Value(255)));
    let beyond = field.to_index_by_indices(&Indices::new(299, 0)).unwrap();
    assert!(matches!(field.cells[beyond], Cell::Value(255)));
}
