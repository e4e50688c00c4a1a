use grid_map::{Cell, GridMap, GridMapError, Indices, LayeredGridMap, Position};

#[test]
fn s1_round_trip_geometry() {
    // 0.05 m cells over [-1.05, 3.05) x [-1.05, 1.05), in milli-units.
    let map = GridMap::<u8>::new(Position::new(-1050, -1050), Position::new(3050, 1050), 50);
    assert_eq!(map.width(), 82);
    assert_eq!(map.height(), 42);
    let indices = map.position_to_indices(&Position::new(0, 0)).unwrap();
    assert_eq!(indices, Indices::new(21, 21));
    let pos = map.indices_to_position(&indices).unwrap();
    assert_eq!(pos, Position::new(0, 0));
    assert!((pos.x - 0).abs() < 50 && (pos.y - 0).abs() < 50);
    // A generic in-range point round-trips to within one cell.
    let p = Position::new(1234, -987);
    let i = map.position_to_indices(&p).unwrap();
    let q = map.indices_to_position(&i).unwrap();
    assert!(p.x - 50 < q.x && q.x <= p.x);
    assert!(p.y - 50 < q.y && q.y <= p.y);
}

#[test]
fn index_bijection() {
    let map = GridMap::<u8>::new(Position::new(-1050, -1050), Position::new(3050, 1050), 50);
    for &(col, row) in &[(0usize, 0usize), (81, 41), (21, 21), (3, 40)] {
        let flat = map.to_index_by_indices(&Indices::new(col, row)).unwrap();
        assert_eq!(flat, row * 82 + col);
        let back = map.to_indices_from_index(flat).unwrap();
        assert_eq!(back, Indices::new(col, row));
    }
}

#[test]
fn bounds_policy() {
    let map = GridMap::<u8>::new(Position::new(0, 0), Position::new(1000, 1000), 100);
    // A point exactly on max_point is out of bounds.
    assert!(map.position_to_indices(&Position::new(1000, 500)).is_none());
    assert!(map.position_to_indices(&Position::new(999, 999)).is_some());
    assert!(map.position_to_indices(&Position::new(-1, 0)).is_none());
    assert!(map.cell_by_position(&Position::new(1000, 0)).is_none());
    assert!(map.to_index_by_position(&Position::new(500, 500)).is_some());
    assert!(map.to_indices_from_index(100).is_none());
    let mut m = map;
    let r = m.set_value_by_indices(&Indices::new(10, 0), 7);
    assert_eq!(r, Err(GridMapError::OutOfBounds));
    let r2 = m.set_value_by_position(&Position::new(-5, 0), 7);
    assert_eq!(r2, Err(GridMapError::OutOfBounds));
}

#[test]
fn cells_default_uninitialized_and_obstacles_persist() {
    let mut map = GridMap::<u8>::new(Position::new(0, 0), Position::new(500, 500), 100);
    assert!(matches!(
        map.cell_by_position(&Position::new(250, 250)).unwrap(),
        Cell::Uninitialized
    ));
    map.set_obstacle_by_indices(&Indices::new(2, 2)).unwrap();
    assert!(matches!(
        map.cell_by_position(&Position::new(250, 250)).unwrap(),
        Cell::Obstacle
    ));
    // Writing a value over an Obstacle cell leaves the marking in place.
    map.set_value_by_indices(&Indices::new(2, 2), 9).unwrap();
    assert!(matches!(
        map.cell_by_position(&Position::new(250, 250)).unwrap(),
        Cell::Obstacle
    ));
    map.set_value_by_indices(&Indices::new(1, 1), 9).unwrap();
    assert!(matches!(
        map.cell_by_position(&Position::new(150, 150)).unwrap(),
        Cell::Value(9)
    ));
}

#[test]
fn layered_map_lookup_and_replace() {
    let base = GridMap::<u8>::new(Position::new(0, 0), Position::new(500, 500), 100);
    let mut layered = LayeredGridMap::new(vec![("goal".to_string(), base.clone())]);
    assert!(layered.layer(&"goal".to_string()).is_some());
    assert!(layered.layer(&"path".to_string()).is_none());
    let mut other = base.clone();
    other.set_obstacle_by_indices(&Indices::new(0, 0)).unwrap();
    layered.add_layer("path".to_string(), other);
    assert!(layered.layer(&"path".to_string()).is_some());
    // Replacing a layer keeps the mapping semantics.
    layered.add_layer("goal".to_string(), base);
    assert!(layered.layer(&"goal".to_string()).is_some());
    assert!(matches!(
        layered
            .layer(&"path".to_string())
            .unwrap()
            .cell_by_position(&Position::new(50, 50))
            .unwrap(),
        Cell::Obstacle
    ));
}
