use grid_map::{
    goal_distance_map, obstacle_distance_map, path_distance_map, Cell, Cost, DwaPlanner,
    GridMap, Indices, LayeredGridMap, Limits, Plan, Pose, Position, Velocity,
};
use rand::distributions::{Distribution, Uniform};

#[test]
fn dwa_planner_test() {
    let mut map = GridMap::<u8>::new(Position::new(-1050, -1050), Position::new(3050, 1050), 50);
    for i in 0..50usize {
        map.set_obstacle_by_indices(&Indices::new(i + 10, 5)).unwrap();
        map.set_obstacle_by_indices(&Indices::new(i + 10, 6)).unwrap();
        for j in 20..30usize {
            map.set_obstacle_by_indices(&Indices::new(i, j)).unwrap();
        }
    }
    let x_range = Uniform::new(map.min_point().x as f64 / 1000.0, map.max_point().x as f64 / 1000.0);
    let y_range = Uniform::new(map.min_point().y as f64 / 1000.0, map.max_point().y as f64 / 1000.0);
    let start = [-0.8, -0.9];
    let goal = [2.5, 0.5];
    let result = rrt::dual_rrt_connect(
        &start,
        &goal,
        |p: &[f64]| {
            let pos = Position::new((p[0] * 1000.0).floor() as i64, (p[1] * 1000.0).floor() as i64);
            !matches!(map.cell_by_position(&pos).unwrap(), Cell::Obstacle)
        },
        || {
            let mut rng = rand::thread_rng();
            vec![x_range.sample(&mut rng), y_range.sample(&mut rng)]
        },
        0.05,
        1000,
    )
    .unwrap();

    let path_indices = result
        .iter()
        .map(|p| {
            let pos = Position::new((p[0] * 1000.0).floor() as i64, (p[1] * 1000.0).floor() as i64);
            map.to_index_by_position(&pos).unwrap()
        })
        .map(|index| map.to_indices_from_index(index).unwrap())
        .collect::<Vec<_>>();
    for p in &result {
        let pos = Position::new((p[0] * 1000.0).floor() as i64, (p[1] * 1000.0).floor() as i64);
        map.set_value_by_position(&pos, 0).unwrap();
    }
    let path_dist = path_distance_map(&map, &path_indices);
    println!("=======================");
    let goal_pos = Position::new(2500, 500);
    let goal_indices = map.position_to_indices(&goal_pos).unwrap();
    let goal_dist = goal_distance_map(&map, &goal_indices);
    println!("=======================");
    let obstacle_dist = obstacle_distance_map(&map);
    let layered = LayeredGridMap::new(vec![
        ("path".to_owned(), path_dist),
        ("goal".to_owned(), goal_dist),
        ("obstacle".to_owned(), obstacle_dist),
    ]);
    let mut weights: Vec<(String, i64)> = Vec::new();
    weights.push(("path".to_owned(), 900));
    weights.push(("goal".to_owned(), 800));
    weights.push(("obstacle".to_owned(), 10));

    let planner = DwaPlanner::new(
        Limits {
            max_velocity: Velocity { x: 500, theta: 2000 },
            max_accel: grid_map::Acceleration { x: 2000, theta: 5000 },
            min_velocity: Velocity { x: 0, theta: -2000 },
            min_accel: grid_map::Acceleration { x: -2000, theta: -5000 },
        },
        weights,
        100,
        1000,
        5,
    );

    let mut current_pose = Pose::new(-800, -900, 0);
    let goal_pose = Pose::new(2500, 500, 0);
    let mut current_velocity = Velocity { x: 0, theta: 0 };
    let mut plan_map = map.clone();
    for _ in 0..100 {
        let plan: Plan = planner.plan_local_path(&current_pose, &current_velocity, &layered);
        println!("vel = {:?} cost = {:?}", current_velocity, plan.cost);
        println!("pose = ({}, {}), {}", current_pose.x, current_pose.y, current_pose.theta);
        current_velocity = plan.velocity;
        current_pose = plan.path[0];
        let _ = plan_map.set_value_by_position(&Position::new(current_pose.x, current_pose.y), 9);
        let dx = (goal_pose.x - current_pose.x) as f64 / 1000.0;
        let dy = (goal_pose.y - current_pose.y) as f64 / 1000.0;
        if (dx * dx + dy * dy).sqrt() < 0.1 {
            println!("GOAL!");
            break;
        }
    }
}

#[test]
fn test_sample_velocities() {
    let planner = DwaPlanner::new(
        Limits {
            max_velocity: Velocity { x: 100, theta: 500 },
            max_accel: grid_map::Acceleration { x: 200, theta: 1000 },
            min_velocity: Velocity { x: 0, theta: -500 },
            min_accel: grid_map::Acceleration { x: -200, theta: -1000 },
        },
        Vec::new(),
        100,
        3000,
        5,
    );
    let velocities = planner.sample_velocity(&Velocity { x: 0, theta: 0 });
    for velocity in velocities {
        println!("{velocity:?}");
    }
    let poses = planner.forward_simulation(&Pose::identity(), &Velocity { x: 10, theta: 100 });
    for pose in poses {
        println!("pose = ({}, {}), {}", pose.x, pose.y, pose.theta);
    }
}

#[test]
fn s2_sample_count_and_admissibility() {
    let planner = DwaPlanner::new(
        Limits {
            max_velocity: Velocity { x: 100, theta: 500 },
            max_accel: grid_map::Acceleration { x: 200, theta: 1000 },
            min_velocity: Velocity { x: 0, theta: -500 },
            min_accel: grid_map::Acceleration { x: -200, theta: -1000 },
        },
        Vec::new(),
        100,
        3000,
        5,
    );
    let velocities = planner.sample_velocity(&Velocity { x: 0, theta: 0 });
    assert_eq!(velocities.len(), 42);
    for v in &velocities {
        // Every sample is admissible: inside the velocity box, except
        // that a stop-and-turn sample has exactly zero linear velocity.
        assert!((0 <= v.x && v.x <= 100) || v.x == 0);
        assert!(-500 <= v.theta && v.theta <= 500);
        // Inside the one-step acceleration window (clamps inactive here
        // on the linear axis low side because min velocity is zero).
        assert!(v.x <= 20);
        assert!(-100 <= v.theta && v.theta <= 100);
    }
}

#[test]
fn s3_forward_simulation_horizon() {
    let planner = DwaPlanner::new(
        Limits {
            max_velocity: Velocity { x: 100, theta: 500 },
            max_accel: grid_map::Acceleration { x: 200, theta: 1000 },
            min_velocity: Velocity { x: 0, theta: -500 },
            min_accel: grid_map::Acceleration { x: -200, theta: -1000 },
        },
        Vec::new(),
        100,
        3000,
        5,
    );
    let poses = planner.forward_simulation(&Pose::identity(), &Velocity { x: 10, theta: 100 });
    assert_eq!(poses.len(), 30);
    // Heading accumulates exactly: 0.1 rad/s for 3 s is 0.3 rad, and it
    // grows monotonically along the horizon.
    assert_eq!(poses[29].theta, 300);
    for m in 1..30 {
        assert!(poses[m].theta > poses[m - 1].theta);
    }
}

#[test]
fn s4_stall_plan() {
    // Every cell of the single weighted layer is Uninitialized, so every
    // candidate is disqualified: the planner returns the stall plan.
    let empty = GridMap::<u8>::new(Position::new(-1000, -1000), Position::new(1000, 1000), 50);
    let layered = LayeredGridMap::new(vec![("goal".to_owned(), empty)]);
    let planner = DwaPlanner::new(
        Limits {
            max_velocity: Velocity { x: 100, theta: 500 },
            max_accel: grid_map::Acceleration { x: 200, theta: 1000 },
            min_velocity: Velocity { x: 0, theta: -500 },
            min_accel: grid_map::Acceleration { x: -200, theta: -1000 },
        },
        vec![("goal".to_owned(), 1000)],
        100,
        1000,
        5,
    );
    let plan = planner.plan_local_path(&Pose::identity(), &Velocity { x: 0, theta: 0 }, &layered);
    assert_eq!(plan.velocity, Velocity { x: 0, theta: 0 });
    assert_eq!(plan.cost, Cost::Infinite);
    assert!(plan.path.is_empty());
}

#[test]
fn s5_goal_seek_moves_forward() {
    // Empty 2 m x 2 m map, goal half a meter ahead, goal layer only:
    // the selected linear velocity is strictly positive.
    let map = GridMap::<u8>::new(Position::new(-1000, -1000), Position::new(1000, 1000), 50);
    let goal_indices = map.position_to_indices(&Position::new(500, 0)).unwrap();
    let goal_layer = goal_distance_map(&map, &goal_indices);
    let layered = LayeredGridMap::new(vec![("goal".to_owned(), goal_layer)]);
    let planner = DwaPlanner::new(
        Limits {
            max_velocity: Velocity { x: 500, theta: 1000 },
            max_accel: grid_map::Acceleration { x: 1000, theta: 2000 },
            min_velocity: Velocity { x: 0, theta: -1000 },
            min_accel: grid_map::Acceleration { x: -1000, theta: -2000 },
        },
        vec![("goal".to_owned(), 1000)],
        100,
        3000,
        5,
    );
    let plan = planner.plan_local_path(&Pose::identity(), &Velocity { x: 0, theta: 0 }, &layered);
    assert!(matches!(plan.cost, Cost::Finite(_)));
    assert!(plan.velocity.x > 0);
}

#[test]
fn s6_obstacle_veto() {
    // A wall band directly ahead: the planner still finds a finite-cost
    // plan, and its path never enters an Obstacle cell.
    let mut map = GridMap::<u8>::new(Position::new(-1000, -1000), Position::new(1000, 1000), 50);
    for row in 10..30usize {
        map.set_obstacle_by_indices(&Indices::new(22, row)).unwrap();
        map.set_obstacle_by_indices(&Indices::new(23, row)).unwrap();
    }
    let goal_indices = map.position_to_indices(&Position::new(500, 0)).unwrap();
    let goal_layer = goal_distance_map(&map, &goal_indices);
    let layered = LayeredGridMap::new(vec![("goal".to_owned(), goal_layer.clone())]);
    let planner = DwaPlanner::new(
        Limits {
            max_velocity: Velocity { x: 500, theta: 1000 },
            max_accel: grid_map::Acceleration { x: 1000, theta: 2000 },
            min_velocity: Velocity { x: 0, theta: -1000 },
            min_accel: grid_map::Acceleration { x: -1000, theta: -2000 },
        },
        vec![("goal".to_owned(), 1000)],
        100,
        3000,
        5,
    );
    let plan = planner.plan_local_path(&Pose::identity(), &Velocity { x: 0, theta: 0 }, &layered);
    assert!(matches!(plan.cost, Cost::Finite(_)));
    for pose in &plan.path {
        let cell = goal_layer.cell_by_position(&Position::new(pose.x, pose.y)).unwrap();
        assert!(matches!(cell, Cell::Value(_)));
        let raw = map.cell_by_position(&Position::new(pose.x, pose.y)).unwrap();
        assert!(!matches!(raw, Cell::Obstacle));
    }
}

#[test]
fn doubling_weights_doubles_cost() {
    let map = GridMap::<u8>::new(Position::new(-1000, -1000), Position::new(1000, 1000), 50);
    let goal_indices = map.position_to_indices(&Position::new(500, 0)).unwrap();
    let goal_layer = goal_distance_map(&map, &goal_indices);
    let layered = LayeredGridMap::new(vec![("goal".to_owned(), goal_layer)]);
    let limits = Limits {
        max_velocity: Velocity { x: 500, theta: 1000 },
        max_accel: grid_map::Acceleration { x: 1000, theta: 2000 },
        min_velocity: Velocity { x: 0, theta: -1000 },
        min_accel: grid_map::Acceleration { x: -1000, theta: -2000 },
    };
    let single = DwaPlanner::new(limits.clone(), vec![("goal".to_owned(), 700)], 100, 3000, 5);
    let double = DwaPlanner::new(limits, vec![("goal".to_owned(), 1400)], 100, 3000, 5);
    let p1 = single.plan_local_path(&Pose::identity(), &Velocity { x: 0, theta: 0 }, &layered);
    let p2 = double.plan_local_path(&Pose::identity(), &Velocity { x: 0, theta: 0 }, &layered);
    assert_eq!(p1.velocity, p2.velocity);
    match (p1.cost, p2.cost) {
        (Cost::Finite(a), Cost::Finite(b)) => assert_eq!(b, 2 * a),
        _ => panic!("expected finite costs"),
    }
}

#[test]
fn plan_is_deterministic() {
    // Identical inputs give identical outputs, bit for bit.
    let map = GridMap::<u8>::new(Position::new(-1000, -1000), Position::new(1000, 1000), 50);
    let goal_indices = map.position_to_indices(&Position::new(500, 0)).unwrap();
    let goal_layer = goal_distance_map(&map, &goal_indices);
    let layered = LayeredGridMap::new(vec![("goal".to_owned(), goal_layer)]);
    let planner = DwaPlanner::new(
        Limits {
            max_velocity: Velocity { x: 500, theta: 1000 },
            max_accel: grid_map::Acceleration { x: 1000, theta: 2000 },
            min_velocity: Velocity { x: 0, theta: -1000 },
            min_accel: grid_map::Acceleration { x: -1000, theta: -2000 },
        },
        vec![("goal".to_owned(), 1000)],
        100,
        3000,
        5,
    );
    let a = planner.plan_local_path(&Pose::identity(), &Velocity { x: 0, theta: 0 }, &layered);
    let b = planner.plan_local_path(&Pose::identity(), &Velocity { x: 0, theta: 0 }, &layered);
    assert_eq!(a.velocity, b.velocity);
    assert_eq!(a.cost, b.cost);
    assert_eq!(a.path.len(), b.path.len());
    for (x, y) in a.path.iter().zip(b.path.iter()) {
        assert_eq!(x, y);
    }
}
