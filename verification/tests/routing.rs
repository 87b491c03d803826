use outbreak_sim::routing::calculate_direct_commute_time;
use outbreak_sim::routing::calculate_public_transit_commute_time;
use outbreak_sim::routing::distance;
use outbreak_sim::routing::get_coords_on_perimeter;
use outbreak_sim::routing::granular_grid::GranularGrid;
use outbreak_sim::routing::nodes_to_granular_grid;
use outbreak_sim::routing::sample_nearby_from_grid;
use outbreak_sim::routing::transit::preprocess_graph;
use outbreak_sim::routing::transit::TransitEdge;
use outbreak_sim::routing::DirectRoutingType;
use outbreak_sim::containers::Containers;
use outbreak_sim::disease::Uniform;
use rand::SeedableRng;
use outbreak_sim::shared::Bounds;
use outbreak_sim::shared::Pos;
use outbreak_sim::shared::SimParams;

#[test]
fn test_get_coords_on_perimeter() {
    let coords = get_coords_on_perimeter(2, 0, 0, 7, 7);
    let expected = vec![(2, 0)];
    assert_eq!(coords, expected);

    let coords = get_coords_on_perimeter(2, 0, 1, 7, 7);
    let expected = vec![(1, 0), (1, 1), (2, 1), (3, 0), (3, 1)];
    assert_eq!(coords, expected);

    let coords = get_coords_on_perimeter(4, 5, 3, 7, 7);
    let expected = vec![
        (1, 2),
        (1, 3),
        (1, 4),
        (1, 5),
        (1, 6),
        (2, 2),
        (3, 2),
        (4, 2),
        (5, 2),
        (6, 2),
    ];
    assert_eq!(coords, expected);
}

#[test]
fn test_new_granular_grid() {
    let rows = 10;
    let expected_cols = 8;
    let expected_len = (rows * expected_cols) as usize;

    let bounds = Bounds { max_x: 80, max_y: 100 };
    let grid = GranularGrid::<u32>::new(10, &bounds);

    assert_eq!(grid.rows, rows);
    assert_eq!(grid.cols, expected_cols);
    assert_eq!(grid.cells.len(), expected_len);
}

#[test]
fn test_granular_index() {
    let bounds = Bounds { max_x: 130, max_y: 100 };
    let mut grid = GranularGrid::<i32>::new(2, &bounds);

    println!("{}", grid.cols);

    let (r1, c1) = (grid.row_of(0), grid.col_of(55));
    grid.push_at(r1, c1, 1);
    let (r2, c2) = (grid.row_of(53), grid.col_of(0));
    grid.push_at(r2, c2, 2);
    let (r3, c3) = (grid.row_of(90), grid.col_of(124));
    grid.push_at(r3, c3, 3);
    let expected = vec![vec![], vec![1], vec![], vec![2], vec![], vec![3]];

    assert_eq!(grid.cells, expected);
    assert_eq!(grid.get_int_index(1, 0)[0], 2);
}

#[test]
fn test_distance_exact() {
    assert_eq!(distance(Pos { x: 0, y: 0 }, Pos { x: 3, y: 4 }), 5);
    assert_eq!(distance(Pos { x: 10, y: 10 }, Pos { x: 10, y: 10 }), 0);
    // The straight-line distance is rounded down to whole units.
    assert_eq!(distance(Pos { x: 0, y: 0 }, Pos { x: 1, y: 1 }), 1);
    assert_eq!(distance(Pos { x: 2, y: 0 }, Pos { x: 0, y: 0 }), 2);
}

#[test]
fn test_sample_nearby_single_node_found() {
    // A grid holding exactly one node: any query within the cut-off finds it.
    let bounds = Bounds { max_x: 1000, max_y: 1000 };
    let nodes = vec![Pos { x: 500, y: 500 }];
    let grid = nodes_to_granular_grid(&nodes, &bounds, 10);
    let mut rng = rand::rngs::StdRng::seed_from_u64(7);

    // From the node's own cell.
    let found = sample_nearby_from_grid(&grid, (510, 510), 50, 5, &mut rng);
    assert_eq!(found, Some(vec![0]));

    // From a different cell, still within the cut-off distance.
    let found = sample_nearby_from_grid(&grid, (210, 790), 900, 5, &mut rng);
    assert_eq!(found, Some(vec![0]));
}

#[test]
fn test_sample_nearby_beyond_cutoff_not_found() {
    let bounds = Bounds { max_x: 1000, max_y: 1000 };
    let nodes = vec![Pos { x: 900, y: 900 }];
    let grid = nodes_to_granular_grid(&nodes, &bounds, 10);
    let mut rng = rand::rngs::StdRng::seed_from_u64(7);

    // The node is roughly 1130 units away; a 100-unit cut-off cannot reach it.
    let found = sample_nearby_from_grid(&grid, (100, 100), 100, 5, &mut rng);
    assert_eq!(found, None);
}

#[test]
fn test_direct_commute_time() {
    let params = SimParams {
        time_steps_per_day: 48,
        sim_length_days: Some(60),
        seed_infection_chance: 0,
        walking_speed: 100,
        cycling_speed: 400,
        driving_speed: 1000,
    };
    let households = vec![Pos { x: 0, y: 0 }, Pos { x: 3000, y: 4000 }];
    let workplaces: Vec<Pos> = vec![];
    let containers = Containers::new(&households, &workplaces, Uniform { transmission_chance: 0 });

    // Distance 5000 units: 50 walking ticks, 12 cycling ticks, 5 driving ticks.
    assert_eq!(
        calculate_direct_commute_time(&containers, DirectRoutingType::Walking, 0, 1, &params),
        50
    );
    assert_eq!(
        calculate_direct_commute_time(&containers, DirectRoutingType::Cycling, 0, 1, &params),
        12
    );
    assert_eq!(
        calculate_direct_commute_time(&containers, DirectRoutingType::Driving, 0, 1, &params),
        5
    );
}

#[test]
fn test_transit_commute_uses_path_weight() {
    // Two containers, each next to one transit node; one directed edge pair
    // of weight 17 connects the nodes, so the transit estimate is 17 ticks.
    let bounds = Bounds { max_x: 10000, max_y: 10000 };
    let households = vec![Pos { x: 100, y: 100 }, Pos { x: 9000, y: 9000 }];
    let workplaces: Vec<Pos> = vec![];
    let containers = Containers::new(&households, &workplaces, Uniform { transmission_chance: 0 });
    let nodes = vec![Pos { x: 120, y: 120 }, Pos { x: 8950, y: 8950 }];
    let grid = nodes_to_granular_grid(&nodes, &bounds, 10);
    let edges = vec![
        TransitEdge { start_node: 0, end_node: 1, weight: 17 },
        TransitEdge { start_node: 1, end_node: 0, weight: 17 },
    ];
    let fast_graph = preprocess_graph(&edges);
    assert_eq!(fast_graph.get_num_nodes(), 2);
    let mut calculator = fast_paths::create_calculator(&fast_graph);
    let mut rng = rand::rngs::StdRng::seed_from_u64(3);

    let time = calculate_public_transit_commute_time(
        &containers,
        &grid,
        &mut calculator,
        &fast_graph,
        0,
        1,
        &mut rng,
    );
    assert_eq!(time, Ok(17));
}

#[test]
fn test_transit_commute_same_node_weight_zero() {
    // Both endpoints sample the same transit node: the index reports a
    // zero-weight path, which is returned as is (the scheduler coerces a
    // zero commute to one tick).
    let bounds = Bounds { max_x: 10000, max_y: 10000 };
    let households = vec![Pos { x: 100, y: 100 }, Pos { x: 150, y: 150 }];
    let workplaces: Vec<Pos> = vec![];
    let containers = Containers::new(&households, &workplaces, Uniform { transmission_chance: 0 });
    let nodes = vec![Pos { x: 120, y: 120 }];
    let grid = nodes_to_granular_grid(&nodes, &bounds, 10);
    let edges = vec![
        TransitEdge { start_node: 0, end_node: 1, weight: 4 },
        TransitEdge { start_node: 1, end_node: 0, weight: 4 },
    ];
    let fast_graph = preprocess_graph(&edges);
    let mut calculator = fast_paths::create_calculator(&fast_graph);
    let mut rng = rand::rngs::StdRng::seed_from_u64(3);

    let time = calculate_public_transit_commute_time(
        &containers,
        &grid,
        &mut calculator,
        &fast_graph,
        0,
        1,
        &mut rng,
    );
    assert_eq!(time, Ok(0));
}

#[test]
fn test_transit_commute_no_route() {
    // Nodes exist near both endpoints, but no edge connects them.
    let bounds = Bounds { max_x: 10000, max_y: 10000 };
    let households = vec![Pos { x: 100, y: 100 }, Pos { x: 9000, y: 9000 }];
    let workplaces: Vec<Pos> = vec![];
    let containers = Containers::new(&households, &workplaces, Uniform { transmission_chance: 0 });
    let nodes = vec![Pos { x: 120, y: 120 }, Pos { x: 8950, y: 8950 }, Pos { x: 5000, y: 5000 }];
    let grid = nodes_to_granular_grid(&nodes, &bounds, 10);
    let edges = vec![
        TransitEdge { start_node: 0, end_node: 2, weight: 9 },
        TransitEdge { start_node: 1, end_node: 2, weight: 9 },
    ];
    let fast_graph = preprocess_graph(&edges);
    let mut calculator = fast_paths::create_calculator(&fast_graph);
    let mut rng = rand::rngs::StdRng::seed_from_u64(3);

    let time = calculate_public_transit_commute_time(
        &containers,
        &grid,
        &mut calculator,
        &fast_graph,
        0,
        1,
        &mut rng,
    );
    assert!(time.is_err());
}
