use rrt::collision::EuclideanSphericalObstacleSet;
use rrt::point::Point;
use rrt::rrt::Node;
use rrt::sampling::GoalBiasedUniformDistribution;
use rrt::steering::EuclideanSteering;
use rrt::{LinearNearestNeighbors, ValidityChecker, RRT};

type Planner = RRT<
    EuclideanSphericalObstacleSet,
    GoalBiasedUniformDistribution,
    EuclideanSteering,
    LinearNearestNeighbors,
>;

fn obstacle_free_planner(seed: u64) -> Planner {
    let start = Point::new(vec![0, 0]);
    let goal = Point::new(vec![10, 10]);
    let obstacles = EuclideanSphericalObstacleSet::new(vec![], 2);
    let sampling = GoalBiasedUniformDistribution::with_seed(
        vec![(-2, 12), (-2, 12)],
        Point::new(vec![10, 10]),
        1,
        10,
        seed,
    )
    .unwrap();
    let steering = EuclideanSteering::new(3);
    RRT::new(start, goal, 1, obstacles, sampling, steering)
}

#[test]
fn node_accessors() {
    let n = Node::new(Point::new(vec![4, 2]), Some(3));
    assert_eq!(n.point().coords(), &vec![4, 2]);
    assert_eq!(n.parent(), Some(3));
    let root = Node::new(Point::new(vec![0, 0]), None);
    assert_eq!(root.parent(), None);
}

#[test]
fn new_planner_has_single_root_and_no_solution() {
    let planner = obstacle_free_planner(5);
    assert!(!planner.solved());
    assert!(planner.get_path().is_none());
    let tree = planner.get_tree();
    assert_eq!(tree.len(), 1);
    assert_eq!(tree[0].point().coords(), &vec![0, 0]);
    assert_eq!(tree[0].parent(), None);
}

#[test]
fn solve_with_zero_iterations_returns_false() {
    let mut planner = obstacle_free_planner(5);
    assert!(!planner.solve(0));
    assert_eq!(planner.get_tree().len(), 1);
}

#[test]
fn solve_reaches_goal_in_obstacle_free_space() {
    let mut planner = obstacle_free_planner(42);
    assert!(planner.solve(1000));
    assert!(planner.solved());
    let path = planner.get_path().unwrap();
    assert!(path.len() >= 1);
    assert_eq!(path[0].coords(), &vec![0, 0]);
    let last = path[path.len() - 1].coords();
    let dx = last[0] - 10;
    let dy = last[1] - 10;
    assert!(dx * dx + dy * dy <= 1);
}

#[test]
fn tree_is_acyclic_after_solving() {
    let mut planner = obstacle_free_planner(7);
    planner.solve(500);
    let tree = planner.get_tree();
    assert_eq!(tree[0].parent(), None);
    for (i, node) in tree.iter().enumerate().skip(1) {
        let p = node.parent().expect("non-root node must have a parent");
        assert!(p < i);
    }
}

#[test]
fn path_steps_are_bounded_and_edges_valid() {
    let mut planner = obstacle_free_planner(11);
    assert!(planner.solve(1000));
    let path = planner.get_path().unwrap();
    for w in path.windows(2) {
        let d = w[0].sub(&w[1]);
        assert!(d.norm_squared() <= 9);
        assert!(planner.get_validity_checker().is_edge_valid(&w[0], &w[1]));
    }
}

#[test]
fn run_iterations_stops_early_once_solved() {
    let mut planner = obstacle_free_planner(42);
    let mut solved = false;
    for _ in 0..1000 {
        if planner.run_iterations(10) {
            solved = true;
            break;
        }
    }
    assert!(solved);
    assert!(planner.solved());
}

#[test]
fn solution_survives_further_iterations() {
    let mut planner = obstacle_free_planner(42);
    assert!(planner.solve(1000));
    let path_before: Vec<Vec<i64>> =
        planner.get_path().unwrap().iter().map(|p| p.coords().clone()).collect();
    planner.run_iterations(50);
    let path_after: Vec<Vec<i64>> =
        planner.get_path().unwrap().iter().map(|p| p.coords().clone()).collect();
    assert_eq!(path_before, path_after);
}

#[test]
fn planner_avoids_obstacles() {
    let start = Point::new(vec![-4, 0]);
    let goal = Point::new(vec![4, 0]);
    let obstacles = EuclideanSphericalObstacleSet::new(
        vec![rrt::collision::Sphere { center: Point::new(vec![0, 0]), radius: 2 }],
        2,
    );
    let sampling = GoalBiasedUniformDistribution::with_seed(
        vec![(-6, 6), (-6, 6)],
        Point::new(vec![4, 0]),
        1,
        10,
        99,
    )
    .unwrap();
    let steering = EuclideanSteering::new(2);
    let mut planner: RRT<_, _, _, LinearNearestNeighbors> =
        RRT::new(start, goal, 1, obstacles, sampling, steering);
    assert!(planner.solve(5000));
    let path = planner.get_path().unwrap();
    for p in &path {
        let c = p.coords();
        assert!(c[0] * c[0] + c[1] * c[1] > 4);
    }
}

#[test]
fn accessors_expose_collaborators() {
    let planner = obstacle_free_planner(1);
    assert_eq!(planner.get_validity_checker().spheres().len(), 0);
    let _ = planner.get_sampling_distribution();
    let _ = planner.get_nearest_neighbors();
}

#[test]
fn solve_works_with_spatial_index() {
    let start = Point::new(vec![0, 0]);
    let goal = Point::new(vec![10, 10]);
    let obstacles = EuclideanSphericalObstacleSet::new(vec![], 2);
    let sampling = GoalBiasedUniformDistribution::with_seed(
        vec![(-2, 12), (-2, 12)],
        Point::new(vec![10, 10]),
        1,
        10,
        42,
    )
    .unwrap();
    let steering = EuclideanSteering::new(3);
    let mut planner: RRT<_, _, _, rrt::KdTreeNearestNeighbors> =
        RRT::new(start, goal, 1, obstacles, sampling, steering);
    assert!(planner.solve(1000));
    let path = planner.get_path().unwrap();
    assert_eq!(path[0].coords(), &vec![0, 0]);
    let last = path[path.len() - 1].coords();
    let dx = last[0] - 10;
    let dy = last[1] - 10;
    assert!(dx * dx + dy * dy <= 1);
}

#[test]
fn grow_appends_the_steered_nearest_child() {
    let mut planner = obstacle_free_planner(5);
    // Nearest to the sample is the root (0,0); steering range 3 toward
    // (10,0) lands exactly at (3,0).
    planner.grow(Point::new(vec![10, 0]));
    let tree = planner.get_tree();
    assert_eq!(tree.len(), 2);
    assert_eq!(tree[1].point().coords(), &vec![3, 0]);
    assert_eq!(tree[1].parent(), Some(0));
    assert!(!planner.solved());
    // A second step from the new nearest node continues the line.
    planner.grow(Point::new(vec![10, 0]));
    let tree = planner.get_tree();
    assert_eq!(tree.len(), 3);
    assert_eq!(tree[2].point().coords(), &vec![6, 0]);
    assert_eq!(tree[2].parent(), Some(1));
}

#[test]
fn grow_discards_an_invalid_candidate() {
    let start = Point::new(vec![-4, 0]);
    let goal = Point::new(vec![4, 0]);
    let obstacles = EuclideanSphericalObstacleSet::new(
        vec![rrt::collision::Sphere { center: Point::new(vec![0, 0]), radius: 2 }],
        2,
    );
    let sampling = GoalBiasedUniformDistribution::with_seed(
        vec![(-6, 6), (-6, 6)],
        Point::new(vec![4, 0]),
        1,
        10,
        1,
    )
    .unwrap();
    let steering = EuclideanSteering::new(4);
    let mut planner: RRT<_, _, _, LinearNearestNeighbors> =
        RRT::new(start, goal, 1, obstacles, sampling, steering);
    // Steering from (-4,0) toward (4,0) with range 4 lands at (0,0),
    // inside the obstacle: the step must change nothing.
    planner.grow(Point::new(vec![4, 0]));
    assert_eq!(planner.get_tree().len(), 1);
    assert!(!planner.solved());
}
