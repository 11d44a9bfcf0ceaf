use rrt::collision::{EuclideanSphericalObstacleSet, Sphere};
use rrt::point::Point;
use rrt::smoothing::fast_shortcutting;
use rrt::ValidityChecker;

fn unit_sphere_at_origin() -> EuclideanSphericalObstacleSet {
    let sphere = Sphere { center: Point::new(vec![0, 0]), radius: 1 };
    EuclideanSphericalObstacleSet::new(vec![sphere], 2)
}

#[test]
fn point_inside_sphere_is_invalid() {
    let obstacles = unit_sphere_at_origin();
    assert!(!obstacles.is_point_valid(&Point::new(vec![0, 0])));
}

#[test]
fn point_outside_sphere_is_valid() {
    let obstacles = unit_sphere_at_origin();
    assert!(obstacles.is_point_valid(&Point::new(vec![2, 2])));
}

#[test]
fn point_on_boundary_counts_as_collision() {
    let obstacles = unit_sphere_at_origin();
    assert!(!obstacles.is_point_valid(&Point::new(vec![1, 0])));
}

#[test]
fn edge_through_sphere_is_invalid() {
    let obstacles = unit_sphere_at_origin();
    let a = Point::new(vec![-2, 0]);
    let b = Point::new(vec![2, 0]);
    assert!(!obstacles.is_edge_valid(&a, &b));
}

#[test]
fn edge_missing_sphere_is_valid() {
    let obstacles = unit_sphere_at_origin();
    let a = Point::new(vec![-2, 2]);
    let b = Point::new(vec![2, 2]);
    assert!(obstacles.is_edge_valid(&a, &b));
}

#[test]
fn edge_with_projection_outside_segment_checks_endpoints() {
    let obstacles = unit_sphere_at_origin();
    // Both endpoints far to one side: the infinite line would pass the
    // sphere, the segment does not.
    let a = Point::new(vec![2, 0]);
    let b = Point::new(vec![5, 0]);
    assert!(obstacles.is_edge_valid(&a, &b));
    // An endpoint inside the sphere makes the edge invalid.
    let c = Point::new(vec![0, 0]);
    let d = Point::new(vec![5, 0]);
    assert!(!obstacles.is_edge_valid(&c, &d));
}

#[test]
fn degenerate_edge_falls_back_to_point_validity() {
    let obstacles = unit_sphere_at_origin();
    let inside = Point::new(vec![0, 0]);
    assert!(!obstacles.is_edge_valid(&inside, &inside));
    let outside = Point::new(vec![3, 3]);
    assert!(obstacles.is_edge_valid(&outside, &outside));
}

#[test]
fn obstacle_set_accessor_returns_spheres() {
    let obstacles = unit_sphere_at_origin();
    assert_eq!(obstacles.spheres().len(), 1);
    assert_eq!(obstacles.spheres()[0].radius, 1);
    assert_eq!(obstacles.spheres()[0].center.coords(), &vec![0, 0]);
}

#[test]
fn shortcutting_removes_unneeded_waypoints() {
    let obstacles = unit_sphere_at_origin();
    let path = vec![
        Point::new(vec![-2, 0]),
        Point::new(vec![-2, 2]),
        Point::new(vec![0, 3]),
        Point::new(vec![2, 2]),
        Point::new(vec![2, 0]),
    ];
    let smoothed = fast_shortcutting(path, &obstacles);
    let coords: Vec<&Vec<i64>> = smoothed.iter().map(|p| p.coords()).collect();
    assert_eq!(coords, vec![&vec![-2, 0], &vec![0, 3], &vec![2, 0]]);
}

#[test]
fn shortcutting_keeps_first_and_last_and_validity() {
    let obstacles = unit_sphere_at_origin();
    let path = vec![
        Point::new(vec![-2, 0]),
        Point::new(vec![-2, 2]),
        Point::new(vec![2, 2]),
        Point::new(vec![2, 0]),
    ];
    let smoothed = fast_shortcutting(path, &obstacles);
    assert!(smoothed.len() <= 4);
    assert_eq!(smoothed[0].coords(), &vec![-2, 0]);
    assert_eq!(smoothed[smoothed.len() - 1].coords(), &vec![2, 0]);
    for w in smoothed.windows(2) {
        assert!(obstacles.is_edge_valid(&w[0], &w[1]));
    }
}

#[test]
fn shortcutting_single_point_path_duplicates_endpoint() {
    let obstacles = unit_sphere_at_origin();
    let path = vec![Point::new(vec![5, 5])];
    let smoothed = fast_shortcutting(path, &obstacles);
    let coords: Vec<&Vec<i64>> = smoothed.iter().map(|p| p.coords()).collect();
    assert_eq!(coords, vec![&vec![5, 5], &vec![5, 5]]);
}

#[test]
fn shortcutting_obstacle_free_collapses_to_endpoints() {
    let empty = EuclideanSphericalObstacleSet::new(vec![], 2);
    let path = vec![
        Point::new(vec![0, 0]),
        Point::new(vec![1, 1]),
        Point::new(vec![2, 0]),
        Point::new(vec![4, 4]),
    ];
    let smoothed = fast_shortcutting(path, &empty);
    let coords: Vec<&Vec<i64>> = smoothed.iter().map(|p| p.coords()).collect();
    assert_eq!(coords, vec![&vec![0, 0], &vec![4, 4]]);
}
