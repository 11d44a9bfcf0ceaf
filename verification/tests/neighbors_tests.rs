use rrt::point::Point;
use rrt::{LinearNearestNeighbors, NearestNeighbors};

#[test]
fn empty_index_returns_none_and_empty() {
    let nn = LinearNearestNeighbors::new();
    let q = Point::new(vec![0, 0]);
    assert_eq!(nn.nearest_one(&q), None);
    assert_eq!(nn.nearest_k(&q, 3), Vec::<usize>::new());
    assert_eq!(nn.within_radius(&q, 10), Vec::<usize>::new());
}

#[test]
fn nearest_one_finds_closest() {
    let mut nn = LinearNearestNeighbors::new();
    nn.add(Point::new(vec![10, 10]), 0);
    nn.add(Point::new(vec![1, 1]), 1);
    nn.add(Point::new(vec![-5, 4]), 2);
    assert_eq!(nn.nearest_one(&Point::new(vec![0, 0])), Some(1));
    assert_eq!(nn.nearest_one(&Point::new(vec![9, 9])), Some(0));
}

#[test]
fn nearest_one_breaks_ties_by_insertion_order() {
    let mut nn = LinearNearestNeighbors::new();
    nn.add(Point::new(vec![1, 0]), 7);
    nn.add(Point::new(vec![-1, 0]), 9);
    assert_eq!(nn.nearest_one(&Point::new(vec![0, 0])), Some(7));
}

#[test]
fn nearest_k_orders_by_distance() {
    let mut nn = LinearNearestNeighbors::new();
    nn.add(Point::new(vec![10, 0]), 0);
    nn.add(Point::new(vec![1, 0]), 1);
    nn.add(Point::new(vec![5, 0]), 2);
    assert_eq!(nn.nearest_k(&Point::new(vec![0, 0]), 2), vec![1, 2]);
    assert_eq!(nn.nearest_k(&Point::new(vec![0, 0]), 3), vec![1, 2, 0]);
}

#[test]
fn nearest_k_with_large_k_returns_all() {
    let mut nn = LinearNearestNeighbors::new();
    nn.add(Point::new(vec![3, 0]), 0);
    nn.add(Point::new(vec![2, 0]), 1);
    assert_eq!(nn.nearest_k(&Point::new(vec![0, 0]), 10), vec![1, 0]);
}

#[test]
fn nearest_k_breaks_ties_stably() {
    let mut nn = LinearNearestNeighbors::new();
    nn.add(Point::new(vec![0, 2]), 4);
    nn.add(Point::new(vec![2, 0]), 5);
    nn.add(Point::new(vec![0, 1]), 6);
    assert_eq!(nn.nearest_k(&Point::new(vec![0, 0]), 3), vec![6, 4, 5]);
}

#[test]
fn within_radius_is_boundary_inclusive_and_in_insertion_order() {
    let mut nn = LinearNearestNeighbors::new();
    nn.add(Point::new(vec![3, 0]), 0);
    nn.add(Point::new(vec![0, 5]), 1);
    nn.add(Point::new(vec![1, 1]), 2);
    nn.add(Point::new(vec![10, 10]), 3);
    assert_eq!(nn.within_radius(&Point::new(vec![0, 0]), 5), vec![0, 1, 2]);
    assert_eq!(nn.within_radius(&Point::new(vec![0, 0]), 2), vec![2]);
}

use rrt::KdTreeNearestNeighbors;

#[test]
fn kd_empty_index_returns_none_and_empty() {
    let nn = KdTreeNearestNeighbors::new();
    let q = Point::new(vec![0, 0]);
    assert_eq!(nn.nearest_one(&q), None);
    assert_eq!(nn.nearest_k(&q, 3), Vec::<usize>::new());
    assert_eq!(nn.within_radius(&q, 10), Vec::<usize>::new());
}

#[test]
fn kd_nearest_one_matches_linear_scan() {
    let points = vec![
        vec![10, 10],
        vec![1, 1],
        vec![-5, 4],
        vec![3, -9],
        vec![0, 0],
        vec![7, 7],
    ];
    let mut kd = KdTreeNearestNeighbors::new();
    let mut lin = LinearNearestNeighbors::new();
    for (i, c) in points.iter().enumerate() {
        kd.add(Point::new(c.clone()), i);
        lin.add(Point::new(c.clone()), i);
    }
    for q in [vec![0, 0], vec![9, 9], vec![-4, 5], vec![2, -8], vec![100, 100]] {
        let query = Point::new(q);
        assert_eq!(kd.nearest_one(&query), lin.nearest_one(&query));
    }
}

#[test]
fn kd_handles_many_points() {
    let mut kd = KdTreeNearestNeighbors::new();
    let mut i: usize = 0;
    for x in 0i64..10 {
        for y in 0i64..10 {
            kd.add(Point::new(vec![x * 100, y * 100]), i);
            i += 1;
        }
    }
    // Item of the grid point (300, 700) has index 3 * 10 + 7.
    assert_eq!(kd.nearest_one(&Point::new(vec![290, 710])), Some(37));
}

#[test]
fn kd_falls_back_beyond_grid_range() {
    let mut kd = KdTreeNearestNeighbors::new();
    kd.add(Point::new(vec![20000, 0]), 0);
    kd.add(Point::new(vec![1, 1]), 1);
    assert_eq!(kd.nearest_one(&Point::new(vec![19000, 0])), Some(0));
    assert_eq!(kd.nearest_one(&Point::new(vec![0, 0])), Some(1));
}

#[test]
fn kd_nearest_k_and_within_radius_are_exact() {
    let mut kd = KdTreeNearestNeighbors::new();
    kd.add(Point::new(vec![10, 0]), 0);
    kd.add(Point::new(vec![1, 0]), 1);
    kd.add(Point::new(vec![5, 0]), 2);
    assert_eq!(kd.nearest_k(&Point::new(vec![0, 0]), 2), vec![1, 2]);
    assert_eq!(kd.within_radius(&Point::new(vec![0, 0]), 5), vec![1, 2]);
}

#[test]
fn nearest_one_agrees_with_nearest_k_of_one() {
    let mut lin = LinearNearestNeighbors::new();
    lin.add(Point::new(vec![1, 0]), 7);
    lin.add(Point::new(vec![-1, 0]), 9);
    lin.add(Point::new(vec![4, 4]), 3);
    let q = Point::new(vec![0, 0]);
    assert_eq!(lin.nearest_one(&q), Some(lin.nearest_k(&q, 1)[0]));

    let mut kd = KdTreeNearestNeighbors::new();
    kd.add(Point::new(vec![2, 0]), 7);
    kd.add(Point::new(vec![-1, 0]), 9);
    kd.add(Point::new(vec![4, 4]), 3);
    assert_eq!(kd.nearest_one(&q), Some(kd.nearest_k(&q, 1)[0]));
}

#[test]
fn within_radius_accepts_large_radii() {
    let mut nn = LinearNearestNeighbors::new();
    nn.add(Point::new(vec![-32768, -32768]), 0);
    nn.add(Point::new(vec![32768, 32768]), 1);
    // A radius beyond the space's diameter returns every stored item.
    assert_eq!(nn.within_radius(&Point::new(vec![0, 0]), 0x7fffffff), vec![0, 1]);
    let mut kd = KdTreeNearestNeighbors::new();
    kd.add(Point::new(vec![-16383, 0]), 0);
    kd.add(Point::new(vec![16383, 0]), 1);
    assert_eq!(kd.within_radius(&Point::new(vec![0, 0]), 0x7fffffff), vec![0, 1]);
}
