use rrt::distance::{ceil_sqrt, euclidean_distance, euclidean_distance_squared, floor_sqrt};
use rrt::errors::ConfigurationError;
use rrt::point::Point;

#[test]
fn point_new_and_coords() {
    let p = Point::new(vec![3, -7, 11]);
    assert_eq!(p.coords(), &vec![3, -7, 11]);
    assert_eq!(p.dim(), 3);
}

#[test]
fn point_from_vec_matching_length() {
    let p = Point::from_vec(vec![1, 2], 2).unwrap();
    assert_eq!(p.coords(), &vec![1, 2]);
}

#[test]
fn point_from_vec_dimension_mismatch() {
    let r = Point::from_vec(vec![1, 2, 3], 2);
    assert_eq!(r.unwrap_err(), ConfigurationError::DimensionMismatch);
}

#[test]
fn point_clone_preserves_coords() {
    let p = Point::new(vec![5, 6]);
    let q = p.clone();
    assert_eq!(q.coords(), &vec![5, 6]);
}

#[test]
fn point_addition() {
    let a = Point::new(vec![1, 2]);
    let b = Point::new(vec![10, -20]);
    assert_eq!(a.add(&b).coords(), &vec![11, -18]);
}

#[test]
fn point_subtraction() {
    let a = Point::new(vec![1, 2]);
    let b = Point::new(vec![10, -20]);
    assert_eq!(a.sub(&b).coords(), &vec![-9, 22]);
}

#[test]
fn point_scalar_multiplication() {
    let a = Point::new(vec![3, -4]);
    assert_eq!(a.mul(5).coords(), &vec![15, -20]);
}

#[test]
fn point_scalar_division_rounds_toward_zero() {
    let a = Point::new(vec![7, -7]);
    assert_eq!(a.div(2).coords(), &vec![3, -3]);
    assert_eq!(a.div(-2).coords(), &vec![-3, 3]);
}

#[test]
fn point_dot_product() {
    let a = Point::new(vec![1, 2, 3]);
    let b = Point::new(vec![4, 5, 6]);
    assert_eq!(a.dot(&b), 32);
}

#[test]
fn point_norms() {
    let p = Point::new(vec![3, 4]);
    assert_eq!(p.norm_squared(), 25);
    assert_eq!(p.norm(), 5);
    let q = Point::new(vec![1, 1]);
    assert_eq!(q.norm_squared(), 2);
    assert_eq!(q.norm(), 1);
}

#[test]
fn distance_between_points() {
    let a = Point::new(vec![1, 2]);
    let b = Point::new(vec![4, 6]);
    assert_eq!(euclidean_distance_squared(&a, &b), 25);
    assert_eq!(euclidean_distance(&a, &b), 5);
    assert_eq!(euclidean_distance_squared(&a, &a), 0);
}

#[test]
fn integer_square_roots() {
    assert_eq!(floor_sqrt(0), 0);
    assert_eq!(floor_sqrt(10), 3);
    assert_eq!(floor_sqrt(9), 3);
    assert_eq!(ceil_sqrt(0), 0);
    assert_eq!(ceil_sqrt(9), 3);
    assert_eq!(ceil_sqrt(10), 4);
    assert_eq!(floor_sqrt(0x4000000000), 0x80000);
    assert_eq!(ceil_sqrt(0x4000000000), 0x80000);
}
