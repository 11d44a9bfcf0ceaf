use rrt::errors::ConfigurationError;
use rrt::point::Point;
use rrt::sampling::{GoalBiasedUniformDistribution, SamplingDistribution, UniformDistribution};
use rrt::steering::{EuclideanSteering, Steering};

#[test]
fn steer_truncates_to_range() {
    let steering = EuclideanSteering::new(5);
    let r = steering.steer(&Point::new(vec![0, 0]), &Point::new(vec![10, 0]));
    assert_eq!(r.coords(), &vec![5, 0]);
}

#[test]
fn steer_returns_target_within_range() {
    let steering = EuclideanSteering::new(5);
    let r = steering.steer(&Point::new(vec![0, 0]), &Point::new(vec![3, 4]));
    assert_eq!(r.coords(), &vec![3, 4]);
}

#[test]
fn steer_scales_along_direction() {
    let steering = EuclideanSteering::new(5);
    let r = steering.steer(&Point::new(vec![0, 0]), &Point::new(vec![6, 8]));
    assert_eq!(r.coords(), &vec![3, 4]);
}

#[test]
fn steer_degenerate_returns_target() {
    let steering = EuclideanSteering::new(3);
    let r = steering.steer(&Point::new(vec![2, 2]), &Point::new(vec![2, 2]));
    assert_eq!(r.coords(), &vec![2, 2]);
}

#[test]
fn steer_never_exceeds_range() {
    let steering = EuclideanSteering::new(7);
    let from = Point::new(vec![1, -2, 3]);
    let targets = vec![
        vec![100, 0, 0],
        vec![-50, 80, 14],
        vec![1, -2, 3],
        vec![8, 8, 8],
        vec![-3000, 2999, -77],
    ];
    for t in targets {
        let r = steering.steer(&from, &Point::new(t));
        let d = from.sub(&r);
        assert!(d.norm_squared() <= 49);
    }
}

#[test]
fn uniform_samples_stay_in_box() {
    let mut sd = UniformDistribution::with_seed(vec![(-3, 7), (10, 10)], 99);
    for _ in 0..50 {
        let p = sd.sample();
        let c = p.coords();
        assert!(c.len() == 2);
        assert!(-3 <= c[0] && c[0] <= 7);
        assert_eq!(c[1], 10);
    }
}

#[test]
fn uniform_samples_vary() {
    let mut sd = UniformDistribution::with_seed(vec![(0, 1000)], 7);
    let first = sd.sample().coords()[0];
    let mut saw_other = false;
    for _ in 0..100 {
        if sd.sample().coords()[0] != first {
            saw_other = true;
        }
    }
    assert!(saw_other);
}

#[test]
fn goal_bias_one_always_returns_goal() {
    let goal = Point::new(vec![9, 9]);
    let mut sd =
        GoalBiasedUniformDistribution::with_seed(vec![(0, 5), (0, 5)], goal, 1, 1, 3).unwrap();
    for _ in 0..20 {
        assert_eq!(sd.sample().coords(), &vec![9, 9]);
    }
}

#[test]
fn goal_bias_zero_never_returns_outside_goal() {
    let goal = Point::new(vec![9, 9]);
    let mut sd =
        GoalBiasedUniformDistribution::with_seed(vec![(0, 5), (0, 5)], goal, 0, 1, 3).unwrap();
    for _ in 0..200 {
        let p = sd.sample();
        let c = p.coords();
        assert!(c != &vec![9, 9]);
        assert!(0 <= c[0] && c[0] <= 5 && 0 <= c[1] && c[1] <= 5);
    }
}

#[test]
fn goal_bias_fraction_converges_empirically() {
    let goal = Point::new(vec![9, 9]);
    let mut sd =
        GoalBiasedUniformDistribution::with_seed(vec![(0, 5), (0, 5)], goal, 1, 4, 1234).unwrap();
    let mut hits: u32 = 0;
    let draws: u32 = 10000;
    for _ in 0..draws {
        if sd.sample().coords() == &vec![9, 9] {
            hits += 1;
        }
    }
    // Expect about a quarter of the draws; allow a generous band.
    assert!(2200 <= hits && hits <= 2800, "goal hits: {}", hits);
}

#[test]
fn goal_bias_above_one_is_rejected() {
    let goal = Point::new(vec![1, 1]);
    let r = GoalBiasedUniformDistribution::new(vec![(0, 5), (0, 5)], goal, 3, 2);
    assert_eq!(r.err().unwrap(), ConfigurationError::GoalBiasOutOfRange);
}

#[test]
fn goal_bias_zero_denominator_is_rejected() {
    let goal = Point::new(vec![1, 1]);
    let r = GoalBiasedUniformDistribution::new(vec![(0, 5), (0, 5)], goal, 0, 0);
    assert_eq!(r.err().unwrap(), ConfigurationError::GoalBiasOutOfRange);
}
