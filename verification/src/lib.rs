pub mod collision;
pub mod distance;
pub mod errors;
pub mod neighbors;
pub mod point;
pub mod rng;
pub mod rrt;
pub mod sampling;
pub mod smoothing;
pub mod steering;

pub use crate::collision::ValidityChecker;
pub use crate::errors::ConfigurationError;
pub use crate::neighbors::KdTreeNearestNeighbors;
pub use crate::neighbors::LinearNearestNeighbors;
pub use crate::neighbors::NearestNeighbors;
pub use crate::point::Point;
pub use crate::rrt::RRT;
