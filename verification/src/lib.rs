//! Nearest-neighbour queries among points of a plane, answered from a matrix
//! of pairwise squared distances.
//!
//! Points stand on an integer grid: a coordinate is a whole number of grid
//! units, and the caller chooses what one unit is worth. On the grid the
//! squared Euclidean distance is exact, so the matrix is symmetric, its
//! diagonal is zero and equal distances compare equal.
//!
//! A [`BattleSpace`] owns the points and the matrix. The matrix is computed on
//! request by [`BattleSpace::calculate_distance_matrix`]; moving a point leaves
//! it stale, and [`BattleSpace::find_nearest_point`] answers only from a matrix
//! that was computed for the points as they stand.

pub mod model;
pub mod space;
pub mod vec2;

pub use model::SpaceView;
pub use space::{BattleSpace, QueryError};
pub use vec2::{Position, Vec2};
