//! A k-means clustering engine over fixed-point (integer) coordinates.
//!
//! The engine partitions N samples of D dimensions each into K clusters.
//! Samples live in a flat row-major matrix; an optimizer (full-batch Lloyd
//! iteration or stochastic minibatch updates) repeatedly assigns every sample
//! to its nearest centroid and moves the centroids, starting from centroids
//! placed by one of two initializers (uniform random sampling or weighted
//! k-means++ sampling).

pub mod abort_strategy;
pub mod api;
pub mod helpers;
pub mod inits;
pub mod memory;
pub mod random;
pub mod variants;

pub use abort_strategy::AbortStrategy;
pub use api::{Initializer, KMeans, KMeansConfig, KMeansError, KMeansState};
pub use memory::{AlignedFloatVec, Primitive, COORD_MAX, LANES, TOTAL_MAX};
