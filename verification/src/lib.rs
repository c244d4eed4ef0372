//! K-means clustering of 3-component integer points, as used for color
//! quantization: points are grouped around K centroids by squared Euclidean
//! distance, and centroids are refined over a fixed number of rounds.

pub mod centroid;
pub mod kmeans;
pub mod point;
mod rng;

pub use centroid::Centroid;
pub use centroid::MAX_POINTS;
pub use kmeans::try_generate_k_means;
pub use kmeans::KMeans;
pub use kmeans::KMeansError;
pub use point::Point;
pub use point::COORD_MAX;
