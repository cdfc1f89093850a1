//! Partitional clustering over points with integer coordinates: a set of
//! dissimilarity metrics, a randomized medoid search (CLARANS) and k-means.

pub mod clarans;
pub mod distance;
pub mod error;
pub mod kmeans;
pub mod kmedians;
pub mod point;
mod random;
pub mod statistics;
