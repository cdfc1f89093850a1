use vstd::prelude::*;

verus! {

/// Why a clustering call or a distance was refused.
#[derive(Debug, Clone, Copy, PartialEq, Eq, Structural)]
pub enum ClusterError {
    /// The point collection is empty.
    EmptyInput,
    /// Two coordinate vectors that must have one length do not.
    DimensionMismatch,
    /// The cluster count is zero or larger than the number of points.
    InvalidClusterCount,
    /// No restart was asked for.
    NoRestarts,
    /// Precomputed centroids were asked for and none were given.
    MissingCentroids,
}

} // verus!
