//! Clustering of numeric row-vectors by simulated annealing.
//!
//! Rows are rescaled per row to the unit interval, pairwise Euclidean
//! distances are cached in a packed triangular store, and a
//! propose/accept/reject loop moves rows between a fixed number of
//! clusters so as to lower the total intra-cluster distance.
//!
//! All numeric values are carried in fixed-point form: a value `v` stands
//! for the real number `v / SCALE`. The probabilistic acceptance test
//! (an `exp` over the current temperature) is floating-point work and is
//! left to the caller; everything else lives here.
#![verifier::loop_isolation(false)]
use vstd::prelude::*;

pub mod tri;
pub mod distance;
pub mod normalize;
pub mod store;
pub mod energy;
pub mod temperature;
pub mod rng_source;
pub mod engine;

verus! {

/// One unit in fixed-point form: a stored value `v` stands for `v / SCALE`.
pub const SCALE: i64 = 1_000_000;

/// Largest magnitude accepted for a raw input value, so that
/// `(v - min) * SCALE` stays within `i64`.
pub const VALUE_LIMIT: i64 = 1_000_000_000_000;

/// Largest accepted row width, so that a sum of squared differences of
/// normalized values stays within `u64`.
pub const MAX_COLS: usize = 1_000_000;

/// Upper bound on a stored pairwise distance:
/// `isqrt(MAX_COLS * SCALE * SCALE)`.
pub const DIST_BOUND: u64 = 1_000_000_000;

/// A configuration or input-shape violation, reported before an engine is
/// built rather than left to fail mid-run.
#[derive(Clone, Copy, Debug, PartialEq, Eq, Structural)]
pub enum ConfigError {
    /// The cluster count `k` is zero.
    NoClusters,
    /// Row names and data rows differ in number.
    NameCountMismatch,
    /// Some row differs in length from the first row.
    RaggedRow,
    /// Rows are wider than `MAX_COLS`.
    RowTooWide,
    /// Some raw value exceeds `VALUE_LIMIT` in magnitude.
    ValueOutOfRange,
    /// The pair count `n*(n-1)/2` does not fit in `usize`.
    TooManyRows,
    /// The initial temperature is zero.
    ZeroTemperature,
    /// The cooling factor is not strictly between zero and one.
    BadCooling,
}

} // verus!
