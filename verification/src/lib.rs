//! A time-series continuity and query engine for sampled asset-pair prices.
//!
//! The engine keeps, for each pair, an append-only series of prices and timestamps.
//! It finds the samples that are missing since the last stored one, repairs them
//! from a coarser fallback source, resamples coarse series by linear interpolation,
//! and answers range queries by offsets from the tail of the series.
//!
//! Prices are whole numbers of one part in [`datapoint::PRICE_SCALE`], and
//! timestamps are whole seconds since the Unix epoch.

use vstd::prelude::*;

pub mod api;
pub mod clock;
pub mod datapoint;
pub mod decimal;
pub mod error;
pub mod fallback;
pub mod fixes;
pub mod interpolate;
pub mod order;
pub mod pair;
pub mod price;
pub mod series;

verus! {

/// Seconds between two samples of the engine's own collection job: the native
/// interval of every stored series.
pub const COLLECTION_INTERVAL_SECS: i64 = 300;

} // verus!
