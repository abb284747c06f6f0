//! Track statistics for recorded GPS logs.
//!
//! A run ingests track logs (tracks, segments, timestamped points), folds
//! them into a working set under a join policy, and computes per-segment
//! aggregates: elevation range and gain, smoothed distance, elapsed and
//! moving time, and distributional statistics over inter-point time deltas.
//!
//! All quantities are fixed-point integers: coordinates in nanodegrees,
//! elevations and distances in millimeters, timestamps in whole seconds
//! since the Unix epoch.

pub mod analyze;
pub mod assemble;
pub mod gpx;
pub mod laws;
pub mod model;
pub mod parse;
pub mod stats;
pub mod tstamp;
pub mod units;

use vstd::prelude::*;

verus! {

/// The error kinds a run can fail with. Every one is fatal: no partial
/// results are reported once a point is rejected.
#[derive(Debug, Clone, Copy, PartialEq, Eq, Structural)]
pub enum Error {
    /// A latitude or longitude string did not parse as decimal degrees.
    InvalidCoordinate,
    /// An elevation string did not parse as meters (or feet with a `ft`
    /// suffix), or its value does not fit the fixed-point range.
    InvalidElevation,
    /// A timestamp string was not valid RFC 3339, even after retrying with
    /// an assumed UTC offset.
    InvalidTimestamp,
    /// A point's timestamp was strictly earlier than its predecessor's.
    TimeWentBackwards,
}

} // verus!
