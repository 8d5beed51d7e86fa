//! Statistical summaries of recorded GPS tracks, in fixed-point arithmetic.
//!
//! A track document is read into points ([`parser`]), its elevations are
//! smoothed and measured ([`smoothing`]), the lengths of its legs are summed
//! ([`distance`]), and both are drawn as a profile on a square canvas
//! ([`profile`]); [`summary`] puts the stages together.
//!
//! Coordinates are whole numbers of 1e-7 degree, elevations and distances
//! whole numbers of millimetres. The length of a leg is the caller's to
//! measure; [`geodesic`] holds the rule by which an iterative measurement
//! stops.

pub mod arith;
pub mod decimal;
pub mod distance;
pub mod error;
pub mod geodesic;
pub mod parser;
pub mod profile;
pub mod smoothing;
pub mod summary;
pub mod track;
pub mod xml;
