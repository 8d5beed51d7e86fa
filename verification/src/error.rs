//! The ways in which a track can fail to be summarised.

use vstd::prelude::*;

verus! {

/// Why a track could not be summarised.
#[derive(Clone, Copy, Debug, PartialEq, Eq, Structural)]
pub enum TrackError {
    /// The markup reader met a syntax error; `offset` is the reader's byte
    /// position when it gave up.
    MalformedMarkup { offset: u64 },
    /// A track point closed without an elevation or without a timestamp.
    MissingRequiredField,
    /// The document holds no track point.
    EmptyTrack,
    /// A coordinate or an elevation is not a decimal literal that fits.
    InvalidNumericLiteral,
    /// The total distance or the elevation range is zero, so the profile has
    /// no scale.
    DegenerateProfileScale,
}

} // verus!
