//! Track points and recorded tracks.

use vstd::prelude::*;

verus! {

/// One recorded sample: position in units of 1e-7 degree, elevation in
/// millimetres.
#[derive(Clone, Copy, Debug, PartialEq, Eq, Structural)]
pub struct TrackPoint {
    pub latitude: i64,
    pub longitude: i64,
    pub elevation: i64,
}

impl TrackPoint {
    /// The point at the origin, at sea level.
    pub fn origin() -> (point: TrackPoint)
        ensures
            point == origin_point(),
    {
        TrackPoint { latitude: 0, longitude: 0, elevation: 0 }
    }
}

pub open spec fn origin_point() -> TrackPoint {
    TrackPoint { latitude: 0, longitude: 0, elevation: 0 }
}

/// A track as recorded: its points in order, and the first and the last
/// timestamp met inside them.
#[derive(Clone, Debug, PartialEq, Eq)]
pub struct RawTrack {
    pub start_timestamp: String,
    pub end_timestamp: String,
    pub points: Vec<TrackPoint>,
}

/// What a [`RawTrack`] holds.
pub struct TrackModel {
    pub start_timestamp: Seq<char>,
    pub end_timestamp: Seq<char>,
    pub points: Seq<TrackPoint>,
}

impl View for RawTrack {
    type V = TrackModel;

    open spec fn view(&self) -> TrackModel {
        TrackModel {
            start_timestamp: self.start_timestamp@,
            end_timestamp: self.end_timestamp@,
            points: self.points@,
        }
    }
}

/// The elevations of a run of points, in order.
pub open spec fn elevations(points: Seq<TrackPoint>) -> Seq<int> {
    Seq::new(points.len(), |i: int| points[i].elevation as int)
}

} // verus!
