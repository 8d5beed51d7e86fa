//! The summary of a track: its timestamps, its ends, its extremes and
//! totals, and its profile.

use crate::distance::{
    accumulate_distances, lemma_running_totals_never_decrease, measure_legs, measured_by,
    running_totals,
};
use crate::parser::{parse_document, track_of};
use crate::track::TrackPoint;
use crate::xml::document_events;
use crate::error::TrackError;
use crate::profile::{
    all_on_the_canvas, build_profile, collapsed, lemma_collapsed, lemma_collapsed_on_the_canvas,
    lemma_placed_on_the_canvas, no_repeats, placed, placed_count, widen_distances, Profile,
    ProfilePoint,
};
use crate::smoothing::{
    climb, elevation_max, elevation_min, fall, is_level, lemma_extremes_are_ordered,
    lemma_extremes_bound_the_scanned, lemma_level_track_has_equal_extremes, scanned, smooth,
    smoothed,
};
use crate::arith::saturated;
use crate::track::{elevations, RawTrack, TrackModel};
use vstd::prelude::*;

verus! {

/// What is known of a track once it is measured. Coordinates are in units
/// of 1e-7 degree; elevations, ascent, descent and distance in millimetres.
#[derive(Clone, Debug, PartialEq, Eq)]
pub struct Summary {
    pub start_timestamp: String,
    pub end_timestamp: String,
    pub start_longitude: i64,
    pub start_latitude: i64,
    pub end_longitude: i64,
    pub end_latitude: i64,
    pub elevation_min: i64,
    pub elevation_max: i64,
    pub ascent_total: u64,
    pub descent_total: u64,
    pub distance_total: u64,
    pub profile: Profile,
}

/// What a [`Summary`] holds.
pub struct SummaryModel {
    pub start_timestamp: Seq<char>,
    pub end_timestamp: Seq<char>,
    pub start_longitude: int,
    pub start_latitude: int,
    pub end_longitude: int,
    pub end_latitude: int,
    pub elevation_min: int,
    pub elevation_max: int,
    pub ascent_total: int,
    pub descent_total: int,
    pub distance_total: int,
    pub profile: Seq<Seq<ProfilePoint>>,
}

impl View for Summary {
    type V = SummaryModel;

    open spec fn view(&self) -> SummaryModel {
        SummaryModel {
            start_timestamp: self.start_timestamp@,
            end_timestamp: self.end_timestamp@,
            start_longitude: self.start_longitude as int,
            start_latitude: self.start_latitude as int,
            end_longitude: self.end_longitude as int,
            end_latitude: self.end_latitude as int,
            elevation_min: self.elevation_min as int,
            elevation_max: self.elevation_max as int,
            ascent_total: self.ascent_total as int,
            descent_total: self.descent_total as int,
            distance_total: self.distance_total as int,
            profile: self.profile@,
        }
    }
}

/// A summary's result, by its model.
pub open spec fn summary_view(result: Result<Summary, TrackError>) -> Result<
    SummaryModel,
    TrackError,
> {
    match result {
        Ok(summary) => Ok(summary@),
        Err(error) => Err(error),
    }
}

/// The distance that a run of measured legs covers, held at the maximum of
/// a `u64`.
pub open spec fn distance_total(legs: Seq<u64>) -> int {
    running_totals(legs).last()
}

/// The summary of a track whose measured legs have the lengths `legs`. A
/// track without points has none; nor has one whose distance is zero or
/// whose two extremes are equal.
pub open spec fn summary_of(track: TrackModel, legs: Seq<u64>) -> Result<SummaryModel, TrackError> {
    let raw = elevations(track.points);
    if track.points.len() == 0 {
        Err(TrackError::EmptyTrack)
    } else if distance_total(legs) == 0 || elevation_min(raw) == elevation_max(raw) {
        Err(TrackError::DegenerateProfileScale)
    } else {
        Ok(
            SummaryModel {
                start_timestamp: track.start_timestamp,
                end_timestamp: track.end_timestamp,
                start_longitude: track.points.first().longitude as int,
                start_latitude: track.points.first().latitude as int,
                end_longitude: track.points.last().longitude as int,
                end_latitude: track.points.last().latitude as int,
                elevation_min: elevation_min(raw),
                elevation_max: elevation_max(raw),
                ascent_total: saturated(climb(scanned(raw))),
                descent_total: saturated(fall(scanned(raw))),
                distance_total: distance_total(legs),
                profile: seq![
                    collapsed(
                        placed(
                            smoothed(raw),
                            elevation_min(raw),
                            elevation_max(raw),
                            running_totals(legs),
                            distance_total(legs),
                        ),
                    ),
                ],
            },
        )
    }
}

/// Every summary has its extremes in order, and a profile of one segment
/// that lies on the canvas and never repeats a point.
pub proof fn lemma_summary_is_well_formed(track: TrackModel, legs: Seq<u64>)
    ensures
        summary_of(track, legs) matches Ok(summary) ==> {
            &&& summary.elevation_min < summary.elevation_max
            &&& summary.distance_total > 0
            &&& summary.profile.len() == 1
            &&& no_repeats(summary.profile[0])
            &&& all_on_the_canvas(summary.profile[0])
        },
{
    if let Ok(summary) = summary_of(track, legs) {
        let raw = elevations(track.points);
        let run = smoothed(raw);
        let totals = running_totals(legs);
        let low = elevation_min(raw);
        let high = elevation_max(raw);
        let total = distance_total(legs);
        lemma_extremes_are_ordered(raw);
        lemma_running_totals_never_decrease(legs);
        assert forall|i: int| 0 <= i < placed_count(run.len() as int, totals.len() as int) implies 0
            <= #[trigger] totals[i] <= total by {}
        assert forall|i: int|
            0 <= i < placed_count(run.len() as int, totals.len() as int) implies low
            <= #[trigger] run[i] <= high by {
            assert(scanned(raw)[i] == run[i]);
            lemma_extremes_bound_the_scanned(raw, i);
        }
        lemma_placed_on_the_canvas(run, low, high, totals, total);
        let points = placed(run, low, high, totals, total);
        lemma_collapsed_on_the_canvas(points);
        lemma_collapsed(points);
        assert(summary.profile[0] == collapsed(points));
    }
}

/// Summarises a track from its points and the lengths of its measured legs,
/// in millimetres and in the order of the legs. A track of `n` points has
/// `n - 2` measured legs; the distances are those of the lengths that are
/// given, however many they are.
pub fn summarize(track: &RawTrack, legs: &Vec<u64>) -> (result: Result<Summary, TrackError>)
    ensures
        summary_view(result) == summary_of(track@, legs@),
        result is Ok ==> result->Ok_0.elevation_min <= result->Ok_0.elevation_max,
        result is Ok ==> forall|s: int|
            0 <= s < result->Ok_0.profile@.len() ==> no_repeats(#[trigger] result->Ok_0.profile@[s]),
        result is Ok ==> forall|s: int|
            0 <= s < result->Ok_0.profile@.len() ==> all_on_the_canvas(
                #[trigger] result->Ok_0.profile@[s],
            ),
{
    proof {
        lemma_summary_is_well_formed(track@, legs@);
    }
    let count: usize = track.points.len();
    if count == 0 {
        return Err(TrackError::EmptyTrack);
    }
    let first = track.points[0];
    let last = track.points[count - 1];
    let smoothing = match smooth(&track.points) {
        Ok(smoothing) => smoothing,
        Err(error) => {
            return Err(error);
        },
    };
    let totals = accumulate_distances(legs);
    let distance: u64 = totals[totals.len() - 1];
    proof {
        assert(widen_distances(totals@) =~= running_totals(legs@));
    }
    let profile = match build_profile(
        &smoothing.smoothed_elevations,
        smoothing.elevation_min,
        smoothing.elevation_max,
        &totals,
        distance,
    ) {
        Ok(profile) => profile,
        Err(error) => {
            return Err(error);
        },
    };
    Ok(
        Summary {
            start_timestamp: track.start_timestamp.clone(),
            end_timestamp: track.end_timestamp.clone(),
            start_longitude: first.longitude,
            start_latitude: first.latitude,
            end_longitude: last.longitude,
            end_latitude: last.latitude,
            elevation_min: smoothing.elevation_min,
            elevation_max: smoothing.elevation_max,
            ascent_total: smoothing.ascent_total,
            descent_total: smoothing.descent_total,
            distance_total: distance,
            profile,
        },
    )
}

/// Whether `result` is what a document gives whose events stand for
/// `parsed`, with legs measured by `measure`: the error of the track where it
/// has one, else the summary for some lengths that `measure` may return.
pub open spec fn is_outcome<F: Fn(TrackPoint, TrackPoint) -> u64>(
    result: Result<Summary, TrackError>,
    parsed: Result<TrackModel, TrackError>,
    measure: &F,
) -> bool {
    match parsed {
        Ok(track) => exists|lengths: Seq<u64>| #[trigger]
            measured_by(measure, track.points, lengths) && summary_view(result) == summary_of(
                track,
                lengths,
            ),
        Err(error) => result == Err::<Summary, TrackError>(error),
    }
}

/// Reads a document, measures each leg of its track but the last with
/// `measure`, in millimetres, and summarises the track.
pub fn process<F: Fn(TrackPoint, TrackPoint) -> u64>(document: &[u8], measure: &F) -> (result:
    Result<Summary, TrackError>)
    requires
        forall|from: TrackPoint, to: TrackPoint| measure.requires((from, to)),
    ensures
        is_outcome(result, track_of(document_events(document@)), measure),
{
    let track = match parse_document(document) {
        Ok(track) => track,
        Err(error) => {
            return Err(error);
        },
    };
    let lengths = measure_legs(&track.points, measure);
    let result = summarize(&track, &lengths);
    assert(measured_by(measure, track@.points, lengths@));
    result
}

/// A track whose points all have the same elevation has no summary: its
/// profile would have no vertical scale.
pub proof fn lemma_level_track_has_no_scale(track: TrackModel, legs: Seq<u64>)
    requires
        track.points.len() > 0,
        is_level(elevations(track.points)),
    ensures
        summary_of(track, legs) == Err::<SummaryModel, TrackError>(
            TrackError::DegenerateProfileScale,
        ),
{
    lemma_level_track_has_equal_extremes(elevations(track.points));
}

/// A track without points has no summary either, whatever its legs.
pub proof fn lemma_empty_track_has_no_summary(track: TrackModel, legs: Seq<u64>)
    requires
        track.points.len() == 0,
    ensures
        summary_of(track, legs) == Err::<SummaryModel, TrackError>(TrackError::EmptyTrack),
{
}

} // verus!
