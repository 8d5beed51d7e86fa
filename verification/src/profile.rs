//! The elevation profile: a polyline on a square canvas, without repeated
//! neighbours.
//!
//! Distance runs along x and elevation above the lowest point along y, each
//! scaled so that its full span covers the side of the canvas.

use crate::arith::round_div;
use crate::error::TrackError;
use crate::smoothing::widen;
use vstd::prelude::*;

verus! {

/// The side of the canvas, in its own units.
pub const CANVAS_SIDE: i32 = 2000;

/// A point of the canvas.
#[derive(Clone, Copy, Debug, PartialEq, Eq, Structural)]
pub struct ProfilePoint {
    pub x: i32,
    pub y: i32,
}

/// The profile of a track: one polyline per segment.
#[derive(Clone, Debug, PartialEq, Eq)]
pub struct Profile {
    pub segments: Vec<Vec<ProfilePoint>>,
}

impl View for Profile {
    type V = Seq<Seq<ProfilePoint>>;

    open spec fn view(&self) -> Seq<Seq<ProfilePoint>> {
        Seq::new(self.segments@.len(), |i: int| self.segments@[i]@)
    }
}

/// A canvas coordinate kept inside the range of an `i32`.
pub open spec fn clamped(coordinate: int) -> int {
    if coordinate > i32::MAX {
        i32::MAX as int
    } else if coordinate < i32::MIN {
        i32::MIN as int
    } else {
        coordinate
    }
}

/// Where `value` falls on the canvas when `span` covers its side:
/// `value * 2000 / span`, rounded to the nearest integer with halves away
/// from zero, and kept inside the range of an `i32`. The span is not zero.
pub open spec fn on_canvas(value: int, span: int) -> int
    recommends
        span != 0,
{
    if span > 0 {
        clamped(round_div(value * CANVAS_SIDE as int, span))
    } else {
        clamped(round_div(-value * CANVAS_SIDE as int, -span))
    }
}

/// How many points are placed: one for each smoothed elevation but the last,
/// as far as there are cumulative distances.
pub open spec fn placed_count(elevations: int, distances: int) -> int {
    if elevations - 1 < distances {
        if elevations - 1 < 0 {
            0
        } else {
            elevations - 1
        }
    } else {
        distances
    }
}

/// The points before repeated neighbours are dropped.
pub open spec fn placed(
    smoothed: Seq<int>,
    elevation_min: int,
    elevation_max: int,
    cumulative: Seq<int>,
    distance_total: int,
) -> Seq<ProfilePoint>
    recommends
        distance_total != 0,
        elevation_max != elevation_min,
{
    Seq::new(
        placed_count(smoothed.len() as int, cumulative.len() as int) as nat,
        |i: int|
            ProfilePoint {
                x: on_canvas(cumulative[i], distance_total) as i32,
                y: on_canvas(smoothed[i] - elevation_min, elevation_max - elevation_min) as i32,
            },
    )
}

/// The run without any point that repeats the one just before it.
pub open spec fn collapsed(points: Seq<ProfilePoint>) -> Seq<ProfilePoint>
    decreases points.len(),
{
    if points.len() == 0 {
        Seq::empty()
    } else if points.len() >= 2 && points[points.len() - 1] == points[points.len() - 2] {
        collapsed(points.drop_last())
    } else {
        collapsed(points.drop_last()).push(points.last())
    }
}

/// Whether no point of the run equals the one just before it.
pub open spec fn no_repeats(points: Seq<ProfilePoint>) -> bool {
    forall|i: int| 0 <= i < points.len() - 1 ==> #[trigger] points[i] != points[i + 1]
}

/// A run of distances as mathematical integers.
pub open spec fn widen_distances(values: Seq<u64>) -> Seq<int> {
    Seq::new(values.len(), |i: int| values[i] as int)
}

/// Collapsing keeps the last point, and leaves no point equal to the one
/// just before it.
pub proof fn lemma_collapsed(points: Seq<ProfilePoint>)
    ensures
        no_repeats(collapsed(points)),
        collapsed(points).len() <= points.len(),
        points.len() > 0 ==> collapsed(points).len() > 0 && collapsed(points).last()
            == points.last(),
    decreases points.len(),
{
    if points.len() > 0 {
        let shorter = points.drop_last();
        lemma_collapsed(shorter);
        if points.len() >= 2 && points[points.len() - 1] == points[points.len() - 2] {
            assert(shorter.last() == points[points.len() - 2]);
        } else {
            let kept = collapsed(shorter);
            let out = kept.push(points.last());
            assert(out == collapsed(points));
            assert forall|i: int| 0 <= i < out.len() - 1 implies #[trigger] out[i] != out[i
                + 1] by {
                if i < kept.len() - 1 {
                    assert(out[i] == kept[i]);
                    assert(out[i + 1] == kept[i + 1]);
                } else {
                    assert(out[i] == kept.last());
                    assert(shorter.last() == points[points.len() - 2]);
                }
            }
        }
    }
}

/// Whether the point lies on the canvas.
pub open spec fn on_the_canvas(point: ProfilePoint) -> bool {
    0 <= point.x <= CANVAS_SIDE && 0 <= point.y <= CANVAS_SIDE
}

/// Whether every point of the run lies on the canvas.
pub open spec fn all_on_the_canvas(points: Seq<ProfilePoint>) -> bool {
    forall|i: int| 0 <= i < points.len() ==> on_the_canvas(#[trigger] points[i])
}

/// A value inside its span falls on the canvas.
pub proof fn lemma_inside_the_span(value: int, span: int)
    requires
        0 <= value <= span,
        span > 0,
    ensures
        0 <= on_canvas(value, span) <= CANVAS_SIDE,
{
    let numerator = 2 * (value * 2000) + span;
    let denominator = 2 * span;
    assert(0 <= numerator / denominator <= 2000) by (nonlinear_arith)
        requires
            0 <= numerator < 2001 * denominator,
            denominator > 0,
    ;
}

/// Where every distance placed lies inside the total and every elevation
/// placed lies between the extremes, every point placed lies on the canvas.
pub proof fn lemma_placed_on_the_canvas(
    smoothed: Seq<int>,
    elevation_min: int,
    elevation_max: int,
    cumulative: Seq<int>,
    distance_total: int,
)
    requires
        distance_total > 0,
        elevation_min < elevation_max,
        forall|i: int|
            0 <= i < placed_count(smoothed.len() as int, cumulative.len() as int) ==> 0
                <= #[trigger] cumulative[i] <= distance_total,
        forall|i: int|
            0 <= i < placed_count(smoothed.len() as int, cumulative.len() as int) ==> elevation_min
                <= #[trigger] smoothed[i] <= elevation_max,
    ensures
        all_on_the_canvas(
            placed(smoothed, elevation_min, elevation_max, cumulative, distance_total),
        ),
{
    let points = placed(smoothed, elevation_min, elevation_max, cumulative, distance_total);
    assert forall|i: int| 0 <= i < points.len() implies on_the_canvas(#[trigger] points[i]) by {
        assert(0 <= cumulative[i] <= distance_total);
        assert(elevation_min <= smoothed[i] <= elevation_max);
        lemma_inside_the_span(cumulative[i], distance_total);
        lemma_inside_the_span(smoothed[i] - elevation_min, elevation_max - elevation_min);
    }
}

/// Collapsing a run that lies on the canvas leaves it there.
pub proof fn lemma_collapsed_on_the_canvas(points: Seq<ProfilePoint>)
    requires
        all_on_the_canvas(points),
    ensures
        all_on_the_canvas(collapsed(points)),
    decreases points.len(),
{
    if points.len() > 0 {
        let shorter = points.drop_last();
        assert forall|i: int| 0 <= i < shorter.len() implies on_the_canvas(
            #[trigger] shorter[i],
        ) by {
            assert(shorter[i] == points[i]);
        }
        lemma_collapsed_on_the_canvas(shorter);
        assert(on_the_canvas(points[points.len() - 1]));
    }
}

/// Places `value` on the canvas.
fn place(value: i128, span: i128) -> (coordinate: i32)
    requires
        span != 0,
        -0x1_0000_0000_0000_0000 <= value <= 0x1_0000_0000_0000_0000,
        -0x1_0000_0000_0000_0000 <= span <= 0x1_0000_0000_0000_0000,
    ensures
        coordinate == on_canvas(value as int, span as int),
{
    let side: i128 = 2000;
    let (numerator, denominator): (i128, i128) = if span > 0 {
        (value * side, span)
    } else {
        (-value * side, -span)
    };
    if numerator >= 0 {
        let quotient: i128 = (2 * numerator + denominator) / (2 * denominator);
        if quotient > i32::MAX as i128 {
            i32::MAX
        } else {
            quotient as i32
        }
    } else {
        let quotient: i128 = (-2 * numerator + denominator) / (2 * denominator);
        if quotient > -(i32::MIN as i128) {
            i32::MIN
        } else {
            (-quotient) as i32
        }
    }
}

/// Places one point for each smoothed elevation but the last, as far as
/// there are cumulative distances.
pub fn place_points(
    smoothed: &Vec<i64>,
    elevation_min: i64,
    elevation_max: i64,
    cumulative: &Vec<u64>,
    distance_total: u64,
) -> (points: Vec<ProfilePoint>)
    requires
        distance_total != 0,
        elevation_min != elevation_max,
    ensures
        points@ == placed(
            widen(smoothed@),
            elevation_min as int,
            elevation_max as int,
            widen_distances(cumulative@),
            distance_total as int,
        ),
{
    let count: usize = if smoothed.len() == 0 {
        0
    } else if smoothed.len() - 1 < cumulative.len() {
        smoothed.len() - 1
    } else {
        cumulative.len()
    };
    let ghost goal = placed(
        widen(smoothed@),
        elevation_min as int,
        elevation_max as int,
        widen_distances(cumulative@),
        distance_total as int,
    );
    let span: i128 = elevation_max as i128 - elevation_min as i128;
    let mut points: Vec<ProfilePoint> = Vec::new();
    let mut i: usize = 0;
    while i < count
        invariant
            i <= count,
            count == goal.len(),
            count <= cumulative.len(),
            count < smoothed.len() || count == 0,
            span == elevation_max - elevation_min,
            span != 0,
            distance_total != 0,
            goal == placed(
                widen(smoothed@),
                elevation_min as int,
                elevation_max as int,
                widen_distances(cumulative@),
                distance_total as int,
            ),
            points@.len() == i,
            forall|j: int| 0 <= j < i ==> #[trigger] points@[j] == goal[j],
        decreases count - i,
    {
        let x: i32 = place(cumulative[i] as i128, distance_total as i128);
        let y: i32 = place(smoothed[i] as i128 - elevation_min as i128, span);
        points.push(ProfilePoint { x, y });
        i = i + 1;
    }
    assert(points@ =~= goal);
    points
}

/// Drops every point that repeats the one just before it.
pub fn collapse_repeats(points: &Vec<ProfilePoint>) -> (kept: Vec<ProfilePoint>)
    ensures
        kept@ == collapsed(points@),
        no_repeats(kept@),
{
    let mut kept: Vec<ProfilePoint> = Vec::new();
    let mut i: usize = 0;
    assert(points@.take(0) =~= Seq::<ProfilePoint>::empty());
    while i < points.len()
        invariant
            i <= points.len(),
            kept@ == collapsed(points@.take(i as int)),
        decreases points.len() - i,
    {
        proof {
            let longer = points@.take(i + 1);
            assert(longer.drop_last() =~= points@.take(i as int));
            assert(longer.last() == points@[i as int]);
            if i >= 1 {
                assert(longer[longer.len() - 2] == points@[i - 1]);
            }
        }
        let point = points[i];
        if i == 0 || !(point.x == points[i - 1].x && point.y == points[i - 1].y) {
            kept.push(point);
        }
        i = i + 1;
    }
    proof {
        assert(points@.take(points.len() as int) =~= points@);
        lemma_collapsed(points@);
    }
    kept
}

/// Builds the profile: the placed points without repeated neighbours, as
/// its only segment. Fails where the total distance is zero or the two
/// extremes are equal, since the canvas then has no scale.
pub fn build_profile(
    smoothed: &Vec<i64>,
    elevation_min: i64,
    elevation_max: i64,
    cumulative: &Vec<u64>,
    distance_total: u64,
) -> (result: Result<Profile, TrackError>)
    ensures
        distance_total == 0 || elevation_min == elevation_max ==> result == Err::<
            Profile,
            TrackError,
        >(TrackError::DegenerateProfileScale),
        distance_total != 0 && elevation_min != elevation_max ==> result is Ok
            && result->Ok_0@ == seq![
            collapsed(
                placed(
                    widen(smoothed@),
                    elevation_min as int,
                    elevation_max as int,
                    widen_distances(cumulative@),
                    distance_total as int,
                ),
            ),
        ],
        result is Ok ==> forall|s: int|
            0 <= s < result->Ok_0@.len() ==> no_repeats(#[trigger] result->Ok_0@[s]),
{
    if distance_total == 0 || elevation_min == elevation_max {
        return Err(TrackError::DegenerateProfileScale);
    }
    let points = place_points(smoothed, elevation_min, elevation_max, cumulative, distance_total);
    let kept = collapse_repeats(&points);
    let mut segments: Vec<Vec<ProfilePoint>> = Vec::new();
    segments.push(kept);
    let profile = Profile { segments };
    assert(profile@ =~= seq![collapsed(points@)]);
    Ok(profile)
}

} // verus!
