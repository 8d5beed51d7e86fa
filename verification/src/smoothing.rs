//! Elevation smoothing, extremes, and cumulative ascent and descent.
//!
//! The smoothed run holds one element less than the track. On a track of more
//! than five points, its first two and last two elements are raw elevations
//! and the others are means over five neighbours; on a shorter track it is the
//! raw elevations without the last. Extremes and totals are taken over the
//! smoothed run without its last element.

use crate::arith::{add_saturating, round_div, saturated};
use crate::error::TrackError;
use crate::track::{elevations, TrackPoint};
use vstd::prelude::*;

verus! {

/// The mean of the five elevations centred at `i`.
pub open spec fn window_mean(raw: Seq<int>, i: int) -> int
    recommends
        2 <= i < raw.len() - 2,
{
    round_div(raw[i - 2] + raw[i - 1] + raw[i] + raw[i + 1] + raw[i + 2], 5)
}

/// The smoothed run of a track's raw elevations.
pub open spec fn smoothed(raw: Seq<int>) -> Seq<int> {
    if raw.len() > 5 {
        Seq::new(
            (raw.len() - 1) as nat,
            |i: int|
                if i < 2 {
                    raw[i]
                } else if i <= raw.len() - 4 {
                    window_mean(raw, i)
                } else {
                    raw[i + 1]
                },
        )
    } else if raw.len() > 0 {
        raw.drop_last()
    } else {
        Seq::empty()
    }
}

/// The part of the smoothed run that extremes and totals look at: all but
/// its last element.
pub open spec fn scanned(raw: Seq<int>) -> Seq<int> {
    if smoothed(raw).len() > 0 {
        smoothed(raw).drop_last()
    } else {
        Seq::empty()
    }
}

/// The least of a non-empty run.
pub open spec fn lowest(values: Seq<int>) -> int
    recommends
        values.len() > 0,
    decreases values.len(),
{
    if values.len() <= 1 {
        values[0]
    } else if values.last() < lowest(values.drop_last()) {
        values.last()
    } else {
        lowest(values.drop_last())
    }
}

/// The greatest of a non-empty run.
pub open spec fn highest(values: Seq<int>) -> int
    recommends
        values.len() > 0,
    decreases values.len(),
{
    if values.len() <= 1 {
        values[0]
    } else if values.last() > highest(values.drop_last()) {
        values.last()
    } else {
        highest(values.drop_last())
    }
}

/// The lowest scanned elevation; the first raw elevation where nothing is
/// scanned.
pub open spec fn elevation_min(raw: Seq<int>) -> int
    recommends
        raw.len() > 0,
{
    if scanned(raw).len() > 0 {
        lowest(scanned(raw))
    } else {
        raw[0]
    }
}

/// The highest scanned elevation; the first raw elevation where nothing is
/// scanned.
pub open spec fn elevation_max(raw: Seq<int>) -> int
    recommends
        raw.len() > 0,
{
    if scanned(raw).len() > 0 {
        highest(scanned(raw))
    } else {
        raw[0]
    }
}

/// The sum of the rises between neighbours.
pub open spec fn climb(values: Seq<int>) -> int
    decreases values.len(),
{
    if values.len() < 2 {
        0
    } else {
        let step = values[values.len() - 1] - values[values.len() - 2];
        climb(values.drop_last()) + if step > 0 {
            step
        } else {
            0
        }
    }
}

/// The sum of the falls between neighbours, as a positive number.
pub open spec fn fall(values: Seq<int>) -> int
    decreases values.len(),
{
    if values.len() < 2 {
        0
    } else {
        let step = values[values.len() - 1] - values[values.len() - 2];
        fall(values.drop_last()) + if step < 0 {
            -step
        } else {
            0
        }
    }
}

/// A run of machine integers as mathematical ones.
pub open spec fn widen(values: Seq<i64>) -> Seq<int> {
    Seq::new(values.len(), |i: int| values[i] as int)
}

/// What the smoother found.
#[derive(Clone, Debug, PartialEq, Eq)]
pub struct SmoothingResult {
    pub elevation_min: i64,
    pub elevation_max: i64,
    pub ascent_total: u64,
    pub descent_total: u64,
    pub smoothed_elevations: Vec<i64>,
}

impl SmoothingResult {
    /// Whether this is what smoothing the raw elevations `raw` gives.
    pub open spec fn describes(&self, raw: Seq<int>) -> bool {
        &&& widen(self.smoothed_elevations@) == smoothed(raw)
        &&& self.elevation_min == elevation_min(raw)
        &&& self.elevation_max == elevation_max(raw)
        &&& self.ascent_total == saturated(climb(scanned(raw)))
        &&& self.descent_total == saturated(fall(scanned(raw)))
    }
}

/// The least of a run is one of its elements and none is lower.
pub proof fn lemma_lowest(values: Seq<int>)
    requires
        values.len() > 0,
    ensures
        forall|i: int| 0 <= i < values.len() ==> lowest(values) <= #[trigger] values[i],
        exists|i: int| 0 <= i < values.len() && values[i] == lowest(values),
    decreases values.len(),
{
    if values.len() <= 1 {
        assert(values[0] == lowest(values));
    } else {
        let shorter = values.drop_last();
        lemma_lowest(shorter);
        let at = choose|i: int| 0 <= i < shorter.len() && shorter[i] == lowest(shorter);
        assert(values[at] == shorter[at]);
        assert(values[values.len() - 1] == values.last());
        assert forall|i: int| 0 <= i < values.len() implies lowest(values) <= #[trigger] values[i] by {
            if i < shorter.len() {
                assert(values[i] == shorter[i]);
            }
        }
    }
}

/// The greatest of a run is one of its elements and none is higher.
pub proof fn lemma_highest(values: Seq<int>)
    requires
        values.len() > 0,
    ensures
        forall|i: int| 0 <= i < values.len() ==> highest(values) >= #[trigger] values[i],
        exists|i: int| 0 <= i < values.len() && values[i] == highest(values),
    decreases values.len(),
{
    if values.len() <= 1 {
        assert(values[0] == highest(values));
    } else {
        let shorter = values.drop_last();
        lemma_highest(shorter);
        let at = choose|i: int| 0 <= i < shorter.len() && shorter[i] == highest(shorter);
        assert(values[at] == shorter[at]);
        assert(values[values.len() - 1] == values.last());
        assert forall|i: int| 0 <= i < values.len() implies highest(values) >= #[trigger] values[i] by {
            if i < shorter.len() {
                assert(values[i] == shorter[i]);
            }
        }
    }
}

/// The mean of five elevations lies between the least and the greatest of
/// them.
pub proof fn lemma_round_div_five(sum: int, low: int, high: int)
    requires
        5 * low <= sum <= 5 * high,
    ensures
        low <= round_div(sum, 5) <= high,
{
    if sum >= 0 {
        assert(round_div(sum, 5) == (2 * sum + 5) / 10);
    } else {
        assert(round_div(sum, 5) == -((-2 * sum + 5) / 10));
    }
}

/// The mean of the five elevations centred at `i`.
fn mean_of_window(points: &Vec<TrackPoint>, i: usize) -> (mean: i64)
    requires
        2 <= i,
        i + 2 < points.len(),
    ensures
        mean == window_mean(elevations(points@), i as int),
{
    let sum: i128 = points[i - 2].elevation as i128 + points[i - 1].elevation as i128
        + points[i].elevation as i128 + points[i + 1].elevation as i128 + points[i
        + 2].elevation as i128;
    proof {
        lemma_round_div_five(sum as int, i64::MIN as int, i64::MAX as int);
    }
    if sum >= 0 {
        let doubled: u128 = (2 * sum + 5) as u128;
        (doubled / 10) as i64
    } else {
        let doubled: u128 = (-2 * sum + 5) as u128;
        -((doubled / 10) as i128) as i64
    }
}

/// The smoothed run of a track with at least one point.
fn smoothed_run(points: &Vec<TrackPoint>) -> (run: Vec<i64>)
    requires
        points.len() > 0,
    ensures
        widen(run@) == smoothed(elevations(points@)),
{
    let length: usize = points.len();
    let ghost raw = elevations(points@);
    let mut run: Vec<i64> = Vec::new();
    let mut i: usize = 0;
    while i < length - 1
        invariant
            length == points.len(),
            length > 0,
            raw == elevations(points@),
            i <= length - 1,
            run@.len() == i,
            forall|j: int| 0 <= j < i ==> #[trigger] run@[j] as int == smoothed(raw)[j],
        decreases length - 1 - i,
    {
        let value: i64 = if length <= 5 || i < 2 {
            points[i].elevation
        } else if i <= length - 4 {
            mean_of_window(points, i)
        } else {
            points[i + 1].elevation
        };
        run.push(value);
        i = i + 1;
    }
    assert(widen(run@) =~= smoothed(raw));
    run
}

/// The least of the first `count` values.
fn lowest_of(values: &Vec<i64>, count: usize) -> (low: i64)
    requires
        0 < count <= values.len(),
    ensures
        low == lowest(widen(values@).take(count as int)),
{
    let ghost seen = widen(values@).take(count as int);
    let mut low: i64 = values[0];
    let mut i: usize = 1;
    while i < count
        invariant
            1 <= i <= count <= values.len(),
            seen == widen(values@).take(count as int),
            low == lowest(seen.take(i as int)),
        decreases count - i,
    {
        proof {
            assert(seen.take(i + 1).drop_last() =~= seen.take(i as int));
            assert(seen.take(i + 1).last() == values@[i as int]);
        }
        if values[i] < low {
            low = values[i];
        }
        i = i + 1;
    }
    assert(seen.take(count as int) =~= seen);
    low
}

/// The greatest of the first `count` values.
fn highest_of(values: &Vec<i64>, count: usize) -> (high: i64)
    requires
        0 < count <= values.len(),
    ensures
        high == highest(widen(values@).take(count as int)),
{
    let ghost seen = widen(values@).take(count as int);
    let mut high: i64 = values[0];
    let mut i: usize = 1;
    while i < count
        invariant
            1 <= i <= count <= values.len(),
            seen == widen(values@).take(count as int),
            high == highest(seen.take(i as int)),
        decreases count - i,
    {
        proof {
            assert(seen.take(i + 1).drop_last() =~= seen.take(i as int));
            assert(seen.take(i + 1).last() == values@[i as int]);
        }
        if values[i] > high {
            high = values[i];
        }
        i = i + 1;
    }
    assert(seen.take(count as int) =~= seen);
    high
}

/// The total rise over the first `count` values.
fn climb_of(values: &Vec<i64>, count: usize) -> (total: u64)
    requires
        count <= values.len(),
    ensures
        total == saturated(climb(widen(values@).take(count as int))),
{
    let ghost seen = widen(values@).take(count as int);
    let mut total: u64 = 0;
    if count < 2 {
        return total;
    }
    let mut i: usize = 1;
    while i < count
        invariant
            1 <= i <= count <= values.len(),
            seen == widen(values@).take(count as int),
            climb(seen.take(i as int)) >= 0,
            total == saturated(climb(seen.take(i as int))),
        decreases count - i,
    {
        proof {
            let longer = seen.take(i + 1);
            assert(longer.drop_last() =~= seen.take(i as int));
            assert(longer[longer.len() - 1] == values@[i as int]);
            assert(longer[longer.len() - 2] == values@[i - 1]);
        }
        let step: i128 = values[i] as i128 - values[i - 1] as i128;
        if step > 0 {
            total = add_saturating(total, step as u64);
        }
        i = i + 1;
    }
    assert(seen.take(count as int) =~= seen);
    total
}

/// The total fall over the first `count` values.
fn fall_of(values: &Vec<i64>, count: usize) -> (total: u64)
    requires
        count <= values.len(),
    ensures
        total == saturated(fall(widen(values@).take(count as int))),
{
    let ghost seen = widen(values@).take(count as int);
    let mut total: u64 = 0;
    if count < 2 {
        return total;
    }
    let mut i: usize = 1;
    while i < count
        invariant
            1 <= i <= count <= values.len(),
            seen == widen(values@).take(count as int),
            fall(seen.take(i as int)) >= 0,
            total == saturated(fall(seen.take(i as int))),
        decreases count - i,
    {
        proof {
            let longer = seen.take(i + 1);
            assert(longer.drop_last() =~= seen.take(i as int));
            assert(longer[longer.len() - 1] == values@[i as int]);
            assert(longer[longer.len() - 2] == values@[i - 1]);
        }
        let step: i128 = values[i] as i128 - values[i - 1] as i128;
        if step < 0 {
            total = add_saturating(total, (-step) as u64);
        }
        i = i + 1;
    }
    assert(seen.take(count as int) =~= seen);
    total
}

/// The least of a run is no greater than its greatest.
pub proof fn lemma_lowest_below_highest(values: Seq<int>)
    requires
        values.len() > 0,
    ensures
        lowest(values) <= highest(values),
{
    lemma_lowest(values);
    lemma_highest(values);
    assert(lowest(values) <= values[0]);
    assert(values[0] <= highest(values));
}

/// Smooths the elevations of a track and measures them: the smoothed run,
/// its extremes, and the total ascent and descent. Fails on a track without
/// points.
pub fn smooth(points: &Vec<TrackPoint>) -> (result: Result<SmoothingResult, TrackError>)
    ensures
        points.len() == 0 ==> result == Err::<SmoothingResult, TrackError>(TrackError::EmptyTrack),
        points.len() > 0 ==> result is Ok && result->Ok_0.describes(elevations(points@)),
        result is Ok ==> result->Ok_0.elevation_min <= result->Ok_0.elevation_max,
{
    if points.len() == 0 {
        return Err(TrackError::EmptyTrack);
    }
    let ghost raw = elevations(points@);
    let run = smoothed_run(points);
    let mut low: i64 = points[0].elevation;
    let mut high: i64 = points[0].elevation;
    let count: usize = if run.len() > 0 {
        run.len() - 1
    } else {
        0
    };
    proof {
        assert(scanned(raw) =~= widen(run@).take(count as int));
    }
    if count > 0 {
        low = lowest_of(&run, count);
        high = highest_of(&run, count);
        proof {
            lemma_lowest_below_highest(scanned(raw));
        }
    }
    let ascent: u64 = climb_of(&run, count);
    let descent: u64 = fall_of(&run, count);
    Ok(
        SmoothingResult {
            elevation_min: low,
            elevation_max: high,
            ascent_total: ascent,
            descent_total: descent,
            smoothed_elevations: run,
        },
    )
}

/// Whether all the values are the same.
pub open spec fn is_level(values: Seq<int>) -> bool {
    forall|i: int, j: int| 0 <= i < values.len() && 0 <= j < values.len() ==> values[i] == values[j]
}

/// A level run neither climbs nor falls, and its least is its greatest.
pub proof fn lemma_level_run(values: Seq<int>)
    requires
        is_level(values),
    ensures
        climb(values) == 0,
        fall(values) == 0,
        values.len() > 0 ==> lowest(values) == values[0] && highest(values) == values[0],
    decreases values.len(),
{
    if values.len() >= 2 {
        let shorter = values.drop_last();
        assert forall|i: int, j: int|
            0 <= i < shorter.len() && 0 <= j < shorter.len() implies shorter[i] == shorter[j] by {
            assert(shorter[i] == values[i]);
            assert(shorter[j] == values[j]);
        }
        lemma_level_run(shorter);
        assert(shorter[0] == values[0]);
        assert(values.last() == values[0]);
        assert(values[values.len() - 1] == values[values.len() - 2]);
    }
}

/// Smoothing a level track gives a level run.
pub proof fn lemma_level_track_stays_level(raw: Seq<int>)
    requires
        is_level(raw),
    ensures
        is_level(smoothed(raw)),
        is_level(scanned(raw)),
        scanned(raw).len() > 0 ==> scanned(raw)[0] == raw[0],
{
    let run = smoothed(raw);
    assert forall|i: int| 0 <= i < run.len() implies #[trigger] run[i] == raw[0] by {
        if raw.len() > 5 && 2 <= i <= raw.len() - 4 {
            assert(raw[i - 2] == raw[0]);
            assert(raw[i - 1] == raw[0]);
            assert(raw[i] == raw[0]);
            assert(raw[i + 1] == raw[0]);
            assert(raw[i + 2] == raw[0]);
            lemma_round_div_five(5 * raw[0], raw[0], raw[0]);
        }
    }
    let seen = scanned(raw);
    assert forall|i: int| 0 <= i < seen.len() implies #[trigger] seen[i] == raw[0] by {
        assert(seen[i] == run[i]);
    }
}

/// On a track whose points all have the same elevation, the total ascent and
/// the total descent are zero.
pub proof fn lemma_level_track_has_no_ascent(raw: Seq<int>)
    requires
        is_level(raw),
    ensures
        saturated(climb(scanned(raw))) == 0,
        saturated(fall(scanned(raw))) == 0,
{
    lemma_level_track_stays_level(raw);
    lemma_level_run(scanned(raw));
}

/// On a track whose points all have the same elevation, the two extremes
/// are that elevation.
pub proof fn lemma_level_track_has_equal_extremes(raw: Seq<int>)
    requires
        raw.len() > 0,
        is_level(raw),
    ensures
        elevation_min(raw) == raw[0],
        elevation_max(raw) == raw[0],
{
    lemma_level_track_stays_level(raw);
    lemma_level_run(scanned(raw));
}

/// The lowest elevation of a track is no greater than its highest.
pub proof fn lemma_extremes_are_ordered(raw: Seq<int>)
    requires
        raw.len() > 0,
    ensures
        elevation_min(raw) <= elevation_max(raw),
{
    if scanned(raw).len() > 0 {
        lemma_lowest_below_highest(scanned(raw));
    }
}

/// The extremes bound every elevation that is scanned.
pub proof fn lemma_extremes_bound_the_scanned(raw: Seq<int>, i: int)
    requires
        0 <= i < scanned(raw).len(),
    ensures
        elevation_min(raw) <= scanned(raw)[i] <= elevation_max(raw),
{
    lemma_lowest(scanned(raw));
    lemma_highest(scanned(raw));
}

/// On a track of more than five points, the first two and the last two
/// smoothed elevations are the first two and the last two raw ones.
pub proof fn lemma_smoothing_keeps_the_ends(raw: Seq<int>)
    requires
        raw.len() > 5,
    ensures
        smoothed(raw).len() == raw.len() - 1,
        smoothed(raw)[0] == raw[0],
        smoothed(raw)[1] == raw[1],
        smoothed(raw)[smoothed(raw).len() - 2] == raw[raw.len() - 2],
        smoothed(raw)[smoothed(raw).len() - 1] == raw[raw.len() - 1],
{
}

} // verus!
