//! Which legs of a track are measured, and their running total.
//!
//! A leg joins two neighbouring points. Every leg is measured but the last,
//! so a track of `n` points has `n - 2` measured legs, and none below three
//! points. Lengths are whole millimetres.

use crate::arith::{add_saturating, saturated};
use crate::track::TrackPoint;
use vstd::prelude::*;

verus! {

/// How many legs of a track of `points` points are measured.
pub open spec fn leg_count(points: int) -> int {
    if points >= 2 {
        points - 2
    } else {
        0
    }
}

/// The two ends of each measured leg, in order.
pub open spec fn measured_legs(points: Seq<TrackPoint>) -> Seq<(TrackPoint, TrackPoint)> {
    Seq::new(leg_count(points.len() as int) as nat, |i: int| (points[i], points[i + 1]))
}

/// The sum of a run of lengths.
pub open spec fn total_length(legs: Seq<u64>) -> int
    decreases legs.len(),
{
    if legs.len() == 0 {
        0
    } else {
        total_length(legs.drop_last()) + legs.last()
    }
}

/// The distance covered before each leg and after the last: element `i` is
/// the sum of the first `i` lengths, held at the maximum of a `u64` where it
/// does not fit.
pub open spec fn running_totals(legs: Seq<u64>) -> Seq<int> {
    Seq::new(legs.len() + 1, |i: int| saturated(total_length(legs.take(i))))
}

/// Whether no element is smaller than the one before it.
pub open spec fn non_decreasing(values: Seq<u64>) -> bool {
    forall|i: int, j: int| 0 <= i <= j < values.len() ==> values[i] <= values[j]
}

/// A longer run of legs is at least as long in total.
pub proof fn lemma_total_length_grows(legs: Seq<u64>, shorter: int, longer: int)
    requires
        0 <= shorter <= longer <= legs.len(),
    ensures
        0 <= total_length(legs.take(shorter)) <= total_length(legs.take(longer)),
    decreases longer - shorter, longer,
{
    if shorter == longer {
        if shorter > 0 {
            assert(legs.take(shorter).drop_last() =~= legs.take(shorter - 1));
            lemma_total_length_grows(legs, shorter - 1, shorter - 1);
        }
    } else {
        assert(legs.take(longer).drop_last() =~= legs.take(longer - 1));
        lemma_total_length_grows(legs, shorter, longer - 1);
    }
}

/// The running total of the lengths: zero first, then the distance covered
/// after each leg. It never decreases.
pub fn accumulate_distances(legs: &Vec<u64>) -> (totals: Vec<u64>)
    ensures
        totals@.len() == legs@.len() + 1,
        forall|i: int| 0 <= i < totals@.len() ==> #[trigger] totals@[i] == running_totals(legs@)[i],
        non_decreasing(totals@),
{
    let mut totals: Vec<u64> = Vec::new();
    let mut total: u64 = 0;
    totals.push(total);
    assert(legs@.take(0) =~= Seq::<u64>::empty());
    let mut i: usize = 0;
    while i < legs.len()
        invariant
            i <= legs.len(),
            totals@.len() == i + 1,
            total == saturated(total_length(legs@.take(i as int))),
            0 <= total_length(legs@.take(i as int)),
            forall|j: int| 0 <= j <= i ==> #[trigger] totals@[j] == saturated(total_length(legs@.take(j))),
        decreases legs.len() - i,
    {
        proof {
            assert(legs@.take(i + 1).drop_last() =~= legs@.take(i as int));
        }
        total = add_saturating(total, legs[i]);
        totals.push(total);
        i = i + 1;
    }
    proof {
        assert forall|a: int, b: int| 0 <= a <= b < totals@.len() implies totals@[a] <= totals@[b] by {
            lemma_total_length_grows(legs@, a, b);
        }
    }
    totals
}

/// The running totals start at zero, never decrease, and none exceeds the
/// last.
pub proof fn lemma_running_totals_never_decrease(legs: Seq<u64>)
    ensures
        running_totals(legs)[0] == 0,
        forall|i: int, j: int|
            #![trigger running_totals(legs)[i], running_totals(legs)[j]]
            0 <= i <= j <= legs.len() ==> 0 <= running_totals(legs)[i] <= running_totals(legs)[j],
{
    assert(legs.take(0) =~= Seq::<u64>::empty());
    assert forall|i: int, j: int|
        #![trigger running_totals(legs)[i], running_totals(legs)[j]]
        0 <= i <= j <= legs.len() implies 0 <= running_totals(legs)[i] <= running_totals(
        legs,
    )[j] by {
        lemma_total_length_grows(legs, i, j);
    }
}

/// Whether `lengths` holds, for each measured leg of `points` in order, a
/// length that `measure` may return for its two ends.
pub open spec fn measured_by<F: Fn(TrackPoint, TrackPoint) -> u64>(
    measure: &F,
    points: Seq<TrackPoint>,
    lengths: Seq<u64>,
) -> bool {
    &&& lengths.len() == measured_legs(points).len()
    &&& forall|i: int|
        0 <= i < lengths.len() ==> measure.ensures(measured_legs(points)[i], #[trigger] lengths[i])
}

/// Measures each leg of a track but the last with `measure`, in order.
pub fn measure_legs<F: Fn(TrackPoint, TrackPoint) -> u64>(
    points: &Vec<TrackPoint>,
    measure: &F,
) -> (lengths: Vec<u64>)
    requires
        forall|from: TrackPoint, to: TrackPoint| measure.requires((from, to)),
    ensures
        measured_by(measure, points@, lengths@),
{
    let mut lengths: Vec<u64> = Vec::new();
    if points.len() < 2 {
        return lengths;
    }
    let count: usize = points.len() - 2;
    let mut i: usize = 0;
    while i < count
        invariant
            i <= count,
            count == points.len() - 2,
            lengths@.len() == i,
            forall|from: TrackPoint, to: TrackPoint| measure.requires((from, to)),
            forall|j: int|
                0 <= j < i ==> measure.ensures((points@[j], points@[j + 1]), #[trigger] lengths@[j]),
        decreases count - i,
    {
        let length: u64 = measure(points[i], points[i + 1]);
        lengths.push(length);
        i = i + 1;
    }
    lengths
}

} // verus!
