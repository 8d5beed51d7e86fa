use gpx_traite::arith::add_saturating;
use gpx_traite::error::TrackError;
use gpx_traite::smoothing::{smooth, SmoothingResult};
use gpx_traite::track::TrackPoint;

fn track_of_elevations(elevations: &[i64]) -> Vec<TrackPoint> {
    elevations
        .iter()
        .map(|&elevation| TrackPoint { latitude: 0, longitude: 0, elevation })
        .collect()
}

fn smoothing_of(elevations: &[i64]) -> SmoothingResult {
    smooth(&track_of_elevations(elevations)).unwrap()
}

#[test]
fn smoothing_an_empty_track_fails() {
    assert_eq!(smooth(&Vec::new()), Err(TrackError::EmptyTrack));
}

#[test]
fn smoothing_a_sawtooth() {
    let found = smoothing_of(&[10_000, 12_000, 9_000, 14_000, 8_000, 13_000, 11_000]);
    assert_eq!(
        found,
        SmoothingResult {
            elevation_min: 10_000,
            elevation_max: 13_000,
            ascent_total: 4_400,
            descent_total: 1_400,
            smoothed_elevations: vec![10_000, 12_000, 10_600, 11_200, 13_000, 11_000],
        }
    );
}

#[test]
fn smoothing_keeps_the_first_two_and_last_two() {
    let raw = [5, 900, -30, 47, 1_000, 3, 77, -8, 650];
    let found = smoothing_of(&raw);
    let run = &found.smoothed_elevations;
    assert_eq!(run.len(), raw.len() - 1);
    assert_eq!(run[0], raw[0]);
    assert_eq!(run[1], raw[1]);
    assert_eq!(run[run.len() - 2], raw[raw.len() - 2]);
    assert_eq!(run[run.len() - 1], raw[raw.len() - 1]);
}

#[test]
fn smoothing_rounds_the_mean_to_the_nearest() {
    let found = smoothing_of(&[1, 1, 2, 2, 2, 0, 0]);
    assert_eq!(found.smoothed_elevations, vec![1, 1, 2, 1, 0, 0]);
    let found = smoothing_of(&[-1, -1, -2, -2, -2, 0, 0]);
    assert_eq!(found.smoothed_elevations, vec![-1, -1, -2, -1, 0, 0]);
}

#[test]
fn smoothing_six_points_has_one_mean() {
    let found = smoothing_of(&[10, 20, 30, 40, 50, 60]);
    assert_eq!(found.smoothed_elevations, vec![10, 20, 30, 50, 60]);
    assert_eq!(found.elevation_min, 10);
    assert_eq!(found.elevation_max, 50);
    assert_eq!(found.ascent_total, 40);
    assert_eq!(found.descent_total, 0);
}

#[test]
fn smoothing_a_short_track_drops_the_last_point() {
    let found = smoothing_of(&[40, 10, 30, 20, 99]);
    assert_eq!(found.smoothed_elevations, vec![40, 10, 30, 20]);
    assert_eq!(found.elevation_min, 10);
    assert_eq!(found.elevation_max, 40);
    assert_eq!(found.ascent_total, 20);
    assert_eq!(found.descent_total, 30);
}

#[test]
fn smoothing_one_point_scans_nothing() {
    let found = smoothing_of(&[123]);
    assert_eq!(
        found,
        SmoothingResult {
            elevation_min: 123,
            elevation_max: 123,
            ascent_total: 0,
            descent_total: 0,
            smoothed_elevations: vec![],
        }
    );
}

#[test]
fn smoothing_two_points_scans_nothing() {
    let found = smoothing_of(&[-7, 900]);
    assert_eq!(found.smoothed_elevations, vec![-7]);
    assert_eq!(found.elevation_min, -7);
    assert_eq!(found.elevation_max, -7);
    assert_eq!(found.ascent_total, 0);
    assert_eq!(found.descent_total, 0);
}

#[test]
fn smoothing_three_points_scans_the_first() {
    let found = smoothing_of(&[50, 10, 900]);
    assert_eq!(found.smoothed_elevations, vec![50, 10]);
    assert_eq!(found.elevation_min, 50);
    assert_eq!(found.elevation_max, 50);
    assert_eq!(found.ascent_total, 0);
    assert_eq!(found.descent_total, 0);
}

#[test]
fn level_track_has_no_ascent_and_no_descent() {
    for length in 6..12 {
        let found = smoothing_of(&vec![271_828; length]);
        assert_eq!(found.ascent_total, 0);
        assert_eq!(found.descent_total, 0);
        assert_eq!(found.elevation_min, 271_828);
        assert_eq!(found.elevation_max, 271_828);
    }
}

#[test]
fn extremes_are_ordered_and_bound_what_is_scanned() {
    let tracks: [&[i64]; 5] = [
        &[3],
        &[3, -4],
        &[9, 2, 7, 1],
        &[10_000, 12_000, 9_000, 14_000, 8_000, 13_000, 11_000],
        &[i64::MAX, i64::MIN, i64::MAX, i64::MIN, 0, 1, 2, 3],
    ];
    for raw in tracks {
        let found = smoothing_of(raw);
        assert!(found.elevation_min <= found.elevation_max);
        let run = &found.smoothed_elevations;
        for value in run.iter().take(run.len().saturating_sub(1)) {
            assert!(found.elevation_min <= *value && *value <= found.elevation_max);
        }
    }
}

#[test]
fn smoothing_the_widest_swings_does_not_overflow() {
    let found = smoothing_of(&[i64::MIN, i64::MAX, i64::MIN, i64::MAX, 0]);
    assert_eq!(found.smoothed_elevations, vec![i64::MIN, i64::MAX, i64::MIN, i64::MAX]);
    assert_eq!(found.elevation_min, i64::MIN);
    assert_eq!(found.elevation_max, i64::MAX);
    assert_eq!(found.ascent_total, u64::MAX);
    assert_eq!(found.descent_total, u64::MAX);
    let found = smoothing_of(&[i64::MAX; 9]);
    assert_eq!(found.smoothed_elevations, vec![i64::MAX; 8]);
    let found = smoothing_of(&[i64::MIN; 9]);
    assert_eq!(found.smoothed_elevations, vec![i64::MIN; 8]);
}

#[test]
fn totals_stay_at_the_maximum() {
    assert_eq!(add_saturating(3, 4), 7);
    assert_eq!(add_saturating(u64::MAX, 1), u64::MAX);
    assert_eq!(add_saturating(u64::MAX - 1, 1), u64::MAX);
    assert_eq!(add_saturating(u64::MAX, u64::MAX), u64::MAX);
}
