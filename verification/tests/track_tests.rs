use bicit::track::LoadError;
use bicit::track::Segment;
use bicit::track::Track;
use bicit::track::TrackPoint;
use bicit::track::analyze;
use bicit::track::decimated_pair_indices;

fn pt(dist_mm: u64, elev_m: Option<i64>, time_s: Option<i64>) -> TrackPoint {
    TrackPoint {
        lon_udeg: 10_000_000,
        lat_udeg: 45_000_000,
        dist_prev_mm: dist_mm,
        elevation_mm: elev_m.map(|e| e * 1000),
        time_s,
    }
}

/// Eleven points: one decimated pair (indices 0 and 10).
fn eleven_point_segment(pair_dist_mm: u64, e0: i64, e10: i64, t0: i64, t10: i64) -> Segment {
    let mut points = Vec::new();
    points.push(pt(0, Some(e0), Some(t0)));
    for _ in 0..9 {
        points.push(pt(1_000_000, None, None));
    }
    points.push(pt(1_000_000, Some(e10), Some(t10)));
    Segment { points, pair_dist_mm: vec![pair_dist_mm] }
}

#[test]
fn empty_track_yields_zero_stats() {
    let tracks = vec![Track { name: None, segments: Vec::new() }];
    let st = analyze(&tracks).unwrap();
    assert_eq!(st.total_distance_mm, 0);
    assert_eq!(st.total_time_s, 0);
    assert_eq!(st.moving_time_s, 0);
    assert_eq!(st.uphill_mm, 0);
    assert_eq!(st.downhill_mm, 0);
    assert!(st.profile.is_empty());
    assert!(st.coords.is_empty());
}

#[test]
fn total_distance_sums_every_point() {
    let seg = eleven_point_segment(10_000_000, 100, 120, 0, 100);
    let tracks = vec![Track { name: None, segments: vec![seg] }];
    let st = analyze(&tracks).unwrap();
    // Ten raw steps of one metre each.
    assert_eq!(st.total_distance_mm, 10_000_000);
}

#[test]
fn one_pair_time_speed_and_climb() {
    // Pair distance 10 km over 100 s: 360 km/h, clearly moving.
    let seg = eleven_point_segment(10_000_000_000, 100, 120, 0, 100);
    let tracks = vec![Track { name: None, segments: vec![seg] }];
    let st = analyze(&tracks).unwrap();
    assert_eq!(st.total_time_s, 100);
    assert_eq!(st.moving_time_s, 100);
    assert_eq!(st.speed_max_d_m, 10_000_000);
    assert_eq!(st.speed_max_s, 100);
    assert_eq!(st.uphill_mm, 20_000);
    assert_eq!(st.downhill_mm, 0);
    // Min and max track the first point of the pair.
    assert_eq!(st.elevation_max_mm, 100_000);
    assert_eq!(st.elevation_min_mm, 100_000);
    assert_eq!(st.profile.len(), 1);
    assert_eq!(st.profile[0].dist_mm, 10_000_000_000);
    assert_eq!(st.profile[0].elev_mm, 100_000);
}

#[test]
fn slow_pair_does_not_count_as_moving() {
    // 10 m over 100 s: 0.36 km/h, under the moving threshold.
    let seg = eleven_point_segment(10_000, 100, 100, 0, 100);
    let tracks = vec![Track { name: None, segments: vec![seg] }];
    let st = analyze(&tracks).unwrap();
    assert_eq!(st.total_time_s, 100);
    assert_eq!(st.moving_time_s, 0);
}

#[test]
fn non_positive_elapsed_time_is_skipped() {
    let seg = eleven_point_segment(10_000_000, 100, 100, 100, 100);
    let tracks = vec![Track { name: None, segments: vec![seg] }];
    let st = analyze(&tracks).unwrap();
    assert_eq!(st.total_time_s, 0);
    assert_eq!(st.moving_time_s, 0);
}

#[test]
fn downhill_accumulates_negative_deltas() {
    let seg = eleven_point_segment(10_000_000, 150, 120, 0, 100);
    let tracks = vec![Track { name: None, segments: vec![seg] }];
    let st = analyze(&tracks).unwrap();
    assert_eq!(st.uphill_mm, 0);
    assert_eq!(st.downhill_mm, 30_000);
}

#[test]
fn moving_time_never_exceeds_total_time() {
    // A mixed load: one fast pair, one slow pair, one with no time.
    let segs = vec![
        eleven_point_segment(10_000_000_000, 100, 120, 0, 100),
        eleven_point_segment(10_000, 100, 100, 200, 300),
        eleven_point_segment(5_000_000, 100, 110, 0, 0),
    ];
    let tracks = vec![Track { name: None, segments: segs }];
    let st = analyze(&tracks).unwrap();
    assert!(st.moving_time_s <= st.total_time_s);
}

#[test]
fn profile_samples_lie_between_extremes() {
    let segs = vec![
        eleven_point_segment(10_000_000, 100, 200, 0, 100),
        eleven_point_segment(10_000_000, 200, 50, 200, 300),
        eleven_point_segment(10_000_000, 50, 100, 400, 500),
    ];
    let tracks = vec![Track { name: None, segments: segs }];
    let st = analyze(&tracks).unwrap();
    assert!(!st.profile.is_empty());
    for s in &st.profile {
        assert!(st.elevation_min_mm <= s.elev_mm);
        assert!(s.elev_mm <= st.elevation_max_mm);
    }
}

#[test]
fn coords_keep_every_raw_point() {
    let seg = eleven_point_segment(10_000_000, 100, 120, 0, 100);
    let tracks = vec![Track { name: None, segments: vec![seg] }];
    let st = analyze(&tracks).unwrap();
    assert_eq!(st.coords.len(), 11);
    assert_eq!(st.coords[0].lon_udeg, 10_000_000);
    assert_eq!(st.coords[0].lat_udeg, 45_000_000);
}

#[test]
fn mismatched_pair_distances_are_rejected() {
    let mut seg = eleven_point_segment(10_000_000, 100, 120, 0, 100);
    seg.pair_dist_mm.push(1);
    let tracks = vec![Track { name: None, segments: vec![seg] }];
    match analyze(&tracks) {
        Err(LoadError::LimitsExceeded) => {}
        Ok(_) => panic!("expected a limits error"),
    }
}

#[test]
fn out_of_range_elevation_is_rejected() {
    let mut seg = eleven_point_segment(10_000_000, 100, 120, 0, 100);
    seg.points[0].elevation_mm = Some(200_000_000);
    let tracks = vec![Track { name: None, segments: vec![seg] }];
    assert!(analyze(&tracks).is_err());
}

#[test]
fn fastest_pair_wins_speed_max() {
    // 1 km in 100 s (36 km/h) against 2 km in 100 s (72 km/h).
    let segs = vec![
        eleven_point_segment(1_000_000, 100, 100, 0, 100),
        eleven_point_segment(2_000_000, 100, 100, 200, 300),
    ];
    let tracks = vec![Track { name: None, segments: segs }];
    let st = analyze(&tracks).unwrap();
    assert_eq!(st.speed_max_d_m, 2_000);
    assert_eq!(st.speed_max_s, 100);
}

#[test]
fn profile_distance_accumulates_across_segments() {
    let segs = vec![
        eleven_point_segment(1_000_000, 100, 110, 0, 100),
        eleven_point_segment(2_000_000, 110, 120, 200, 300),
    ];
    let tracks = vec![Track { name: None, segments: segs }];
    let st = analyze(&tracks).unwrap();
    assert_eq!(st.profile.len(), 2);
    assert_eq!(st.profile[0].dist_mm, 1_000_000);
    assert_eq!(st.profile[1].dist_mm, 3_000_000);
}

#[test]
fn decimation_pairs_every_tenth_point() {
    assert_eq!(decimated_pair_indices(0), vec![]);
    assert_eq!(decimated_pair_indices(10), vec![]);
    assert_eq!(decimated_pair_indices(11), vec![(0, 10)]);
    assert_eq!(decimated_pair_indices(25), vec![(0, 10), (10, 20)]);
}
