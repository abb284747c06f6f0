use gpx_stats::analyze::SegmentAnalyzer;
use gpx_stats::model::Point;
use gpx_stats::units::Meters;
use gpx_stats::Error;

fn pt(time: i64, ele: Option<i64>) -> Point {
    Point { lat: 0, lon: 0, ele: ele.map(Meters), time }
}

fn analyzer() -> SegmentAnalyzer {
    // Defaults: min_distance 1 m, min_elevation_gain 10 m, standstill 10 s.
    SegmentAnalyzer::new(Meters(1000), Meters(10000), 10)
}

#[test]
fn empty_segment_reports_no_stats() {
    let a = analyzer();
    assert!(a.finish().is_none());
}

#[test]
fn single_point_synthesizes_zero_delta() {
    let mut a = analyzer();
    a.step(pt(100, None), None).unwrap();
    let st = a.finish().unwrap();
    assert_eq!(st.points, 1);
    assert_eq!(st.elapsed_secs, 0);
    assert_eq!(st.moving_secs, 0);
    assert_eq!(st.delta_mean_ms, 0);
    assert_eq!(st.delta_median_secs, 0);
    assert_eq!(st.delta_mode_secs, 0);
}

#[test]
fn delta_statistics_mean_median_mode() {
    // Deltas 1 s, 1 s, 2 s, 5 s: mean 2.25 s, median 1 s (lower middle of
    // four sorted values), mode 1 s.
    let mut a = analyzer();
    let times = [0i64, 1, 2, 4, 9];
    for (i, t) in times.iter().enumerate() {
        let d = if i == 0 { None } else { Some(Meters(0)) };
        a.step(pt(*t, None), d).unwrap();
    }
    let st = a.finish().unwrap();
    assert_eq!(st.delta_mean_ms, 2250);
    assert_eq!(st.delta_median_secs, 1);
    assert_eq!(st.delta_mode_secs, 1);
    assert_eq!(st.elapsed_secs, 9);
}

#[test]
fn mode_smallest_wins_ties() {
    // Deltas 3 s, 1 s, 1 s, 3 s: counts tie, the smaller delta wins.
    let mut a = analyzer();
    let times = [0i64, 3, 4, 5, 8];
    for (i, t) in times.iter().enumerate() {
        let d = if i == 0 { None } else { Some(Meters(0)) };
        a.step(pt(*t, None), d).unwrap();
    }
    let st = a.finish().unwrap();
    assert_eq!(st.delta_mode_secs, 1);
    // Sorted deltas [1, 1, 3, 3]: the lower middle is 1.
    assert_eq!(st.delta_median_secs, 1);
}

#[test]
fn identical_timestamps_do_not_crash() {
    // Zero elapsed time between reference and point: policy is "moving".
    let mut a = analyzer();
    a.step(pt(50, None), None).unwrap();
    a.step(pt(50, None), Some(Meters(5000))).unwrap();
    let st = a.finish().unwrap();
    assert_eq!(st.elapsed_secs, 0);
    assert_eq!(st.moving_secs, 0);
    assert_eq!(st.dist_total, 5000);
}

#[test]
fn time_going_backwards_is_fatal() {
    let mut a = analyzer();
    a.step(pt(100, None), None).unwrap();
    let r = a.step(pt(99, None), Some(Meters(10000)));
    assert_eq!(r, Err(Error::TimeWentBackwards));
}

#[test]
fn constant_speed_moving_time_equals_elapsed() {
    // 100 m every 10 s: 10 m/s, far above 1 m / 10 s.
    let mut a = analyzer();
    a.step(pt(0, None), None).unwrap();
    a.step(pt(10, None), Some(Meters(100_000))).unwrap();
    a.step(pt(20, None), Some(Meters(100_000))).unwrap();
    let st = a.finish().unwrap();
    assert_eq!(st.elapsed_secs, 20);
    assert_eq!(st.moving_secs, 20);
    assert_eq!(st.dist_total, 200_000);
}

#[test]
fn slow_movement_does_not_count_as_moving() {
    // 2 m in 100 s meets min_distance but is far below 0.1 m/s.
    let mut a = analyzer();
    a.step(pt(0, None), None).unwrap();
    a.step(pt(100, None), Some(Meters(2000))).unwrap();
    let st = a.finish().unwrap();
    assert_eq!(st.elapsed_secs, 100);
    assert_eq!(st.moving_secs, 0);
    assert_eq!(st.dist_total, 2000);
}

#[test]
fn short_hops_are_smoothed_away() {
    // 0.5 m hops stay below min_distance: no distance accumulates and the
    // reference point does not advance.
    let mut a = analyzer();
    a.step(pt(0, None), None).unwrap();
    a.step(pt(10, None), Some(Meters(500))).unwrap();
    assert_eq!(a.reference().unwrap().time, 0);
    let st = a.finish().unwrap();
    assert_eq!(st.dist_total, 0);
    assert_eq!(st.moving_secs, 0);
}

#[test]
fn single_elevation_value_yields_flat_range_and_no_gain() {
    let mut a = analyzer();
    for i in 0..4i64 {
        let d = if i == 0 { None } else { Some(Meters(100_000)) };
        a.step(pt(i * 10, Some(250_000)), d).unwrap();
    }
    let st = a.finish().unwrap();
    assert_eq!(st.ele_start, Some(Meters(250_000)));
    assert_eq!(st.ele_min, Some(Meters(250_000)));
    assert_eq!(st.ele_max, Some(Meters(250_000)));
    assert_eq!(st.ele_end, Some(Meters(250_000)));
    assert_eq!(st.ele_gain, 0);
}

#[test]
fn descending_elevations_yield_no_gain() {
    let eles = [500_000i64, 400_000, 150_000, 20_000];
    let mut a = analyzer();
    for (i, e) in eles.iter().enumerate() {
        let d = if i == 0 { None } else { Some(Meters(100_000)) };
        a.step(pt(i as i64 * 10, Some(*e)), d).unwrap();
    }
    let st = a.finish().unwrap();
    assert_eq!(st.ele_gain, 0);
    assert_eq!(st.ele_min, Some(Meters(20_000)));
    assert_eq!(st.ele_max, Some(Meters(500_000)));
    assert_eq!(st.ele_start, Some(Meters(500_000)));
    assert_eq!(st.ele_end, Some(Meters(20_000)));
}

#[test]
fn small_elevation_changes_are_gated_out_of_gain() {
    // +5 m is below the 10 m gate; +11 m from the last accepted reading
    // counts in full.
    let mut a = analyzer();
    a.step(pt(0, Some(100_000)), None).unwrap();
    a.step(pt(10, Some(105_000)), Some(Meters(100_000))).unwrap();
    a.step(pt(20, Some(111_000)), Some(Meters(100_000))).unwrap();
    let st = a.finish().unwrap();
    assert_eq!(st.ele_gain, 11_000);
    assert_eq!(st.ele_max, Some(Meters(111_000)));
}

#[test]
fn rejected_point_does_not_advance_elevation_reference() {
    // The second point fails distance smoothing, so its big climb cannot
    // enter the gain; range tracking still sees it.
    let mut a = analyzer();
    a.step(pt(0, Some(100_000)), None).unwrap();
    a.step(pt(10, Some(200_000)), Some(Meters(100))).unwrap();
    let st = a.finish().unwrap();
    assert_eq!(st.ele_gain, 0);
    assert_eq!(st.ele_max, Some(Meters(200_000)));
    assert_eq!(st.ele_end, Some(Meters(200_000)));
}
