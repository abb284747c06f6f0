use gpx_stats::assemble::{assemble, Config};
use gpx_stats::gpx;
use gpx_stats::model::Point;
use gpx_stats::tstamp::{parse_timestamp, WarnState};
use gpx_stats::units::Meters;
use gpx_stats::Error;

fn cfg() -> Config {
    Config {
        min_elevation_gain: Meters(10_000),
        min_distance: Meters(1000),
        standstill_secs: 10,
        join_segments: false,
        join_tracks: false,
        filter_zero_ele: false,
        filter_ele_below: None,
    }
}

fn raw_point(lat: &str, lon: &str, ele: Option<&str>, time: &str) -> gpx::Point {
    gpx::Point {
        elevation: ele.map(|e| e.to_owned()),
        time: time.to_owned(),
        latitude: lat.to_owned(),
        longitude: lon.to_owned(),
    }
}

fn one_file(track_name: Option<&str>, meta: Option<&str>, points: Vec<gpx::Point>) -> gpx::Gpx {
    gpx::Gpx {
        metadata: meta.map(|n| gpx::Metadata { name: Some(n.to_owned()) }),
        tracks: vec![gpx::Track {
            name: track_name.map(|n| n.to_owned()),
            segments: vec![gpx::Segment { points }],
        }],
        version: "1.1".to_owned(),
        creator: "unit-tests".to_owned(),
    }
}

#[test]
fn normalizes_a_point() {
    let mut ws = WarnState::new();
    let raw = raw_point("47.5", "-122.25", Some("100.5"), "2021-01-01T10:00:00Z");
    let p = Point::new(&raw, &mut ws).unwrap();
    assert_eq!(p.lat, 47_500_000_000);
    assert_eq!(p.lon, -122_250_000_000);
    assert_eq!(p.ele, Some(Meters(100_500)));
    assert_eq!(p.time, 1_609_495_200);
    assert!(!ws.warned);
}

#[test]
fn timestamp_missing_offset_is_retried_as_utc() {
    let mut ws = WarnState::new();
    let with_z = parse_timestamp("2021-01-01T10:00:00Z", &mut ws).unwrap();
    assert!(!ws.warned);
    let without = parse_timestamp("2021-01-01T10:00:00", &mut ws).unwrap();
    assert!(ws.warned);
    assert_eq!(with_z, without);
    assert_eq!(without, 1_609_495_200);
}

#[test]
fn timezone_warning_state_moves_only_once() {
    let mut ws = WarnState::new();
    parse_timestamp("2021-01-01T10:00:00", &mut ws).unwrap();
    assert!(ws.warned);
    parse_timestamp("2021-01-01T11:00:00", &mut ws).unwrap();
    assert!(ws.warned);
}

#[test]
fn timestamp_epoch_second() {
    let mut ws = WarnState::new();
    assert_eq!(parse_timestamp("1970-01-01T00:00:01Z", &mut ws), Ok(1));
}

#[test]
fn invalid_timestamp_is_rejected() {
    let mut ws = WarnState::new();
    assert_eq!(
        parse_timestamp("yesterday", &mut ws),
        Err(Error::InvalidTimestamp)
    );
    assert!(!ws.warned);
}

#[test]
fn zero_elevation_dropped_only_under_filter() {
    let points = vec![
        raw_point("1.0", "2.0", Some("0"), "2021-01-01T00:00:00Z"),
        raw_point("1.1", "2.1", Some("5"), "2021-01-01T00:00:10Z"),
    ];
    let files = vec![one_file(Some("t"), None, points)];

    let mut ws = WarnState::new();
    let mut c = cfg();
    c.filter_zero_ele = true;
    let tracks = assemble(&files, &c, &mut ws).unwrap();
    assert_eq!(tracks[0].segments[0].points.len(), 1);
    assert_eq!(tracks[0].segments[0].points[0].ele, Some(Meters(5000)));

    let mut ws2 = WarnState::new();
    let tracks2 = assemble(&files, &cfg(), &mut ws2).unwrap();
    assert_eq!(tracks2[0].segments[0].points.len(), 2);
}

#[test]
fn low_elevation_filter_keeps_points_without_elevation() {
    let points = vec![
        raw_point("1.0", "2.0", Some("-50"), "2021-01-01T00:00:00Z"),
        raw_point("1.1", "2.1", None, "2021-01-01T00:00:10Z"),
        raw_point("1.2", "2.2", Some("150"), "2021-01-01T00:00:20Z"),
    ];
    let files = vec![one_file(Some("t"), None, points)];
    let mut ws = WarnState::new();
    let mut c = cfg();
    c.filter_ele_below = Some(Meters(100_000));
    let tracks = assemble(&files, &c, &mut ws).unwrap();
    let pts = &tracks[0].segments[0].points;
    assert_eq!(pts.len(), 2);
    assert_eq!(pts[0].ele, None);
    assert_eq!(pts[1].ele, Some(Meters(150_000)));
}

#[test]
fn track_name_precedence() {
    let f1 = one_file(Some("own-name"), Some("meta-name"), vec![]);
    let f2 = one_file(None, Some("meta-name"), vec![]);
    let f3 = one_file(None, None, vec![]);
    let mut ws = WarnState::new();
    let tracks = assemble(&vec![f1, f2, f3], &cfg(), &mut ws).unwrap();
    assert_eq!(tracks.len(), 3);
    assert_eq!(tracks[0].name, "own-name");
    assert_eq!(tracks[1].name, "meta-name");
    assert_eq!(tracks[2].name, "unnamed");
}

#[test]
fn join_tracks_collapses_everything() {
    let p1 = raw_point("1.0", "2.0", None, "2021-01-01T00:00:00Z");
    let p2 = raw_point("1.1", "2.1", None, "2021-01-01T00:00:10Z");
    let f1 = one_file(Some("a"), Some("first"), vec![p1]);
    let f2 = one_file(Some("b"), Some("second"), vec![p2]);
    let mut ws = WarnState::new();
    let mut c = cfg();
    c.join_tracks = true;
    let tracks = assemble(&vec![f1, f2], &c, &mut ws).unwrap();
    assert_eq!(tracks.len(), 1);
    assert_eq!(tracks[0].name, "first");
    assert_eq!(tracks[0].segments.len(), 1);
    assert_eq!(tracks[0].segments[0].points.len(), 2);
    assert_eq!(tracks[0].segments[0].points[0].time, 1_609_459_200);
}

#[test]
fn join_segments_keeps_tracks_apart() {
    let p1 = raw_point("1.0", "2.0", None, "2021-01-01T00:00:00Z");
    let p2 = raw_point("1.1", "2.1", None, "2021-01-01T00:00:10Z");
    let f = gpx::Gpx {
        metadata: None,
        tracks: vec![gpx::Track {
            name: Some("two-seg".to_owned()),
            segments: vec![
                gpx::Segment { points: vec![p1] },
                gpx::Segment { points: vec![p2] },
            ],
        }],
        version: "1.1".to_owned(),
        creator: "unit-tests".to_owned(),
    };
    let mut ws = WarnState::new();
    let mut c = cfg();
    c.join_segments = true;
    let tracks = assemble(&vec![f], &c, &mut ws).unwrap();
    assert_eq!(tracks.len(), 1);
    assert_eq!(tracks[0].segments.len(), 1);
    assert_eq!(tracks[0].segments[0].points.len(), 2);
}

#[test]
fn empty_track_stays_segmentless_under_join_segments() {
    let f = one_file(Some("empty"), None, vec![]);
    let mut ws = WarnState::new();
    let mut c = cfg();
    c.join_segments = true;
    let tracks = assemble(&vec![f], &c, &mut ws).unwrap();
    // The one raw segment is empty but present, so one empty segment stays.
    assert_eq!(tracks.len(), 1);
    assert_eq!(tracks[0].segments.len(), 1);
    assert_eq!(tracks[0].segments[0].points.len(), 0);
}

#[test]
fn bad_coordinate_aborts_assembly() {
    let points = vec![raw_point("north", "2.0", None, "2021-01-01T00:00:00Z")];
    let files = vec![one_file(Some("t"), None, points)];
    let mut ws = WarnState::new();
    assert_eq!(
        assemble(&files, &cfg(), &mut ws),
        Err(Error::InvalidCoordinate)
    );
}

#[test]
fn bad_elevation_aborts_assembly() {
    let points = vec![raw_point("1.0", "2.0", Some("very high"), "2021-01-01T00:00:00Z")];
    let files = vec![one_file(Some("t"), None, points)];
    let mut ws = WarnState::new();
    assert_eq!(
        assemble(&files, &cfg(), &mut ws),
        Err(Error::InvalidElevation)
    );
}

#[test]
fn assembly_records_utc_assumption() {
    let points = vec![raw_point("1.0", "2.0", None, "2021-01-01T00:00:00")];
    let files = vec![one_file(Some("t"), None, points)];
    let mut ws = WarnState::new();
    assemble(&files, &cfg(), &mut ws).unwrap();
    assert!(ws.warned);
}
