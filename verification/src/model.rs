//! Normalized points, tracks, and segments.
//!
//! The point normalizer turns a raw string-valued point into a typed
//! `Point`: coordinates in nanodegrees, elevation in millimeters, and a
//! timestamp in whole seconds since the Unix epoch, applying the
//! timezone-recovery policy.

use vstd::prelude::*;
use crate::Error;
use crate::gpx;
use crate::parse::{parse_scaled, scaled_of};
use crate::tstamp::{parse_timestamp, ts_of, WarnState};
use crate::units::{meters_of, Meters};

verus! {

/// A normalized track point.
#[derive(Debug, Clone, Copy, PartialEq)]
pub struct Point {
    /// Latitude in nanodegrees.
    pub lat: i64,
    /// Longitude in nanodegrees.
    pub lon: i64,
    /// Elevation, absent when the point carries no fix (never coerced to
    /// zero).
    pub ele: Option<Meters>,
    /// Seconds since the Unix epoch.
    pub time: i64,
}

/// A segment of normalized points: one continuous recording interval.
#[derive(Debug, Clone, PartialEq)]
pub struct Segment {
    pub points: Vec<Point>,
}

impl View for Segment {
    type V = Seq<Point>;

    open spec fn view(&self) -> Seq<Point> {
        self.points@
    }
}

/// Views of a list of working-set segments.
pub open spec fn segments_view(ss: Seq<Segment>) -> Seq<Seq<Point>> {
    ss.map(|i: int, s: Segment| s@)
}

/// A named track of segments in the working set.
#[derive(Debug, Clone, PartialEq)]
pub struct Track {
    pub name: String,
    pub segments: Vec<Segment>,
}

/// Mathematical image of a working-set track.
#[verifier::ext_equal]
pub struct TrackView {
    pub name: Seq<char>,
    pub segments: Seq<Seq<Point>>,
}

impl View for Track {
    type V = TrackView;

    open spec fn view(&self) -> TrackView {
        TrackView { name: self.name@, segments: segments_view(self.segments@) }
    }
}

/// Views of the working set.
pub open spec fn tracks_view(ts: Seq<Track>) -> Seq<TrackView> {
    ts.map(|i: int, t: Track| t@)
}

/// Nanodegrees denoted by the coordinate string `s`, or `None` when `s`
/// is not decimal degrees or falls outside the fixed-point range.
pub open spec fn coord_of(s: Seq<char>) -> Option<int> {
    match scaled_of(s, 9) {
        Some(v) => if -(i64::MAX as int) <= v <= i64::MAX as int {
            Some(v)
        } else {
            None
        },
        None => None,
    }
}

/// Parses a coordinate string (decimal degrees) into nanodegrees.
pub fn parse_coord(s: &str) -> (r: Result<i64, Error>)
    ensures
        match coord_of(s@) {
            Some(v) => r == Ok::<i64, Error>(v as i64),
            None => r == Err::<i64, Error>(Error::InvalidCoordinate),
        },
{
    match parse_scaled(s, 9) {
        Some((neg, mag)) => {
            if mag <= i64::MAX as u64 {
                if neg {
                    Ok(-(mag as i64))
                } else {
                    Ok(mag as i64)
                }
            } else {
                Err(Error::InvalidCoordinate)
            }
        }
        None => Err(Error::InvalidCoordinate),
    }
}

/// Normalization of one raw point: latitude, then longitude, then the
/// optional elevation, then the timestamp, each failing with its own
/// error kind. The bool is true when the timestamp needed the
/// assumed-UTC retry.
pub open spec fn norm_point(p: gpx::PointView) -> Result<(Point, bool), Error> {
    match coord_of(p.latitude) {
        None => Err(Error::InvalidCoordinate),
        Some(lat) => match coord_of(p.longitude) {
            None => Err(Error::InvalidCoordinate),
            Some(lon) => match (match p.elevation {
                None => Ok(None),
                Some(es) => match meters_of(es) {
                    Some(v) => Ok(Some(Meters(v as i64))),
                    None => Err(Error::InvalidElevation),
                },
            }) {
                Err(e) => Err(e),
                Ok(ele) => match ts_of(p.time) {
                    None => Err(Error::InvalidTimestamp),
                    Some(t) => Ok(
                        (Point { lat: lat as i64, lon: lon as i64, ele: ele, time: t.0 }, t.1),
                    ),
                },
            },
        },
    }
}

impl Point {
    /// Normalizes a raw point record, threading the run's timezone
    /// warning state.
    pub fn new(raw: &gpx::Point, ws: &mut WarnState) -> (r: Result<Point, Error>)
        ensures
            match norm_point(raw@) {
                Ok(pu) => r == Ok::<Point, Error>(pu.0) && final(ws).warned == (old(ws).warned
                    || pu.1),
                Err(e) => r == Err::<Point, Error>(e) && final(ws).warned == old(ws).warned,
            },
    {
        let lat = match parse_coord(raw.latitude.as_str()) {
            Ok(v) => v,
            Err(e) => {
                return Err(e);
            }
        };
        let lon = match parse_coord(raw.longitude.as_str()) {
            Ok(v) => v,
            Err(e) => {
                return Err(e);
            }
        };
        let ele = match &raw.elevation {
            None => None,
            Some(es) => match Meters::from_str(es.as_str()) {
                Ok(m) => Some(m),
                Err(e) => {
                    return Err(e);
                }
            },
        };
        let time = match parse_timestamp(raw.time.as_str(), ws) {
            Ok(t) => t,
            Err(e) => {
                return Err(e);
            }
        };
        Ok(Point { lat, lon, ele, time })
    }
}

} // verus!
