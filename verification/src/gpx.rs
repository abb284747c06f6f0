//! Raw track-log records, as the structural markup parser hands them over.
//!
//! Every leaf value is a string; the point normalizer turns them into
//! typed values. The records are ephemeral: they exist only between
//! parsing an input file and assembling the working set.

use vstd::prelude::*;

verus! {

/// A raw track point: string-valued coordinates, optional elevation, and
/// a timestamp.
pub struct Point {
    pub elevation: Option<String>,
    pub time: String,
    pub latitude: String,
    pub longitude: String,
}

/// Mathematical image of a raw point.
#[verifier::ext_equal]
pub struct PointView {
    pub elevation: Option<Seq<char>>,
    pub time: Seq<char>,
    pub latitude: Seq<char>,
    pub longitude: Seq<char>,
}

impl View for Point {
    type V = PointView;

    open spec fn view(&self) -> PointView {
        PointView {
            elevation: match self.elevation {
                Some(e) => Some(e@),
                None => None,
            },
            time: self.time@,
            latitude: self.latitude@,
            longitude: self.longitude@,
        }
    }
}

/// Views of a list of raw points.
pub open spec fn points_view(ps: Seq<Point>) -> Seq<PointView> {
    ps.map(|i: int, p: Point| p@)
}

/// A raw segment: a run of points recorded without a gap.
pub struct Segment {
    pub points: Vec<Point>,
}

impl View for Segment {
    type V = Seq<PointView>;

    open spec fn view(&self) -> Seq<PointView> {
        points_view(self.points@)
    }
}

/// Views of a list of raw segments.
pub open spec fn segments_view(ss: Seq<Segment>) -> Seq<Seq<PointView>> {
    ss.map(|i: int, s: Segment| s@)
}

/// A raw track: an optional name and its segments.
pub struct Track {
    pub name: Option<String>,
    pub segments: Vec<Segment>,
}

/// Mathematical image of a raw track.
#[verifier::ext_equal]
pub struct TrackView {
    pub name: Option<Seq<char>>,
    pub segments: Seq<Seq<PointView>>,
}

impl View for Track {
    type V = TrackView;

    open spec fn view(&self) -> TrackView {
        TrackView {
            name: match self.name {
                Some(n) => Some(n@),
                None => None,
            },
            segments: segments_view(self.segments@),
        }
    }
}

/// Views of a list of raw tracks.
pub open spec fn tracks_view(ts: Seq<Track>) -> Seq<TrackView> {
    ts.map(|i: int, t: Track| t@)
}

/// Views of a list of parsed files.
pub open spec fn gpxs_view(fs: Seq<Gpx>) -> Seq<GpxView> {
    fs.map(|i: int, g: Gpx| g@)
}

/// File-level metadata.
pub struct Metadata {
    pub name: Option<String>,
}

/// Mathematical image of the metadata.
#[verifier::ext_equal]
pub struct MetadataView {
    pub name: Option<Seq<char>>,
}

impl View for Metadata {
    type V = MetadataView;

    open spec fn view(&self) -> MetadataView {
        MetadataView {
            name: match self.name {
                Some(n) => Some(n@),
                None => None,
            },
        }
    }
}

/// One parsed input file.
pub struct Gpx {
    pub metadata: Option<Metadata>,
    pub tracks: Vec<Track>,
    pub version: String,
    pub creator: String,
}

/// Mathematical image of one parsed input file.
#[verifier::ext_equal]
pub struct GpxView {
    pub metadata: Option<MetadataView>,
    pub tracks: Seq<TrackView>,
    pub version: Seq<char>,
    pub creator: Seq<char>,
}

impl View for Gpx {
    type V = GpxView;

    open spec fn view(&self) -> GpxView {
        GpxView {
            metadata: match self.metadata {
                Some(m) => Some(m@),
                None => None,
            },
            tracks: tracks_view(self.tracks@),
            version: self.version@,
            creator: self.creator@,
        }
    }
}

} // verus!
