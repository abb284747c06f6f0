//! Consolidating parsed files into the working set.
//!
//! Each input file yields raw tracks, segments, and points. Assembly
//! normalizes every point, applies the elevation filters, and folds the
//! results into tracks and segments under the join policy:
//!
//! - `join_tracks`: every track of every file collapses into a single
//!   track (named after the first file that holds a track), and all its
//!   segments into a single segment;
//! - `join_segments`: each raw track keeps its identity but its segments
//!   collapse into one;
//! - otherwise tracks and segments map one to one.
//!
//! A point that fails to normalize aborts the run with its error; the
//! first failure in traversal order wins.

use vstd::prelude::*;
use crate::Error;
use crate::gpx;
use crate::model::{norm_point, Point, Segment, Track, TrackView};
use crate::tstamp::WarnState;
use crate::units::Meters;

verus! {

/// The run configuration that shapes assembly and analysis.
#[derive(Debug, Clone, Copy)]
pub struct Config {
    /// Minimum absolute elevation change for the gain gate, millimeters.
    pub min_elevation_gain: Meters,
    /// Minimum distance for the smoothing gate, millimeters.
    pub min_distance: Meters,
    /// Seconds without movement (per `min_distance`) before time stops
    /// counting as moving.
    pub standstill_secs: i64,
    /// Collapse all segments of a track into one.
    pub join_segments: bool,
    /// Collapse all tracks of the run into one (implies joined segments).
    pub join_tracks: bool,
    /// Drop points whose elevation is exactly zero.
    pub filter_zero_ele: bool,
    /// Drop points whose elevation is present and below this.
    pub filter_ele_below: Option<Meters>,
}

/// A point survives the elevation filters. A point without an elevation
/// is never dropped.
pub open spec fn keep_point(p: Point, cfg: Config) -> bool {
    &&& !(cfg.filter_zero_ele && (p.ele matches Some(e) && e.0 == 0))
    &&& !(cfg.filter_ele_below matches Some(min) && (p.ele matches Some(e) && e.0 < min.0))
}

/// The file-level display name: metadata name, if any.
pub open spec fn meta_name(g: gpx::GpxView) -> Option<Seq<char>> {
    match g.metadata {
        Some(m) => m.name,
        None => None,
    }
}

/// The file-level display name with its fallback.
pub open spec fn file_label(g: gpx::GpxView) -> Seq<char> {
    match meta_name(g) {
        Some(n) => n,
        None => "unnamed"@,
    }
}

/// A track's display name: its own name, else the file's metadata name,
/// else the placeholder.
pub open spec fn raw_track_name(t: gpx::TrackView, g: gpx::GpxView) -> Seq<char> {
    match t.name {
        Some(n) => n,
        None => file_label(g),
    }
}

/// First normalization error among a segment's points, in order.
pub open spec fn seg_err(ps: Seq<gpx::PointView>) -> Option<Error>
    decreases ps.len(),
{
    if ps.len() == 0 {
        None
    } else {
        match norm_point(ps[0]) {
            Err(e) => Some(e),
            Ok(_) => seg_err(ps.skip(1)),
        }
    }
}

/// Whether any point of a segment needs the assumed-UTC retry (over the
/// points that normalize; meaningful when `seg_err` is `None`).
pub open spec fn seg_utc(ps: Seq<gpx::PointView>) -> bool
    decreases ps.len(),
{
    if ps.len() == 0 {
        false
    } else {
        (match norm_point(ps[0]) {
            Ok(pu) => pu.1,
            Err(_) => false,
        }) || seg_utc(ps.skip(1))
    }
}

/// The points of one segment after normalization and filtering.
pub open spec fn cook_points(ps: Seq<gpx::PointView>, cfg: Config) -> Seq<Point>
    decreases ps.len(),
{
    if ps.len() == 0 {
        Seq::<Point>::empty()
    } else {
        cook_points(ps.drop_last(), cfg) + (match norm_point(ps.last()) {
            Ok(pu) => if keep_point(pu.0, cfg) {
                seq![pu.0]
            } else {
                Seq::<Point>::empty()
            },
            Err(_) => Seq::<Point>::empty(),
        })
    }
}

/// First normalization error within a raw track, segment by segment.
pub open spec fn track_err(segs: Seq<Seq<gpx::PointView>>) -> Option<Error>
    decreases segs.len(),
{
    if segs.len() == 0 {
        None
    } else {
        match seg_err(segs[0]) {
            Some(e) => Some(e),
            None => track_err(segs.skip(1)),
        }
    }
}

/// Whether any point of a raw track needs the assumed-UTC retry.
pub open spec fn track_utc(segs: Seq<Seq<gpx::PointView>>) -> bool
    decreases segs.len(),
{
    if segs.len() == 0 {
        false
    } else {
        seg_utc(segs[0]) || track_utc(segs.skip(1))
    }
}

/// All surviving points of a raw track, its segments concatenated.
pub open spec fn track_cook(segs: Seq<Seq<gpx::PointView>>, cfg: Config) -> Seq<Point>
    decreases segs.len(),
{
    if segs.len() == 0 {
        Seq::<Point>::empty()
    } else {
        track_cook(segs.drop_last(), cfg) + cook_points(segs.last(), cfg)
    }
}

/// First normalization error within a file, track by track.
pub open spec fn file_err(g: gpx::GpxView) -> Option<Error> {
    file_tracks_err(g.tracks)
}

pub open spec fn file_tracks_err(ts: Seq<gpx::TrackView>) -> Option<Error>
    decreases ts.len(),
{
    if ts.len() == 0 {
        None
    } else {
        match track_err(ts[0].segments) {
            Some(e) => Some(e),
            None => file_tracks_err(ts.skip(1)),
        }
    }
}

/// Whether any point of a file needs the assumed-UTC retry.
pub open spec fn file_utc(g: gpx::GpxView) -> bool {
    file_tracks_utc(g.tracks)
}

pub open spec fn file_tracks_utc(ts: Seq<gpx::TrackView>) -> bool
    decreases ts.len(),
{
    if ts.len() == 0 {
        false
    } else {
        track_utc(ts[0].segments) || file_tracks_utc(ts.skip(1))
    }
}

/// All surviving points of a file, its tracks concatenated.
pub open spec fn file_cook(g: gpx::GpxView, cfg: Config) -> Seq<Point> {
    file_tracks_cook(g.tracks, cfg)
}

pub open spec fn file_tracks_cook(ts: Seq<gpx::TrackView>, cfg: Config) -> Seq<Point>
    decreases ts.len(),
{
    if ts.len() == 0 {
        Seq::<Point>::empty()
    } else {
        file_tracks_cook(ts.drop_last(), cfg) + track_cook(ts.last().segments, cfg)
    }
}

/// First normalization error of the whole run, file by file.
pub open spec fn run_err(gs: Seq<gpx::GpxView>) -> Option<Error>
    decreases gs.len(),
{
    if gs.len() == 0 {
        None
    } else {
        match file_err(gs[0]) {
            Some(e) => Some(e),
            None => run_err(gs.skip(1)),
        }
    }
}

/// Whether any point of the run needs the assumed-UTC retry.
pub open spec fn run_utc(gs: Seq<gpx::GpxView>) -> bool
    decreases gs.len(),
{
    if gs.len() == 0 {
        false
    } else {
        file_utc(gs[0]) || run_utc(gs.skip(1))
    }
}

/// All surviving points of the run, its files concatenated.
pub open spec fn run_cook(gs: Seq<gpx::GpxView>, cfg: Config) -> Seq<Point>
    decreases gs.len(),
{
    if gs.len() == 0 {
        Seq::<Point>::empty()
    } else {
        run_cook(gs.drop_last(), cfg) + file_cook(gs.last(), cfg)
    }
}

/// Normalizes and filters the points of one raw segment, threading the
/// timezone warning state. On failure the warning state only ever moves
/// forward (the run aborts anyway).
pub fn cook_segment(ps: &Vec<gpx::Point>, cfg: &Config, ws: &mut WarnState) -> (r: Result<
    Vec<Point>,
    Error,
>)
    ensures
        ({
            let psv = gpx::points_view(ps@);
            let warned1 = old(ws).warned;
            let warned2 = final(ws).warned;
            match seg_err(psv) {
                Some(e) => r == Err::<Vec<Point>, Error>(e) && (warned1 ==> warned2),
                None => r matches Ok(out) && out@ == cook_points(psv, *cfg) && warned2 == (
                warned1 || seg_utc(psv)),
            }
        }),
{
    let ghost psv = gpx::points_view(ps@);
    let mut out: Vec<Point> = Vec::new();
    let mut i: usize = 0;
    let ghost mut prefix_utc: bool = false;
    proof {
        assert(psv.skip(0) =~= psv);
        assert(psv.take(0) =~= Seq::<gpx::PointView>::empty());
    }
    while i < ps.len()
        invariant
            0 <= i <= ps@.len(),
            psv == gpx::points_view(ps@),
            seg_err(psv) == seg_err(psv.skip(i as int)),
            seg_utc(psv) == (prefix_utc || seg_utc(psv.skip(i as int))),
            ws.warned == (old(ws).warned || prefix_utc),
            out@ == cook_points(psv.take(i as int), *cfg),
        decreases ps@.len() - i,
    {
        let ghost rest = psv.skip(i as int);
        proof {
            assert(rest[0] == psv[i as int]);
            assert(rest.skip(1) =~= psv.skip(i + 1));
            assert(psv[i as int] == ps@[i as int]@);
        }
        let p = match Point::new(&ps[i], ws) {
            Ok(p) => p,
            Err(e) => {
                return Err(e);
            }
        };
        proof {
            prefix_utc = prefix_utc || norm_point(psv[i as int])->Ok_0.1;
        }
        let keep = {
            let mut k = true;
            if cfg.filter_zero_ele {
                match p.ele {
                    Some(e) => {
                        if e.0 == 0 {
                            k = false;
                        }
                    }
                    None => {}
                }
            }
            match cfg.filter_ele_below {
                Some(min) => match p.ele {
                    Some(e) => {
                        if e.0 < min.0 {
                            k = false;
                        }
                    }
                    None => {}
                },
                None => {}
            }
            k
        };
        if keep {
            out.push(p);
        }
        i = i + 1;
        proof {
            assert(psv.take(i as int).drop_last() =~= psv.take(i - 1));
            assert(psv.take(i as int).last() == psv[i - 1]);
        }
    }
    proof {
        assert(psv.skip(i as int) =~= Seq::<gpx::PointView>::empty());
        assert(psv.take(i as int) =~= psv);
    }
    Ok(out)
}

/// View of an optional owned name.
pub open spec fn name_view(o: Option<String>) -> Option<Seq<char>> {
    match o {
        Some(s) => Some(s@),
        None => None,
    }
}

/// Each segment cooked on its own.
pub open spec fn cooked_segments(ss: Seq<Seq<gpx::PointView>>, cfg: Config) -> Seq<Seq<Point>> {
    ss.map(|k: int, s: Seq<gpx::PointView>| cook_points(s, cfg))
}

/// One raw track carried over with its segments kept one to one.
pub open spec fn cooked_track(t: gpx::TrackView, g: gpx::GpxView, cfg: Config) -> TrackView {
    TrackView { name: raw_track_name(t, g), segments: cooked_segments(t.segments, cfg) }
}

/// One raw track carried over with its segments collapsed into one.
pub open spec fn cooked_track_joined(t: gpx::TrackView, g: gpx::GpxView, cfg: Config) -> TrackView {
    TrackView {
        name: raw_track_name(t, g),
        segments: if t.segments.len() == 0 {
            Seq::<Seq<Point>>::empty()
        } else {
            seq![track_cook(t.segments, cfg)]
        },
    }
}

/// The working set when tracks and segments map one to one.
pub open spec fn tracks_of_file(g: gpx::GpxView, cfg: Config) -> Seq<TrackView> {
    g.tracks.map(|j: int, t: gpx::TrackView| cooked_track(t, g, cfg))
}

pub open spec fn plain_tracks(gs: Seq<gpx::GpxView>, cfg: Config) -> Seq<TrackView>
    decreases gs.len(),
{
    if gs.len() == 0 {
        Seq::<TrackView>::empty()
    } else {
        plain_tracks(gs.drop_last(), cfg) + tracks_of_file(gs.last(), cfg)
    }
}

/// The working set when each track's segments collapse into one: a track
/// with no raw segments stays segmentless.
pub open spec fn tracks_of_file_joined(g: gpx::GpxView, cfg: Config) -> Seq<TrackView> {
    g.tracks.map(|j: int, t: gpx::TrackView| cooked_track_joined(t, g, cfg))
}

pub open spec fn joined_seg_tracks(gs: Seq<gpx::GpxView>, cfg: Config) -> Seq<TrackView>
    decreases gs.len(),
{
    if gs.len() == 0 {
        Seq::<TrackView>::empty()
    } else {
        joined_seg_tracks(gs.drop_last(), cfg) + tracks_of_file_joined(gs.last(), cfg)
    }
}

/// Name of the single joined track: the label of the first file that
/// holds a track, or `None` when no file does.
pub open spec fn joined_name_spec(gs: Seq<gpx::GpxView>) -> Option<Seq<char>>
    decreases gs.len(),
{
    if gs.len() == 0 {
        None
    } else {
        match joined_name_spec(gs.drop_last()) {
            Some(n) => Some(n),
            None => if gs.last().tracks.len() > 0 {
                Some(file_label(gs.last()))
            } else {
                None
            },
        }
    }
}

/// Whether any raw segment occurs in a file's tracks.
pub open spec fn file_has_seg(ts: Seq<gpx::TrackView>) -> bool
    decreases ts.len(),
{
    if ts.len() == 0 {
        false
    } else {
        file_has_seg(ts.drop_last()) || ts.last().segments.len() > 0
    }
}

/// Whether any raw segment occurs in the run.
pub open spec fn run_has_seg(gs: Seq<gpx::GpxView>) -> bool
    decreases gs.len(),
{
    if gs.len() == 0 {
        false
    } else {
        run_has_seg(gs.drop_last()) || file_has_seg(gs.last().tracks)
    }
}

/// The working set when the whole run collapses into one track: created
/// once a raw track exists, holding one segment once a raw segment does.
pub open spec fn joined_tracks(gs: Seq<gpx::GpxView>, cfg: Config) -> Seq<TrackView> {
    match joined_name_spec(gs) {
        None => Seq::<TrackView>::empty(),
        Some(nm) => seq![
            TrackView {
                name: nm,
                segments: if run_has_seg(gs) {
                    seq![run_cook(gs, cfg)]
                } else {
                    Seq::<Seq<Point>>::empty()
                },
            }
        ],
    }
}

/// The working set the run assembles, by join policy.
pub open spec fn assembled(gs: Seq<gpx::GpxView>, cfg: Config) -> Seq<TrackView> {
    if cfg.join_tracks {
        joined_tracks(gs, cfg)
    } else if cfg.join_segments {
        joined_seg_tracks(gs, cfg)
    } else {
        plain_tracks(gs, cfg)
    }
}

/// The file-level display name, with its placeholder fallback.
fn file_label_str(g: &gpx::Gpx) -> (r: String)
    ensures
        r@ == file_label(g@),
{
    match &g.metadata {
        Some(m) => match &m.name {
            Some(n) => n.clone(),
            None => "unnamed".to_owned(),
        },
        None => "unnamed".to_owned(),
    }
}

/// A track's display name: its own, the file's, or the placeholder.
fn track_name_str(t: &gpx::Track, g: &gpx::Gpx) -> (r: String)
    ensures
        r@ == raw_track_name(t@, g@),
{
    match &t.name {
        Some(n) => n.clone(),
        None => file_label_str(g),
    }
}

/// Appends one raw track's surviving points (all its segments) to `acc`.
fn cook_track_onto(rt: &gpx::Track, cfg: &Config, ws: &mut WarnState, acc: &mut Vec<Point>) -> (r:
    Result<(), Error>)
    ensures
        ({
            let segsv = rt@.segments;
            let warned1 = old(ws).warned;
            let warned2 = final(ws).warned;
            match track_err(segsv) {
                Some(e) => r == Err::<(), Error>(e) && (warned1 ==> warned2),
                None => r == Ok::<(), Error>(()) && final(acc)@ == old(acc)@ + track_cook(
                    segsv,
                    *cfg,
                ) && warned2 == (warned1 || track_utc(segsv)),
            }
        }),
{
    let ghost segsv = rt@.segments;
    let mut k: usize = 0;
    let ghost mut prefix_utc: bool = false;
    proof {
        assert(segsv.skip(0) =~= segsv);
        assert(segsv.take(0) =~= Seq::<Seq<gpx::PointView>>::empty());
        assert(acc@ + track_cook(segsv.take(0), *cfg) =~= acc@);
    }
    while k < rt.segments.len()
        invariant
            0 <= k <= rt.segments@.len(),
            segsv == rt@.segments,
            segsv.len() == rt.segments@.len(),
            track_err(segsv) == track_err(segsv.skip(k as int)),
            track_utc(segsv) == (prefix_utc || track_utc(segsv.skip(k as int))),
            ws.warned == (old(ws).warned || prefix_utc),
            acc@ == old(acc)@ + track_cook(segsv.take(k as int), *cfg),
        decreases rt.segments@.len() - k,
    {
        let ghost rest = segsv.skip(k as int);
        proof {
            assert(rest[0] == segsv[k as int]);
            assert(rest.skip(1) =~= segsv.skip(k + 1));
            assert(segsv[k as int] == rt.segments@[k as int]@);
        }
        match cook_segment(&rt.segments[k].points, cfg, ws) {
            Ok(mut cooked) => {
                proof {
                    prefix_utc = prefix_utc || seg_utc(segsv[k as int]);
                }
                acc.append(&mut cooked);
            }
            Err(e) => {
                return Err(e);
            }
        }
        k = k + 1;
        proof {
            assert(segsv.take(k as int).drop_last() =~= segsv.take(k - 1));
            assert(segsv.take(k as int).last() == segsv[k - 1]);
        }
    }
    proof {
        assert(segsv.skip(k as int) =~= Seq::<Seq<gpx::PointView>>::empty());
        assert(segsv.take(k as int) =~= segsv);
    }
    Ok(())
}

/// Builds one working-set track with its segments kept one to one.
fn cook_track_plain(rt: &gpx::Track, name: String, cfg: &Config, ws: &mut WarnState) -> (r: Result<
    Track,
    Error,
>)
    ensures
        ({
            let segsv = rt@.segments;
            let warned1 = old(ws).warned;
            let warned2 = final(ws).warned;
            match track_err(segsv) {
                Some(e) => r == Err::<Track, Error>(e) && (warned1 ==> warned2),
                None => r matches Ok(t) && t@ == (TrackView {
                    name: name@,
                    segments: cooked_segments(segsv, *cfg),
                }) && warned2 == (warned1 || track_utc(segsv)),
            }
        }),
{
    let ghost segsv = rt@.segments;
    let mut segs: Vec<Segment> = Vec::new();
    let mut k: usize = 0;
    let ghost mut prefix_utc: bool = false;
    proof {
        assert(segsv.skip(0) =~= segsv);
    }
    while k < rt.segments.len()
        invariant
            0 <= k <= rt.segments@.len(),
            segsv == rt@.segments,
            segsv.len() == rt.segments@.len(),
            track_err(segsv) == track_err(segsv.skip(k as int)),
            track_utc(segsv) == (prefix_utc || track_utc(segsv.skip(k as int))),
            ws.warned == (old(ws).warned || prefix_utc),
            crate::model::segments_view(segs@) =~= cooked_segments(segsv.take(k as int), *cfg),
        decreases rt.segments@.len() - k,
    {
        let ghost rest = segsv.skip(k as int);
        proof {
            assert(rest[0] == segsv[k as int]);
            assert(rest.skip(1) =~= segsv.skip(k + 1));
            assert(segsv[k as int] == rt.segments@[k as int]@);
            assert(gpx::points_view(rt.segments@[k as int].points@) == segsv[k as int]);
        }
        let ghost segs0 = segs@;
        match cook_segment(&rt.segments[k].points, cfg, ws) {
            Ok(cooked) => {
                proof {
                    prefix_utc = prefix_utc || seg_utc(segsv[k as int]);
                    assert(cooked@ == cook_points(segsv[k as int], *cfg));
                }
                segs.push(Segment { points: cooked });
            }
            Err(e) => {
                return Err(e);
            }
        }
        k = k + 1;
        proof {
            let lhs = crate::model::segments_view(segs@);
            let rhs = cooked_segments(segsv.take(k as int), *cfg);
            assert(crate::model::segments_view(segs0).len() == k - 1);
            assert(segs@ =~= segs0.push(segs@[k - 1]));
            assert forall|x: int| 0 <= x < k implies lhs[x] == rhs[x] by {
                assert(lhs[x] == segs@[x]@);
                assert(rhs[x] == cook_points(segsv.take(k as int)[x], *cfg));
                if x < k - 1 {
                    assert(crate::model::segments_view(segs0)[x] == segs0[x]@);
                    assert(crate::model::segments_view(segs0)[x] == cooked_segments(
                        segsv.take(k - 1),
                        *cfg,
                    )[x]);
                    assert(cooked_segments(segsv.take(k - 1), *cfg)[x] == cook_points(
                        segsv.take(k - 1)[x],
                        *cfg,
                    ));
                }
            }
            assert(lhs =~= rhs);
        }
    }
    proof {
        assert(segsv.skip(k as int) =~= Seq::<Seq<gpx::PointView>>::empty());
        assert(segsv.take(k as int) =~= segsv);
        assert(cooked_segments(segsv.take(k as int), *cfg) =~= cooked_segments(segsv, *cfg));
    }
    let t = Track { name, segments: segs };
    proof {
        assert(t@ =~= TrackView { name: t.name@, segments: cooked_segments(segsv, *cfg) });
    }
    Ok(t)
}

proof fn lemma_tracks_view_push(ts0: Seq<Track>, t: Track)
    ensures
        crate::model::tracks_view(ts0.push(t)) =~= crate::model::tracks_view(ts0).push(t@),
{
    let lhs = crate::model::tracks_view(ts0.push(t));
    let rhs = crate::model::tracks_view(ts0).push(t@);
    assert forall|x: int| 0 <= x < lhs.len() implies lhs[x] == rhs[x] by {
        assert(lhs[x] == ts0.push(t)[x]@);
        if x < ts0.len() {
            assert(crate::model::tracks_view(ts0)[x] == ts0[x]@);
        }
    }
}

/// Builds the working set from the parsed input files under the run's
/// join policy and elevation filters. The first point that fails to
/// normalize aborts the run with its error; on failure the timezone
/// warning state only ever moves forward.
pub fn assemble(files: &Vec<gpx::Gpx>, cfg: &Config, ws: &mut WarnState) -> (r: Result<
    Vec<Track>,
    Error,
>)
    ensures
        ({
            let gs = gpx::gpxs_view(files@);
            let warned1 = old(ws).warned;
            let warned2 = final(ws).warned;
            match run_err(gs) {
                Some(e) => r == Err::<Vec<Track>, Error>(e) && (warned1 ==> warned2),
                None => r matches Ok(ts) && crate::model::tracks_view(ts@) == assembled(gs, *cfg)
                    && warned2 == (warned1 || run_utc(gs)),
            }
        }),
{
    let ghost gs = gpx::gpxs_view(files@);
    let ghost mut prefix_utc: bool = false;
    proof {
        assert(gs.skip(0) =~= gs);
        assert(gs.take(0) =~= Seq::<gpx::GpxView>::empty());
    }
    if cfg.join_tracks {
        let mut joined_name: Option<String> = None;
        let mut joined_pts: Vec<Point> = Vec::new();
        let mut has_seg = false;
        let mut i: usize = 0;
        while i < files.len()
            invariant
                0 <= i <= files@.len(),
                gs == gpx::gpxs_view(files@),
                gs.len() == files@.len(),
                run_err(gs) == run_err(gs.skip(i as int)),
                run_utc(gs) == (prefix_utc || run_utc(gs.skip(i as int))),
                ws.warned == (old(ws).warned || prefix_utc),
                joined_pts@ == run_cook(gs.take(i as int), *cfg),
                name_view(joined_name) == joined_name_spec(gs.take(i as int)),
                has_seg == run_has_seg(gs.take(i as int)),
            decreases files@.len() - i,
        {
            let g = &files[i];
            proof {
                assert(gs[i as int] == files@[i as int]@);
                assert(gs.skip(i as int)[0] == gs[i as int]);
                assert(gs.skip(i as int).skip(1) =~= gs.skip(i + 1));
                assert(gs.take(i + 1).drop_last() =~= gs.take(i as int));
                assert(gs.take(i + 1).last() == gs[i as int]);
            }
            if joined_name.is_none() && g.tracks.len() > 0 {
                joined_name = Some(file_label_str(g));
            }
            proof {
                assert(name_view(joined_name) == joined_name_spec(gs.take(i + 1)));
            }
            let ghost tsv = gs[i as int].tracks;
            let ghost mut fprefix_utc: bool = false;
            let mut j: usize = 0;
            proof {
                assert(tsv.skip(0) =~= tsv);
                assert(tsv.take(0) =~= Seq::<gpx::TrackView>::empty());
                assert(joined_pts@ =~= run_cook(gs.take(i as int), *cfg) + file_tracks_cook(
                    tsv.take(0),
                    *cfg,
                ));
            }
            while j < g.tracks.len()
                invariant
                    0 <= j <= g.tracks@.len(),
                    gs == gpx::gpxs_view(files@),
                    gs.len() == files@.len(),
                    0 <= i < gs.len(),
                    gs[i as int] == files@[i as int]@,
                    g == &files@[i as int],
                    tsv == gs[i as int].tracks,
                    tsv.len() == g.tracks@.len(),
                    run_err(gs) == run_err(gs.skip(i as int)),
                    run_utc(gs) == (prefix_utc || run_utc(gs.skip(i as int))),
                    file_tracks_err(tsv) == file_tracks_err(tsv.skip(j as int)),
                    file_tracks_utc(tsv) == (fprefix_utc || file_tracks_utc(tsv.skip(j as int))),
                    ws.warned == (old(ws).warned || prefix_utc || fprefix_utc),
                    joined_pts@ == run_cook(gs.take(i as int), *cfg) + file_tracks_cook(
                        tsv.take(j as int),
                        *cfg,
                    ),
                    has_seg == (run_has_seg(gs.take(i as int)) || file_has_seg(
                        tsv.take(j as int),
                    )),
                    name_view(joined_name) == joined_name_spec(gs.take(i + 1)),
                decreases g.tracks@.len() - j,
            {
                let rt = &g.tracks[j];
                proof {
                    assert(tsv[j as int] == g.tracks@[j as int]@);
                    assert(tsv.skip(j as int)[0] == tsv[j as int]);
                    assert(tsv.skip(j as int).skip(1) =~= tsv.skip(j + 1));
                    assert(tsv.take(j + 1).drop_last() =~= tsv.take(j as int));
                    assert(tsv.take(j + 1).last() == tsv[j as int]);
                }
                if rt.segments.len() > 0 {
                    has_seg = true;
                }
                match cook_track_onto(rt, cfg, ws, &mut joined_pts) {
                    Ok(()) => {
                        proof {
                            fprefix_utc = fprefix_utc || track_utc(tsv[j as int].segments);
                        }
                    }
                    Err(e) => {
                        return Err(e);
                    }
                }
                j = j + 1;
            }
            proof {
                assert(tsv.skip(j as int) =~= Seq::<gpx::TrackView>::empty());
                assert(tsv.take(j as int) =~= tsv);
                assert(file_err(gs[i as int]) is None);
                prefix_utc = prefix_utc || file_utc(gs[i as int]);
            }
            i = i + 1;
        }
        proof {
            assert(gs.skip(i as int) =~= Seq::<gpx::GpxView>::empty());
            assert(gs.take(i as int) =~= gs);
        }
        let mut tracks: Vec<Track> = Vec::new();
        match joined_name {
            Some(nm) => {
                let mut segs: Vec<Segment> = Vec::new();
                if has_seg {
                    segs.push(Segment { points: joined_pts });
                }
                let t = Track { name: nm, segments: segs };
                proof {
                    assert(joined_name_spec(gs) == Some(nm@));
                    assert(joined_pts@ == run_cook(gs, *cfg));
                    assert(t@ =~= (joined_tracks(gs, *cfg))[0]);
                }
                tracks.push(t);
                proof {
                    assert(crate::model::tracks_view(tracks@) =~= joined_tracks(gs, *cfg));
                }
            }
            None => {
                proof {
                    assert(crate::model::tracks_view(tracks@) =~= joined_tracks(gs, *cfg));
                }
            }
        }
        Ok(tracks)
    } else {
        let mut tracks: Vec<Track> = Vec::new();
        let mut i: usize = 0;
        proof {
            assert(crate::model::tracks_view(tracks@) =~= Seq::<TrackView>::empty());
        }
        while i < files.len()
            invariant
                0 <= i <= files@.len(),
                gs == gpx::gpxs_view(files@),
                gs.len() == files@.len(),
                !cfg.join_tracks,
                run_err(gs) == run_err(gs.skip(i as int)),
                run_utc(gs) == (prefix_utc || run_utc(gs.skip(i as int))),
                ws.warned == (old(ws).warned || prefix_utc),
                cfg.join_segments ==> crate::model::tracks_view(tracks@) == joined_seg_tracks(
                    gs.take(i as int),
                    *cfg,
                ),
                !cfg.join_segments ==> crate::model::tracks_view(tracks@) == plain_tracks(
                    gs.take(i as int),
                    *cfg,
                ),
            decreases files@.len() - i,
        {
            let g = &files[i];
            proof {
                assert(gs[i as int] == files@[i as int]@);
                assert(gs.skip(i as int)[0] == gs[i as int]);
                assert(gs.skip(i as int).skip(1) =~= gs.skip(i + 1));
                assert(gs.take(i + 1).drop_last() =~= gs.take(i as int));
                assert(gs.take(i + 1).last() == gs[i as int]);
            }
            let ghost tsv = gs[i as int].tracks;
            let ghost mut fprefix_utc: bool = false;
            let ghost tracks0 = crate::model::tracks_view(tracks@);
            let mut j: usize = 0;
            proof {
                assert(tsv.skip(0) =~= tsv);
                assert(tsv.take(0) =~= Seq::<gpx::TrackView>::empty());
                assert(tracks0 + tsv.take(0).map(
                    |x: int, t: gpx::TrackView| cooked_track(t, gs[i as int], *cfg),
                ) =~= tracks0);
                assert(tracks0 + tsv.take(0).map(
                    |x: int, t: gpx::TrackView| cooked_track_joined(t, gs[i as int], *cfg),
                ) =~= tracks0);
            }
            while j < g.tracks.len()
                invariant
                    0 <= j <= g.tracks@.len(),
                    gs == gpx::gpxs_view(files@),
                    gs.len() == files@.len(),
                    0 <= i < gs.len(),
                    gs[i as int] == files@[i as int]@,
                    g == &files@[i as int],
                    !cfg.join_tracks,
                    tsv == gs[i as int].tracks,
                    tsv.len() == g.tracks@.len(),
                    run_err(gs) == run_err(gs.skip(i as int)),
                    run_utc(gs) == (prefix_utc || run_utc(gs.skip(i as int))),
                    file_tracks_err(tsv) == file_tracks_err(tsv.skip(j as int)),
                    file_tracks_utc(tsv) == (fprefix_utc || file_tracks_utc(tsv.skip(j as int))),
                    ws.warned == (old(ws).warned || prefix_utc || fprefix_utc),
                    tracks0 == if cfg.join_segments {
                        joined_seg_tracks(gs.take(i as int), *cfg)
                    } else {
                        plain_tracks(gs.take(i as int), *cfg)
                    },
                    cfg.join_segments ==> crate::model::tracks_view(tracks@) == tracks0
                        + tsv.take(j as int).map(
                        |x: int, t: gpx::TrackView| cooked_track_joined(t, gs[i as int], *cfg),
                    ),
                    !cfg.join_segments ==> crate::model::tracks_view(tracks@) == tracks0
                        + tsv.take(j as int).map(
                        |x: int, t: gpx::TrackView| cooked_track(t, gs[i as int], *cfg),
                    ),
                decreases g.tracks@.len() - j,
            {
                let rt = &g.tracks[j];
                proof {
                    assert(tsv[j as int] == g.tracks@[j as int]@);
                    assert(tsv.skip(j as int)[0] == tsv[j as int]);
                    assert(tsv.skip(j as int).skip(1) =~= tsv.skip(j + 1));
                    assert(tsv.take(j + 1).drop_last() =~= tsv.take(j as int));
                    assert(tsv.take(j + 1).last() == tsv[j as int]);
                }
                let name = track_name_str(rt, g);
                let ghost ts0 = tracks@;
                if cfg.join_segments {
                    let mut pts: Vec<Point> = Vec::new();
                    match cook_track_onto(rt, cfg, ws, &mut pts) {
                        Ok(()) => {}
                        Err(e) => {
                            return Err(e);
                        }
                    }
                    proof {
                        assert(rt@ == tsv[j as int]);
                        assert(Seq::<Point>::empty() + track_cook(rt@.segments, *cfg)
                            =~= track_cook(rt@.segments, *cfg));
                        assert(pts@ == track_cook(tsv[j as int].segments, *cfg));
                    }
                    let mut segs: Vec<Segment> = Vec::new();
                    if rt.segments.len() > 0 {
                        segs.push(Segment { points: pts });
                    }
                    let t = Track { name, segments: segs };
                    proof {
                        assert(rt.segments@.len() == tsv[j as int].segments.len());
                        assert(t@ =~= cooked_track_joined(tsv[j as int], gs[i as int], *cfg));
                    }
                    tracks.push(t);
                } else {
                    let t = match cook_track_plain(rt, name, cfg, ws) {
                        Ok(t) => t,
                        Err(e) => {
                            return Err(e);
                        }
                    };
                    proof {
                        assert(t@ =~= cooked_track(tsv[j as int], gs[i as int], *cfg));
                    }
                    tracks.push(t);
                }
                j = j + 1;
                proof {
                    fprefix_utc = fprefix_utc || track_utc(tsv[j - 1].segments);
                    lemma_tracks_view_push(ts0, tracks@.last());
                    if cfg.join_segments {
                        assert(crate::model::tracks_view(tracks@) =~= tracks0 + tsv.take(
                            j as int,
                        ).map(
                            |x: int, t: gpx::TrackView| cooked_track_joined(
                                t,
                                gs[i as int],
                                *cfg,
                            ),
                        ));
                    } else {
                        assert(crate::model::tracks_view(tracks@) =~= tracks0 + tsv.take(
                            j as int,
                        ).map(|x: int, t: gpx::TrackView| cooked_track(t, gs[i as int], *cfg)));
                    }
                }
            }
            proof {
                assert(tsv.skip(j as int) =~= Seq::<gpx::TrackView>::empty());
                assert(tsv.take(j as int) =~= tsv);
                assert(file_err(gs[i as int]) is None);
                prefix_utc = prefix_utc || file_utc(gs[i as int]);
                if cfg.join_segments {
                    assert(tsv.map(
                        |x: int, t: gpx::TrackView| cooked_track_joined(t, gs[i as int], *cfg),
                    ) =~= tracks_of_file_joined(gs[i as int], *cfg));
                } else {
                    assert(tsv.map(
                        |x: int, t: gpx::TrackView| cooked_track(t, gs[i as int], *cfg),
                    ) =~= tracks_of_file(gs[i as int], *cfg));
                }
            }
            i = i + 1;
        }
        proof {
            assert(gs.skip(i as int) =~= Seq::<gpx::GpxView>::empty());
            assert(gs.take(i as int) =~= gs);
        }
        Ok(tracks)
    }
}

} // verus!
