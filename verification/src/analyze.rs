//! The per-segment statistics fold.
//!
//! A `SegmentAnalyzer` consumes the points of one segment in order and
//! maintains the running state of the analysis: elevation range and gated
//! gain, smoothed total distance, moving time, and the list of inter-point
//! time deltas. Distances between points are supplied by the caller (they
//! are a function of the coordinates the library does not compute itself);
//! every decision taken on them is verified here.
//!
//! Policy for a zero-second gap between distance reference and point: the
//! implied speed is treated as infinite, so the pair always counts toward
//! moving time (it contributes zero seconds either way).

use vstd::prelude::*;
use crate::Error;
use crate::model::Point;
use crate::stats::{
    insert_sorted, is_mode, lemma_is_mode_multiset, mode_of_sorted, sort_spec, sorted64,
    sorted_copy, sum64,
};
use crate::units::Meters;

verus! {

/// The running state of the per-segment fold, over mathematical integers.
#[verifier::ext_equal]
pub struct AnalyzerView {
    pub min_distance: int,
    pub min_elevation_gain: int,
    pub standstill_secs: int,
    pub n_points: int,
    pub time_start: int,
    pub time_end: int,
    pub time_deltas: Seq<u64>,
    pub time_moving: int,
    pub ele_start: Option<int>,
    pub ele_min: Option<int>,
    pub ele_max: Option<int>,
    pub ele_end: Option<int>,
    pub ele_last: Option<int>,
    pub ele_gain: int,
    pub dist_total: int,
    pub dist_last: Option<Point>,
}

/// Millimeter value of an optional length.
pub open spec fn opt_mm(o: Option<Meters>) -> Option<int> {
    match o {
        Some(m) => Some(m.0 as int),
        None => None,
    }
}

/// Per-segment analyzer: thresholds plus running state.
pub struct SegmentAnalyzer {
    /// Minimum distance for a point to advance the distance reference.
    pub min_distance: Meters,
    /// Minimum absolute elevation change for the gain gate.
    pub min_elevation_gain: Meters,
    /// Seconds of standstill that define the minimum moving speed.
    pub standstill_secs: i64,
    /// Points consumed so far.
    pub n_points: usize,
    pub time_start: i64,
    pub time_end: i64,
    pub time_deltas: Vec<u64>,
    pub time_moving: u64,
    pub ele_start: Option<Meters>,
    pub ele_min: Option<Meters>,
    pub ele_max: Option<Meters>,
    pub ele_end: Option<Meters>,
    pub ele_last: Option<Meters>,
    /// Accumulated elevation gain, millimeters.
    pub ele_gain: u128,
    /// Accumulated smoothed distance, millimeters.
    pub dist_total: u128,
    /// The last point accepted as a distance reference.
    pub dist_last: Option<Point>,
}

impl View for SegmentAnalyzer {
    type V = AnalyzerView;

    open spec fn view(&self) -> AnalyzerView {
        AnalyzerView {
            min_distance: self.min_distance.0 as int,
            min_elevation_gain: self.min_elevation_gain.0 as int,
            standstill_secs: self.standstill_secs as int,
            n_points: self.n_points as int,
            time_start: self.time_start as int,
            time_end: self.time_end as int,
            time_deltas: self.time_deltas@,
            time_moving: self.time_moving as int,
            ele_start: opt_mm(self.ele_start),
            ele_min: opt_mm(self.ele_min),
            ele_max: opt_mm(self.ele_max),
            ele_end: opt_mm(self.ele_end),
            ele_last: opt_mm(self.ele_last),
            ele_gain: self.ele_gain as int,
            dist_total: self.dist_total as int,
            dist_last: self.dist_last,
        }
    }
}

/// Whether a pair at distance `dist` over `elapsed` seconds meets the
/// minimum moving speed, `min_dist / standstill`, compared without
/// division. Zero elapsed time counts as moving (infinite implied speed);
/// a non-positive `standstill` follows the sign of the rational threshold.
pub open spec fn spec_is_moving(dist: int, elapsed: int, min_dist: int, standstill: int) -> bool {
    if elapsed <= 0 {
        true
    } else if standstill > 0 {
        dist * standstill >= min_dist * elapsed
    } else if standstill == 0 {
        min_dist < 0
    } else {
        dist * standstill <= min_dist * elapsed
    }
}

/// One step of the fold: the ordering check, the time-delta recording,
/// distance smoothing against the last accepted reference, and gated
/// elevation smoothing, exactly in that order.
pub open spec fn spec_step(v: AnalyzerView, p: Point, d: Option<Meters>) -> Result<
    AnalyzerView,
    Error,
> {
    if v.n_points > 0 && (p.time as int) < v.time_end {
        Err(Error::TimeWentBackwards)
    } else {
        let first = v.n_points == 0;
        let deltas = if first {
            v.time_deltas
        } else {
            v.time_deltas.push((p.time - v.time_end) as u64)
        };
        let tstart = if first {
            p.time as int
        } else {
            v.time_start
        };
        let used = match (v.dist_last, d) {
            (None, _) => true,
            (Some(q), Some(dm)) => dm.0 >= v.min_distance,
            (Some(q), None) => false,
        };
        let (dist2, moving2, ref2) = match (v.dist_last, d) {
            (None, _) => (v.dist_total, v.time_moving, Some(p)),
            (Some(q), Some(dm)) => if dm.0 >= v.min_distance {
                let elapsed = p.time - q.time;
                (
                    v.dist_total + dm.0,
                    if spec_is_moving(dm.0 as int, elapsed, v.min_distance, v.standstill_secs) {
                        v.time_moving + elapsed
                    } else {
                        v.time_moving
                    },
                    Some(p),
                )
            } else {
                (v.dist_total, v.time_moving, v.dist_last)
            },
            (Some(q), None) => (v.dist_total, v.time_moving, v.dist_last),
        };
        let (estart2, emin2, emax2, eend2, elast2, gain2) = match p.ele {
            None => (v.ele_start, v.ele_min, v.ele_max, v.ele_end, v.ele_last, v.ele_gain),
            Some(e) => {
                let ev = e.0 as int;
                let estart2 = match v.ele_start {
                    None => Some(ev),
                    Some(s0) => Some(s0),
                };
                let emin2 = match v.ele_min {
                    None => Some(ev),
                    Some(m) => Some(
                        if m > ev {
                            ev
                        } else {
                            m
                        },
                    ),
                };
                let emax2 = match v.ele_max {
                    None => Some(ev),
                    Some(m) => Some(
                        if m < ev {
                            ev
                        } else {
                            m
                        },
                    ),
                };
                let (elast2, gain2) = match v.ele_last {
                    None => (Some(ev), v.ele_gain),
                    Some(last) => {
                        let diff = if ev >= last {
                            ev - last
                        } else {
                            last - ev
                        };
                        if used && diff >= v.min_elevation_gain {
                            (
                                Some(ev),
                                if ev > last {
                                    v.ele_gain + (ev - last)
                                } else {
                                    v.ele_gain
                                },
                            )
                        } else {
                            (v.ele_last, v.ele_gain)
                        }
                    }
                };
                (estart2, emin2, emax2, Some(ev), elast2, gain2)
            }
        };
        Ok(
            AnalyzerView {
                min_distance: v.min_distance,
                min_elevation_gain: v.min_elevation_gain,
                standstill_secs: v.standstill_secs,
                n_points: v.n_points + 1,
                time_start: tstart,
                time_end: p.time as int,
                time_deltas: deltas,
                time_moving: moving2,
                ele_start: estart2,
                ele_min: emin2,
                ele_max: emax2,
                ele_end: eend2,
                ele_last: elast2,
                ele_gain: gain2,
                dist_total: dist2,
                dist_last: ref2,
            },
        )
    }
}

/// An optional value lies in the `i64` range.
pub open spec fn opt_in_i64(o: Option<int>) -> bool {
    match o {
        Some(v) => i64::MIN <= v <= i64::MAX,
        None => true,
    }
}

/// Well-formedness of the running state. Constructors establish it and
/// `step` preserves it.
pub open spec fn wf(v: AnalyzerView) -> bool {
    &&& v.n_points >= 0
    &&& i64::MIN <= v.min_distance <= i64::MAX
    &&& i64::MIN <= v.min_elevation_gain <= i64::MAX
    &&& i64::MIN <= v.standstill_secs <= i64::MAX
    &&& i64::MIN <= v.time_start <= i64::MAX
    &&& i64::MIN <= v.time_end <= i64::MAX
    &&& v.time_moving >= 0
    &&& 0 <= v.ele_gain <= v.n_points * (u64::MAX as int)
    &&& 0 <= v.dist_total <= v.n_points * (i64::MAX as int)
    &&& opt_in_i64(v.ele_start)
    &&& opt_in_i64(v.ele_min)
    &&& opt_in_i64(v.ele_max)
    &&& opt_in_i64(v.ele_end)
    &&& opt_in_i64(v.ele_last)
    &&& (v.ele_start is Some <==> v.ele_min is Some)
    &&& (v.ele_start is Some <==> v.ele_max is Some)
    &&& (v.ele_start is Some <==> v.ele_end is Some)
    &&& (v.ele_start is Some <==> v.ele_last is Some)
    &&& match (v.ele_min, v.ele_max) {
        (Some(a), Some(b)) => a <= b,
        _ => true,
    }
    &&& match (v.ele_min, v.ele_start, v.ele_max) {
        (Some(a), Some(s), Some(b)) => a <= s <= b,
        _ => true,
    }
    &&& match (v.ele_min, v.ele_end, v.ele_max) {
        (Some(a), Some(e), Some(b)) => a <= e <= b,
        _ => true,
    }
    &&& match (v.ele_min, v.ele_last, v.ele_max) {
        (Some(a), Some(l), Some(b)) => a <= l <= b,
        _ => true,
    }
    &&& (v.n_points == 0 ==> {
        &&& v.time_deltas.len() == 0
        &&& v.time_moving == 0
        &&& v.ele_gain == 0
        &&& v.dist_total == 0
        &&& v.ele_start is None
        &&& v.dist_last is None
    })
    &&& (v.n_points > 0 ==> {
        &&& v.time_start <= v.time_end
        &&& v.time_deltas.len() == v.n_points - 1
        &&& sum64(v.time_deltas) == v.time_end - v.time_start
        &&& v.dist_last matches Some(q) && v.time_start <= q.time as int <= v.time_end
            && v.time_moving <= q.time as int - v.time_start
    })
}

/// The state a fresh analyzer starts in.
pub open spec fn init_view(min_distance: Meters, min_elevation_gain: Meters, standstill_secs: i64)
    -> AnalyzerView {
    AnalyzerView {
        min_distance: min_distance.0 as int,
        min_elevation_gain: min_elevation_gain.0 as int,
        standstill_secs: standstill_secs as int,
        n_points: 0,
        time_start: 0,
        time_end: 0,
        time_deltas: Seq::<u64>::empty(),
        time_moving: 0,
        ele_start: None,
        ele_min: None,
        ele_max: None,
        ele_end: None,
        ele_last: None,
        ele_gain: 0,
        dist_total: 0,
        dist_last: None,
    }
}

/// Products of a signed 64-bit value and a value up to `u64::MAX` stay
/// within the 128-bit range.
proof fn lemma_i128_prod_bounds(a: int, b: int)
    by (nonlinear_arith)
    requires
        i64::MIN as int <= a <= i64::MAX as int,
        i64::MIN as int <= b <= u64::MAX as int,
    ensures
        i128::MIN as int <= a * b <= i128::MAX as int,
{
}

/// Runtime decision mirroring `spec_is_moving`.
fn is_moving(dist: i64, elapsed: u64, min_dist: i64, standstill: i64) -> (b: bool)
    ensures
        b == spec_is_moving(dist as int, elapsed as int, min_dist as int, standstill as int),
{
    proof {
        lemma_i128_prod_bounds(dist as int, standstill as int);
        lemma_i128_prod_bounds(min_dist as int, elapsed as int);
    }
    if elapsed == 0 {
        true
    } else if standstill > 0 {
        (dist as i128) * (standstill as i128) >= (min_dist as i128) * (elapsed as i128)
    } else if standstill == 0 {
        min_dist < 0
    } else {
        (dist as i128) * (standstill as i128) <= (min_dist as i128) * (elapsed as i128)
    }
}

impl SegmentAnalyzer {
    /// A fresh analyzer with the run's thresholds and no points seen.
    pub fn new(min_distance: Meters, min_elevation_gain: Meters, standstill_secs: i64) -> (r:
        SegmentAnalyzer)
        ensures
            r@ == init_view(min_distance, min_elevation_gain, standstill_secs),
            wf(r@),
    {
        let r = SegmentAnalyzer {
            min_distance,
            min_elevation_gain,
            standstill_secs,
            n_points: 0,
            time_start: 0,
            time_end: 0,
            time_deltas: Vec::new(),
            time_moving: 0,
            ele_start: None,
            ele_min: None,
            ele_max: None,
            ele_end: None,
            ele_last: None,
            ele_gain: 0,
            dist_total: 0,
            dist_last: None,
        };
        proof {
            assert(r@ =~= init_view(min_distance, min_elevation_gain, standstill_secs));
        }
        r
    }

    /// The point the next distance should be measured against, if any.
    pub fn reference(&self) -> (r: Option<Point>)
        ensures
            r == self@.dist_last,
    {
        self.dist_last
    }

    /// Consumes the next point of the segment. `d` is the caller-computed
    /// distance from `self.reference()` to `p` (present exactly when a
    /// reference exists, and never negative).
    #[verifier::rlimit(60)]
    pub fn step(&mut self, p: Point, d: Option<Meters>) -> (r: Result<(), Error>)
        requires
            wf(old(self)@),
            old(self)@.n_points < usize::MAX,
            d is Some <==> old(self)@.dist_last is Some,
            d matches Some(dm) ==> dm.0 >= 0,
        ensures
            wf(final(self)@),
            match spec_step(old(self)@, p, d) {
                Ok(v2) => r == Ok::<(), Error>(()) && final(self)@ == v2,
                Err(e) => r == Err::<(), Error>(e) && final(self)@ == old(self)@,
            },
    {
        if self.n_points > 0 && p.time < self.time_end {
            proof {
                assert(self@ =~= old(self)@);
            }
            return Err(Error::TimeWentBackwards);
        }
        let ghost v = old(self)@;
        let ghost v2 = spec_step(old(self)@, p, d)->Ok_0;
        if self.n_points > 0 {
            let delta_wide: i128 = (p.time as i128) - (self.time_end as i128);
            let delta: u64 = delta_wide as u64;
            self.time_deltas.push(delta);
            proof {
                assert(sum64(self.time_deltas@) == sum64(v.time_deltas) + delta) by {
                    assert(self.time_deltas@.drop_last() =~= v.time_deltas);
                }
            }
        } else {
            self.time_start = p.time;
        }
        self.time_end = p.time;
        self.n_points = self.n_points + 1;
        let mut used = true;
        match (self.dist_last, d) {
            (None, _) => {
                self.dist_last = Some(p);
            }
            (Some(q), Some(dm)) => {
                if dm.0 >= self.min_distance.0 {
                    proof {
                        assert((v.n_points as int) * (i64::MAX as int) <= (usize::MAX as int) * (
                        i64::MAX as int)) by (nonlinear_arith)
                            requires
                                0 <= v.n_points <= usize::MAX as int,
                        ;
                    }
                    self.dist_total = self.dist_total + (dm.0 as u128);
                    let elapsed_wide: i128 = (p.time as i128) - (q.time as i128);
                    let elapsed: u64 = elapsed_wide as u64;
                    if is_moving(dm.0, elapsed, self.min_distance.0, self.standstill_secs) {
                        self.time_moving = self.time_moving + elapsed;
                    }
                    self.dist_last = Some(p);
                } else {
                    used = false;
                }
            }
            (Some(_), None) => {
                used = false;
            }
        }
        if let Some(e) = p.ele {
            match self.ele_start {
                None => {
                    self.ele_start = Some(e);
                }
                Some(_) => {}
            }
            match self.ele_min {
                None => {
                    self.ele_min = Some(e);
                }
                Some(m) => {
                    if m.0 > e.0 {
                        self.ele_min = Some(e);
                    }
                }
            }
            match self.ele_max {
                None => {
                    self.ele_max = Some(e);
                }
                Some(m) => {
                    if m.0 < e.0 {
                        self.ele_max = Some(e);
                    }
                }
            }
            self.ele_end = Some(e);
            match self.ele_last {
                None => {
                    self.ele_last = Some(e);
                }
                Some(last) => {
                    if used {
                        let diff_wide: i128 = (e.0 as i128) - (last.0 as i128);
                        let diff: i128 = if diff_wide >= 0 {
                            diff_wide
                        } else {
                            -diff_wide
                        };
                        if diff >= (self.min_elevation_gain.0 as i128) {
                            if e.0 > last.0 {
                                proof {
                                    assert((v.n_points as int) * (u64::MAX as int) <= (
                                    usize::MAX as int) * (u64::MAX as int)) by (nonlinear_arith)
                                        requires
                                            0 <= v.n_points <= usize::MAX as int,
                                    ;
                                }
                                self.ele_gain = self.ele_gain + (((e.0 as i128) - (last.0 as i128))
                                    as u128);
                            }
                            self.ele_last = Some(e);
                        }
                    }
                }
            }
        }
        proof {
            assert(self@ =~= v2);
            assert((v.n_points + 1) * (u64::MAX as int) == v.n_points * (u64::MAX as int) + (
            u64::MAX as int)) by (nonlinear_arith);
            assert((v.n_points + 1) * (i64::MAX as int) == v.n_points * (i64::MAX as int) + (
            i64::MAX as int)) by (nonlinear_arith);
        }
        Ok(())
    }
}

/// The aggregates of one analyzed segment.
#[derive(Debug, Clone, Copy, PartialEq)]
pub struct SegmentStats {
    /// Points the segment held.
    pub points: usize,
    pub ele_start: Option<Meters>,
    pub ele_min: Option<Meters>,
    pub ele_max: Option<Meters>,
    pub ele_end: Option<Meters>,
    /// Total elevation gain, millimeters.
    pub ele_gain: u128,
    /// Total smoothed distance, millimeters.
    pub dist_total: u128,
    pub time_start: i64,
    pub time_end: i64,
    /// Total elapsed time, seconds.
    pub elapsed_secs: u64,
    /// Time spent moving, seconds.
    pub moving_secs: u64,
    /// Mean inter-point delta, milliseconds (truncated).
    pub delta_mean_ms: u128,
    /// Median inter-point delta, seconds: the lower-middle element of the
    /// sorted delta list (no interpolation on even counts).
    pub delta_median_secs: u64,
    /// Most frequent inter-point delta, seconds; the smallest such delta
    /// when several are equally frequent.
    pub delta_mode_secs: u64,
}

/// The delta list statistics are computed over: a single-point segment is
/// padded with one zero-length delta so the statistics are defined.
pub open spec fn padded_deltas(s: Seq<u64>) -> Seq<u64> {
    if s.len() == 0 {
        seq![0u64]
    } else {
        s
    }
}

impl SegmentAnalyzer {
    /// Closes the segment and reports its aggregates; `None` for a
    /// segment that held no points (which is not an error).
    pub fn finish(&self) -> (r: Option<SegmentStats>)
        requires
            wf(self@),
        ensures
            r is Some <==> self@.n_points > 0,
            r matches Some(st) ==> ({
                let ds = padded_deltas(self@.time_deltas);
                &&& st.points == self@.n_points
                &&& opt_mm(st.ele_start) == self@.ele_start
                &&& opt_mm(st.ele_min) == self@.ele_min
                &&& opt_mm(st.ele_max) == self@.ele_max
                &&& opt_mm(st.ele_end) == self@.ele_end
                &&& st.ele_gain == self@.ele_gain
                &&& st.dist_total == self@.dist_total
                &&& st.time_start == self@.time_start
                &&& st.time_end == self@.time_end
                &&& st.elapsed_secs == self@.time_end - self@.time_start
                &&& st.moving_secs == self@.time_moving
                &&& st.delta_mean_ms == sum64(ds) * 1000 / (ds.len() as int)
                &&& st.delta_median_secs == sort_spec(ds)[(ds.len() - 1) as int / 2]
                &&& is_mode(ds, st.delta_mode_secs)
            }),
    {
        if self.n_points == 0 {
            return None;
        }
        let ghost ds = padded_deltas(self@.time_deltas);
        let sorted: Vec<u64> = if self.time_deltas.len() == 0 {
            let mut v: Vec<u64> = Vec::new();
            v.push(0);
            v
        } else {
            sorted_copy(&self.time_deltas)
        };
        proof {
            if self@.time_deltas.len() == 0 {
                assert(ds =~= seq![0u64]);
                assert(sorted@ =~= seq![0u64]);
                assert(ds.len() == 1);
                assert(ds.last() == 0u64);
                assert(ds.drop_last() =~= Seq::<u64>::empty());
                assert(sort_spec(Seq::<u64>::empty()) =~= Seq::<u64>::empty());
                assert(insert_sorted(0u64, Seq::<u64>::empty()) =~= seq![0u64]);
                assert(sort_spec(ds) == insert_sorted(ds.last(), sort_spec(ds.drop_last())));
                assert(sort_spec(ds) =~= seq![0u64]);
                assert(sum64(ds) == sum64(ds.drop_last()) + ds.last());
                assert(sum64(ds) == 0);
            } else {
                assert(ds == self@.time_deltas);
            }
            assert(sorted@ == sort_spec(ds));
            assert(sorted@.to_multiset() == ds.to_multiset());
            assert(sorted64(sorted@)) by {
                if self@.time_deltas.len() > 0 {
                } else {
                    assert(forall|i: int, j: int|
                        0 <= i < j < sorted@.len() ==> sorted@[i] <= sorted@[j]);
                }
            }
            assert(sorted@.len() == ds.len());
            assert(ds.len() >= 1);
        }
        let len = sorted.len();
        let median = sorted[(len - 1) / 2];
        let mode = mode_of_sorted(&sorted);
        proof {
            lemma_is_mode_multiset(sorted@, ds, mode);
        }
        let span_wide: i128 = (self.time_end as i128) - (self.time_start as i128);
        let span: u128 = span_wide as u128;
        let mean_ms: u128 = span * 1000 / (len as u128);
        Some(
            SegmentStats {
                points: self.n_points,
                ele_start: self.ele_start,
                ele_min: self.ele_min,
                ele_max: self.ele_max,
                ele_end: self.ele_end,
                ele_gain: self.ele_gain,
                dist_total: self.dist_total,
                time_start: self.time_start,
                time_end: self.time_end,
                elapsed_secs: span as u64,
                moving_secs: self.time_moving,
                delta_mean_ms: mean_ms,
                delta_median_secs: median,
                delta_mode_secs: mode,
            },
        )
    }
}

} // verus!
