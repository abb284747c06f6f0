//! Properties of the per-segment fold, proved once for every input.
//!
//! Each law quantifies over a whole sequence of analyzer steps (a point
//! paired with the caller-supplied distance to the current reference) and
//! speaks about the state `run_steps` folds them into.

use vstd::prelude::*;
use crate::analyze::{init_view, spec_is_moving, spec_step, AnalyzerView};
use crate::model::Point;
use crate::units::Meters;
use crate::Error;

verus! {

/// The state after feeding `steps` to the analyzer, in order.
pub open spec fn run_steps(v: AnalyzerView, steps: Seq<(Point, Option<Meters>)>) -> Result<
    AnalyzerView,
    Error,
>
    decreases steps.len(),
{
    if steps.len() == 0 {
        Ok(v)
    } else {
        match spec_step(v, steps[0].0, steps[0].1) {
            Err(e) => Err(e),
            Ok(v2) => run_steps(v2, steps.skip(1)),
        }
    }
}

proof fn lemma_constant_motion_rec(v: AnalyzerView, steps: Seq<(Point, Option<Meters>)>)
    requires
        v.n_points > 0,
        v.dist_last matches Some(q) && q.time as int == v.time_end,
        v.time_moving == v.time_end - v.time_start,
        forall|n: int|
            0 <= n < steps.len() ==> (#[trigger] steps[n].1 matches Some(dm) && dm.0
                >= v.min_distance),
        steps.len() > 0 ==> v.time_end <= steps[0].0.time as int,
        forall|n: int|
            0 <= n < steps.len() - 1 ==> #[trigger] steps[n].0.time <= steps[n + 1].0.time,
        steps.len() > 0 ==> spec_is_moving(
            steps[0].1->Some_0.0 as int,
            steps[0].0.time - v.time_end,
            v.min_distance,
            v.standstill_secs,
        ),
        forall|n: int|
            1 <= n < steps.len() ==> spec_is_moving(
                #[trigger] steps[n].1->Some_0.0 as int,
                steps[n].0.time - steps[n - 1].0.time,
                v.min_distance,
                v.standstill_secs,
            ),
    ensures
        run_steps(v, steps) matches Ok(v2) && v2.time_moving == v2.time_end - v2.time_start
            && v2.time_start == v.time_start && v2.time_end == (if steps.len() == 0 {
            v.time_end
        } else {
            steps.last().0.time as int
        }),
    decreases steps.len(),
{
    if steps.len() > 0 {
        let p = steps[0].0;
        let d = steps[0].1;
        let v2 = spec_step(v, p, d)->Ok_0;
        assert(spec_step(v, p, d) is Ok);
        assert(v2.time_moving == v2.time_end - v2.time_start);
        assert(v2.dist_last matches Some(q2) && q2.time as int == v2.time_end);
        let rest = steps.skip(1);
        assert(forall|n: int| 0 <= n < rest.len() ==> rest[n] == steps[n + 1]);
        assert(rest.len() > 0 ==> spec_is_moving(
            rest[0].1->Some_0.0 as int,
            rest[0].0.time - v2.time_end,
            v2.min_distance,
            v2.standstill_secs,
        ));
        lemma_constant_motion_rec(v2, rest);
        if rest.len() > 0 {
            assert(rest.last() == steps.last());
        }
    }
}

/// Over points with nondecreasing timestamps whose every consecutive pair
/// covers at least the minimum distance at a speed meeting the moving
/// threshold, the moving time equals the whole elapsed time.
pub proof fn lemma_constant_speed_moving_time(
    md: Meters,
    meg: Meters,
    ss: i64,
    steps: Seq<(Point, Option<Meters>)>,
)
    requires
        steps.len() >= 1,
        steps[0].1 is None,
        forall|n: int|
            1 <= n < steps.len() ==> (#[trigger] steps[n].1 matches Some(dm) && dm.0 >= md.0),
        forall|n: int|
            0 <= n < steps.len() - 1 ==> #[trigger] steps[n].0.time <= steps[n + 1].0.time,
        forall|n: int|
            1 <= n < steps.len() ==> spec_is_moving(
                #[trigger] steps[n].1->Some_0.0 as int,
                steps[n].0.time - steps[n - 1].0.time,
                md.0 as int,
                ss as int,
            ),
    ensures
        run_steps(init_view(md, meg, ss), steps) matches Ok(v) && v.time_moving == v.time_end
            - v.time_start && v.time_start == steps[0].0.time as int && v.time_end
            == steps.last().0.time as int,
{
    let v0 = init_view(md, meg, ss);
    let p = steps[0].0;
    let v1 = spec_step(v0, p, steps[0].1)->Ok_0;
    assert(spec_step(v0, p, steps[0].1) is Ok);
    assert(v1.time_moving == 0 && v1.time_start == p.time as int && v1.time_end == p.time as int);
    let rest = steps.skip(1);
    assert(forall|n: int| 0 <= n < rest.len() ==> rest[n] == steps[n + 1]);
    lemma_constant_motion_rec(v1, rest);
    if rest.len() > 0 {
        assert(rest.last() == steps.last());
    }
}

proof fn lemma_single_elevation_rec(v: AnalyzerView, steps: Seq<(Point, Option<Meters>)>, e: Meters)
    requires
        v.ele_gain == 0,
        v.ele_start == Some(e.0 as int) && v.ele_min == Some(e.0 as int) && v.ele_max == Some(
            e.0 as int,
        ) && v.ele_end == Some(e.0 as int) && v.ele_last == Some(e.0 as int),
        v.n_points > 0,
        forall|n: int| 0 <= n < steps.len() ==> #[trigger] steps[n].0.ele == Some(e),
        steps.len() > 0 ==> v.time_end <= steps[0].0.time as int,
        forall|n: int|
            0 <= n < steps.len() - 1 ==> #[trigger] steps[n].0.time <= steps[n + 1].0.time,
    ensures
        run_steps(v, steps) matches Ok(v2) && v2.ele_gain == 0 && v2.ele_start == Some(
            e.0 as int,
        ) && v2.ele_min == Some(e.0 as int) && v2.ele_max == Some(e.0 as int) && v2.ele_end
            == Some(e.0 as int) && v2.ele_last == Some(e.0 as int),
    decreases steps.len(),
{
    if steps.len() > 0 {
        let p = steps[0].0;
        let d = steps[0].1;
        let v2 = spec_step(v, p, d)->Ok_0;
        assert(spec_step(v, p, d) is Ok);
        assert(v2.time_end == p.time as int);
        let rest = steps.skip(1);
        assert(forall|n: int| 0 <= n < rest.len() ==> rest[n] == steps[n + 1]);
        lemma_single_elevation_rec(v2, rest, e);
    }
}

/// A segment whose every point carries the same elevation reports that
/// value as start, minimum, maximum and end, and no elevation gain.
pub proof fn lemma_single_elevation(
    md: Meters,
    meg: Meters,
    ss: i64,
    steps: Seq<(Point, Option<Meters>)>,
    e: Meters,
)
    requires
        steps.len() >= 1,
        forall|n: int| 0 <= n < steps.len() ==> #[trigger] steps[n].0.ele == Some(e),
        forall|n: int|
            0 <= n < steps.len() - 1 ==> #[trigger] steps[n].0.time <= steps[n + 1].0.time,
    ensures
        run_steps(init_view(md, meg, ss), steps) matches Ok(v) && v.ele_gain == 0 && v.ele_start
            == Some(e.0 as int) && v.ele_min == Some(e.0 as int) && v.ele_max == Some(e.0 as int)
            && v.ele_end == Some(e.0 as int),
{
    let v0 = init_view(md, meg, ss);
    let p = steps[0].0;
    let v1 = spec_step(v0, p, steps[0].1)->Ok_0;
    assert(steps[0].0.ele == Some(e));
    assert(spec_step(v0, p, steps[0].1) is Ok);
    let rest = steps.skip(1);
    assert(forall|n: int| 0 <= n < rest.len() ==> rest[n] == steps[n + 1]);
    lemma_single_elevation_rec(v1, rest, e);
}

proof fn lemma_descending_gain_rec(v: AnalyzerView, steps: Seq<(Point, Option<Meters>)>)
    requires
        v.ele_last matches Some(l) ==> (steps.len() > 0 ==> (steps[0].0.ele matches Some(e0) && l
            >= e0.0)),
        forall|n: int|
            0 <= n < steps.len() ==> (#[trigger] steps[n].0.ele matches Some(en)),
        forall|n: int|
            0 <= n < steps.len() - 1 ==> steps[n].0.ele->Some_0.0 >= #[trigger] steps[
                n + 1
            ].0.ele->Some_0.0,
        steps.len() > 0 && v.n_points > 0 ==> v.time_end <= steps[0].0.time as int,
        forall|n: int|
            0 <= n < steps.len() - 1 ==> #[trigger] steps[n].0.time <= steps[n + 1].0.time,
    ensures
        run_steps(v, steps) matches Ok(v2) && v2.ele_gain == v.ele_gain,
    decreases steps.len(),
{
    if steps.len() > 0 {
        let p = steps[0].0;
        let d = steps[0].1;
        let v2 = spec_step(v, p, d)->Ok_0;
        assert(spec_step(v, p, d) is Ok);
        assert(v2.ele_gain == v.ele_gain);
        assert(v2.ele_last matches Some(l2) ==> (steps.len() > 1 ==> (steps[1].0.ele matches Some(
            e1,
        ) && l2 >= e1.0)));
        let rest = steps.skip(1);
        assert(forall|n: int| 0 <= n < rest.len() ==> rest[n] == steps[n + 1]);
        lemma_descending_gain_rec(v2, rest);
    }
}

/// A segment whose elevations never rise accumulates no elevation gain,
/// whatever the size of the descents.
pub proof fn lemma_descending_no_gain(
    md: Meters,
    meg: Meters,
    ss: i64,
    steps: Seq<(Point, Option<Meters>)>,
)
    requires
        forall|n: int|
            0 <= n < steps.len() ==> (#[trigger] steps[n].0.ele matches Some(en)),
        forall|n: int|
            0 <= n < steps.len() - 1 ==> steps[n].0.ele->Some_0.0 >= #[trigger] steps[
                n + 1
            ].0.ele->Some_0.0,
        forall|n: int|
            0 <= n < steps.len() - 1 ==> #[trigger] steps[n].0.time <= steps[n + 1].0.time,
    ensures
        run_steps(init_view(md, meg, ss), steps) matches Ok(v) && v.ele_gain == 0,
{
    lemma_descending_gain_rec(init_view(md, meg, ss), steps);
}

} // verus!
