//! The global laws of the simulation, each proved from the contracts the
//! other modules state: freeze decisions are mutual for a colliding pair,
//! radii never shrink and frozen circles never change, runs are
//! deterministic, and a circle pinned against an edge is edge-colliding at
//! every radius.

use vstd::prelude::*;

use vstd::arithmetic::div_mod::lemma_div_pos_is_pos;

use crate::circle::{
    lemma_collides_symmetric, spec_collides, spec_growth, spec_touches_edge, CircleModel,
};
use crate::config::{ConfigModel, ELAPSED_MAX, GROW_MAX};
use crate::geometry::{point_in_canvas, PointModel};
use crate::sim::{
    candidate_at, circle_wf, collides_any, freeze_all, grow_all, sim_wf, spec_credit,
    spec_freezes, spec_place, spec_tick, SimModel,
};

verus! {

/// Growth is never negative: an expanding circle never shrinks.
pub proof fn lemma_growth_nonneg(rate: int, elapsed: int)
    requires
        0 <= rate,
        0 <= elapsed,
    ensures
        0 <= spec_growth(rate, elapsed),
{
    assert(0 <= rate * elapsed) by (nonlinear_arith)
        requires 0 <= rate && 0 <= elapsed;
    lemma_div_pos_is_pos(rate * elapsed, 1000);
}

/// A placement attempt only appends: every circle that was there stays,
/// unchanged and in place, and the attempt adds at most one.
pub proof fn lemma_place_extends(
    circles: Seq<CircleModel>,
    pool: Seq<PointModel>,
    credit: int,
    cfg: ConfigModel,
)
    ensures
        ({
            let r = spec_place(circles, pool, credit, cfg);
            &&& circles.len() <= r.0.len() <= circles.len() + 1
            &&& forall|i: int| 0 <= i < circles.len() ==> r.0[i] == circles[i]
            &&& r.1.len() <= pool.len()
        }),
    decreases pool.len(),
{
    if pool.len() == 0 || credit < cfg.attempt_interval {
    } else {
        let cand = candidate_at(pool.last());
        if collides_any(cand, circles, cfg.border) {
            lemma_place_extends(circles, pool.drop_last(), credit - cfg.attempt_interval, cfg);
        }
    }
}

/// A placement attempt preserves well-formedness: new circles sit at pool
/// points, which lie on the canvas, and the attempt budget never goes
/// negative.
pub proof fn lemma_place_wf(
    circles: Seq<CircleModel>,
    pool: Seq<PointModel>,
    credit: int,
    cfg: ConfigModel,
)
    requires
        forall|i: int|
            0 <= i < circles.len() ==> circle_wf(#[trigger] circles[i], cfg),
        forall|k: int|
            0 <= k < pool.len() ==> point_in_canvas(#[trigger] pool[k], cfg.width, cfg.height),
        0 <= credit,
        0 < cfg.attempt_interval,
    ensures
        ({
            let r = spec_place(circles, pool, credit, cfg);
            &&& forall|i: int|
                0 <= i < r.0.len() ==> circle_wf(#[trigger] r.0[i], cfg)
            &&& forall|k: int|
                0 <= k < r.1.len() ==> point_in_canvas(#[trigger] r.1[k], cfg.width, cfg.height)
            &&& 0 <= r.2 <= credit
        }),
    decreases pool.len(),
{
    if pool.len() == 0 || credit < cfg.attempt_interval {
    } else {
        let cand = candidate_at(pool.last());
        let rest = pool.drop_last();
        assert(forall|k: int|
            0 <= k < rest.len() ==> point_in_canvas(#[trigger] rest[k], cfg.width, cfg.height));
        if collides_any(cand, circles, cfg.border) {
            lemma_place_wf(circles, rest, credit - cfg.attempt_interval, cfg);
        } else {
            assert(point_in_canvas(pool.last(), cfg.width, cfg.height));
            assert(circle_wf(cand, cfg));
        }
    }
}

/// One tick keeps the simulation well formed, as long as the elapsed time
/// and the growth it implies stay inside the representational bounds.
pub proof fn lemma_tick_wf(s: SimModel, elapsed: int)
    requires
        sim_wf(s),
        0 <= elapsed <= ELAPSED_MAX as int,
        spec_growth(s.cfg.rate, elapsed) <= GROW_MAX as int,
    ensures
        sim_wf(spec_tick(s, elapsed)),
        spec_tick(s, elapsed).cfg == s.cfg,
{
    let credited = spec_credit(s.credit, elapsed);
    lemma_place_wf(s.circles, s.pool, credited, s.cfg);
    lemma_growth_nonneg(s.cfg.rate, elapsed);
    let placed = spec_place(s.circles, s.pool, credited, s.cfg);
    let spawning = s.countdown <= 0;
    let circles1 = if spawning { placed.0 } else { s.circles };
    let g = spec_growth(s.cfg.rate, elapsed);
    let cs2 = freeze_all(circles1, s.cfg);
    let cs3 = grow_all(cs2, g);
    assert forall|i: int| 0 <= i < cs3.len() implies circle_wf(
        #[trigger] cs3[i],
        s.cfg,
    ) by {
        assert(circle_wf(circles1[i], s.cfg));
        if cs2[i].expanding {
            assert(!spec_freezes(circles1, i, s.cfg));
            assert(!spec_touches_edge(circles1[i], s.cfg.width, s.cfg.height, s.cfg.border));
            assert(circles1[i].radius < s.cfg.width);
        }
    }
}

/// Radii never shrink across a tick, circles are never removed, and a
/// frozen circle is never touched again: radius, center, color and state
/// all stay exactly as they were.
pub proof fn lemma_tick_monotone(s: SimModel, elapsed: int)
    requires
        sim_wf(s),
        0 <= elapsed,
    ensures
        spec_tick(s, elapsed).circles.len() >= s.circles.len(),
        forall|i: int|
            0 <= i < s.circles.len() ==> (#[trigger] spec_tick(s, elapsed).circles[i]).radius
                >= s.circles[i].radius,
        forall|i: int|
            0 <= i < s.circles.len() && !s.circles[i].expanding ==> #[trigger] spec_tick(
                s,
                elapsed,
            ).circles[i] == s.circles[i],
        forall|i: int|
            0 <= i < s.circles.len() && !s.circles[i].expanding ==> !(#[trigger] spec_tick(
                s,
                elapsed,
            ).circles[i]).expanding,
{
    let credited = spec_credit(s.credit, elapsed);
    lemma_place_extends(s.circles, s.pool, credited, s.cfg);
    lemma_growth_nonneg(s.cfg.rate, elapsed);
    let placed = spec_place(s.circles, s.pool, credited, s.cfg);
    let spawning = s.countdown <= 0;
    let circles1 = if spawning { placed.0 } else { s.circles };
    let g = spec_growth(s.cfg.rate, elapsed);
    let cs2 = freeze_all(circles1, s.cfg);
    let cs3 = grow_all(cs2, g);
    assert forall|i: int| 0 <= i < s.circles.len() implies (#[trigger] cs3[i]).radius
        >= s.circles[i].radius && (!s.circles[i].expanding ==> cs3[i] == s.circles[i]
        && !cs3[i].expanding) by {
        assert(circles1[i] == s.circles[i]);
        if !s.circles[i].expanding {
            assert(!spec_freezes(circles1, i, s.cfg));
            assert(cs2[i] == s.circles[i]);
        }
    }
}

/// A run: the state after feeding the elapsed times of `es`, in order, to
/// the tick.
pub open spec fn spec_run(s: SimModel, es: Seq<int>) -> SimModel
    decreases es.len(),
{
    if es.len() == 0 {
        s
    } else {
        spec_run(spec_tick(s, es.first()), es.drop_first())
    }
}

/// An elapsed-time sequence a well-formed run may be driven with.
pub open spec fn ticks_ok(cfg: ConfigModel, es: Seq<int>) -> bool {
    forall|k: int|
        0 <= k < es.len() ==> 0 <= #[trigger] es[k] <= ELAPSED_MAX as int && spec_growth(
            cfg.rate,
            es[k],
        ) <= GROW_MAX as int
}

/// Determinism: a run is a function of the starting state and the elapsed
/// sequence alone. Two simulations in equal states — as two builds from one
/// seed and one configuration are — driven with equal elapsed sequences end
/// in equal states, circles, pool and all.
pub proof fn lemma_run_deterministic(a: SimModel, b: SimModel, es: Seq<int>)
    requires
        a == b,
    ensures
        spec_run(a, es) == spec_run(b, es),
{
}

/// Over a whole run, radii never shrink, circles are never removed, and a
/// circle frozen at the start is untouched to the end.
pub proof fn lemma_run_monotone(s: SimModel, es: Seq<int>)
    requires
        sim_wf(s),
        ticks_ok(s.cfg, es),
    ensures
        sim_wf(spec_run(s, es)),
        spec_run(s, es).cfg == s.cfg,
        spec_run(s, es).circles.len() >= s.circles.len(),
        forall|i: int|
            0 <= i < s.circles.len() ==> (#[trigger] spec_run(s, es).circles[i]).radius
                >= s.circles[i].radius,
        forall|i: int|
            0 <= i < s.circles.len() && !s.circles[i].expanding ==> #[trigger] spec_run(
                s,
                es,
            ).circles[i] == s.circles[i],
    decreases es.len(),
{
    if es.len() == 0 {
    } else {
        let e = es.first();
        let s1 = spec_tick(s, e);
        lemma_tick_wf(s, e);
        lemma_tick_monotone(s, e);
        assert(ticks_ok(s1.cfg, es.drop_first()));
        lemma_run_monotone(s1, es.drop_first());
    }
}

/// A colliding pair freezes together: when two expanding circles collide,
/// the collision is mutual and the freeze phase of that same tick freezes
/// both, each keeping the radius it had.
pub proof fn lemma_colliding_pair_freezes(
    cs: Seq<CircleModel>,
    i: int,
    j: int,
    cfg: ConfigModel,
)
    requires
        0 <= i < cs.len(),
        0 <= j < cs.len(),
        i != j,
        cs[i].expanding,
        cs[j].expanding,
        spec_collides(cs[i], cs[j], cfg.border),
    ensures
        spec_collides(cs[j], cs[i], cfg.border),
        !freeze_all(cs, cfg)[i].expanding,
        !freeze_all(cs, cfg)[j].expanding,
        freeze_all(cs, cfg)[i].radius == cs[i].radius,
        freeze_all(cs, cfg)[j].radius == cs[j].radius,
{
    lemma_collides_symmetric(cs[i], cs[j], cfg.border);
    assert(spec_freezes(cs, i, cfg));
    assert(spec_freezes(cs, j, cfg));
}

/// Two expanding circles that collide at the start of a tick both leave
/// that tick frozen, each keeping the radius it entered with.
pub proof fn lemma_colliding_pair_freezes_in_tick(s: SimModel, i: int, j: int, elapsed: int)
    requires
        sim_wf(s),
        0 <= elapsed,
        0 <= i < s.circles.len(),
        0 <= j < s.circles.len(),
        i != j,
        s.circles[i].expanding,
        s.circles[j].expanding,
        spec_collides(s.circles[i], s.circles[j], s.cfg.border),
    ensures
        !spec_tick(s, elapsed).circles[i].expanding,
        !spec_tick(s, elapsed).circles[j].expanding,
        spec_tick(s, elapsed).circles[i].radius == s.circles[i].radius,
        spec_tick(s, elapsed).circles[j].radius == s.circles[j].radius,
{
    let credited = spec_credit(s.credit, elapsed);
    lemma_place_extends(s.circles, s.pool, credited, s.cfg);
    let placed = spec_place(s.circles, s.pool, credited, s.cfg);
    let circles1 = if s.countdown <= 0 {
        placed.0
    } else {
        s.circles
    };
    assert(circles1[i] == s.circles[i]);
    assert(circles1[j] == s.circles[j]);
    lemma_colliding_pair_freezes(circles1, i, j, s.cfg);
    let cs2 = freeze_all(circles1, s.cfg);
    assert(spec_tick(s, elapsed).circles[i] == cs2[i]);
    assert(spec_tick(s, elapsed).circles[j] == cs2[j]);
}

/// A circle whose center sits within a border width of the left canvas edge
/// is edge-colliding at every radius, zero included: the boundary checks
/// are non-strict.
pub proof fn lemma_pinned_at_edge(c: CircleModel, width: int, height: int, border: int)
    requires
        c.center.x <= border,
        0 <= c.radius,
    ensures
        spec_touches_edge(c, width, height, border),
{
}

} // verus!

