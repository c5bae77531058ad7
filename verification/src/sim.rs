//! The simulation state and its tick: spawn, freeze, grow.
//!
//! Each tick first banks the elapsed time as placement-attempt budget, then
//! (a) spawns a new circle if the spawn countdown has run out, (b) freezes
//! every expanding circle that touches an edge or another circle, deciding
//! all freezes against the radii as they stood at the start of the phase,
//! and (c) grows every circle that is still expanding. The whole tick is a
//! mathematical function of the prior state and the elapsed time,
//! `spec_tick`, which the executable `tick` is proved to implement exactly.

use vstd::prelude::*;

use crate::circle::{
    circle_bounded, growth_amount, spec_collides, spec_grow, spec_growth, spec_touches_edge,
    Circle, CircleModel, COLOR_WHITE,
};
use crate::config::{config_wf, Config, ConfigModel, CREDIT_MAX, ELAPSED_MAX, GROW_MAX,
    INTERVAL_MAX, RADIUS_MAX};
use crate::geometry::{point_in_canvas, Point, PointModel};
use crate::pool::{grid_count, spec_grid, shuffle_of, Pool};

verus! {

/// The views of a sequence of circles.
pub open spec fn circle_views(s: Seq<Circle>) -> Seq<CircleModel> {
    s.map_values(|c: Circle| c@)
}

/// Mathematical image of a `Sim`.
pub ghost struct SimModel {
    pub cfg: ConfigModel,
    pub circles: Seq<CircleModel>,
    pub pool: Seq<PointModel>,
    pub countdown: int,
    pub credit: int,
}

/// A circle that belongs to a simulation: its center on the canvas, its
/// radius inside the representational bound.
pub open spec fn circle_wf(c: CircleModel, cfg: ConfigModel) -> bool {
    &&& point_in_canvas(c.center, cfg.width, cfg.height)
    &&& 0 <= c.radius <= RADIUS_MAX as int
}

/// A well-formed simulation state.
pub open spec fn sim_wf(s: SimModel) -> bool {
    &&& config_wf(s.cfg)
    &&& forall|i: int| 0 <= i < s.circles.len() ==> circle_wf(#[trigger] s.circles[i], s.cfg)
    &&& forall|k: int|
        0 <= k < s.pool.len() ==> point_in_canvas(#[trigger] s.pool[k], s.cfg.width, s.cfg.height)
    &&& -(ELAPSED_MAX as int) <= s.countdown <= INTERVAL_MAX as int
    &&& 0 <= s.credit <= CREDIT_MAX as int
}

/// The trial circle a candidate center is tested as: radius zero, expanding.
pub open spec fn candidate_at(p: PointModel) -> CircleModel {
    CircleModel { center: p, color: COLOR_WHITE, radius: 0, expanding: true }
}

/// Whether `c` collides with any circle of `cs`.
pub open spec fn collides_any(c: CircleModel, cs: Seq<CircleModel>, border: int) -> bool {
    exists|j: int| 0 <= j < cs.len() && spec_collides(c, #[trigger] cs[j], border)
}

/// The placement attempt: candidates are popped while attempt budget
/// remains and the pool is not exhausted; the first whose trial circle
/// collides with nothing is added, ending the attempt. Every popped
/// candidate is gone for good, and each pop costs one attempt interval of
/// budget. Returns the circles, the pool and the remaining budget.
pub open spec fn spec_place(
    circles: Seq<CircleModel>,
    pool: Seq<PointModel>,
    credit: int,
    cfg: ConfigModel,
) -> (Seq<CircleModel>, Seq<PointModel>, int)
    decreases pool.len(),
{
    if pool.len() == 0 || credit < cfg.attempt_interval {
        (circles, pool, credit)
    } else {
        let cand = candidate_at(pool.last());
        let rest = pool.drop_last();
        let spent = credit - cfg.attempt_interval;
        if collides_any(cand, circles, cfg.border) {
            spec_place(circles, rest, spent, cfg)
        } else {
            (circles.push(cand), rest, spent)
        }
    }
}

/// The freeze decision for circle `i` of `cs`: an expanding circle freezes
/// when it touches an edge, or collides with any other circle, all radii
/// read as they stand in `cs`.
pub open spec fn spec_freezes(cs: Seq<CircleModel>, i: int, cfg: ConfigModel) -> bool {
    cs[i].expanding && (spec_touches_edge(cs[i], cfg.width, cfg.height, cfg.border) || exists|
        j: int,
    | 0 <= j < cs.len() && j != i && spec_collides(cs[i], #[trigger] cs[j], cfg.border))
}

/// The freeze phase: every circle whose freeze decision is true loses its
/// `expanding` flag; radii are untouched.
pub open spec fn freeze_all(cs: Seq<CircleModel>, cfg: ConfigModel) -> Seq<CircleModel> {
    Seq::new(
        cs.len(),
        |i: int|
            if spec_freezes(cs, i, cfg) {
                CircleModel { expanding: false, ..cs[i] }
            } else {
                cs[i]
            },
    )
}

/// The growth phase: every still-expanding circle gains `amount` of radius.
pub open spec fn grow_all(cs: Seq<CircleModel>, amount: int) -> Seq<CircleModel> {
    Seq::new(cs.len(), |i: int| spec_grow(cs[i], amount))
}

/// Banking elapsed time as attempt budget, capped at `CREDIT_MAX`.
pub open spec fn spec_credit(credit: int, elapsed: int) -> int {
    if credit + elapsed <= CREDIT_MAX as int {
        credit + elapsed
    } else {
        CREDIT_MAX as int
    }
}

/// One tick of the simulation over `elapsed` milliseconds: bank attempt
/// budget; if the spawn countdown has run out, run a placement attempt and
/// reset the countdown; always charge the countdown with the elapsed time;
/// then freeze, then grow.
pub open spec fn spec_tick(s: SimModel, elapsed: int) -> SimModel {
    let credited = spec_credit(s.credit, elapsed);
    let spawning = s.countdown <= 0;
    let placed = spec_place(s.circles, s.pool, credited, s.cfg);
    let circles1 = if spawning { placed.0 } else { s.circles };
    let pool1 = if spawning { placed.1 } else { s.pool };
    let credit1 = if spawning { placed.2 } else { credited };
    let countdown1 = (if spawning { s.cfg.spawn_interval } else { s.countdown }) - elapsed;
    let circles2 = freeze_all(circles1, s.cfg);
    let circles3 = grow_all(circles2, spec_growth(s.cfg.rate, elapsed));
    SimModel { cfg: s.cfg, circles: circles3, pool: pool1, countdown: countdown1, credit: credit1 }
}

/// Whether `cand` collides with any circle of `circles`.
fn collides_with_any(circles: &Vec<Circle>, cand: &Circle, border: i64) -> (r: bool)
    requires
        forall|i: int| 0 <= i < circles@.len() ==> circle_bounded((#[trigger] circles@[i])@),
        circle_bounded(cand@),
        0 <= border <= crate::config::BORDER_MAX,
    ensures
        r == collides_any(cand@, circle_views(circles@), border as int),
{
    let mut j: usize = 0;
    while j < circles.len()
        invariant
            0 <= j <= circles@.len(),
            forall|i: int| 0 <= i < circles@.len() ==> circle_bounded((#[trigger] circles@[i])@),
            circle_bounded(cand@),
            0 <= border <= crate::config::BORDER_MAX,
            forall|k: int|
                0 <= k < j ==> !spec_collides(cand@, circle_views(circles@)[k], border as int),
        decreases circles@.len() - j,
    {
        if cand.collides_with(&circles[j], border) {
            assert(spec_collides(cand@, circle_views(circles@)[j as int], border as int));
            return true;
        }
        j = j + 1;
    }
    false
}

/// The simulation: the circles so far, the remaining placement pool, the
/// spawn countdown and the banked attempt budget, under one fixed
/// configuration.
pub struct Sim {
    pub cfg: Config,
    pub circles: Vec<Circle>,
    pub pool: Pool,
    pub countdown: i64,
    pub credit: i64,
}

impl View for Sim {
    type V = SimModel;

    open spec fn view(&self) -> SimModel {
        SimModel {
            cfg: self.cfg@,
            circles: circle_views(self.circles@),
            pool: self.pool@,
            countdown: self.countdown as int,
            credit: self.credit as int,
        }
    }
}

impl Sim {
    /// The invariant every simulation satisfies between ticks.
    pub open spec fn wf(&self) -> bool {
        sim_wf(self@)
    }

    /// A fresh simulation: no circles, the full shuffled pool, a spawn due
    /// on the first tick, no banked attempt budget.
    pub fn new(cfg: Config, seed: u64) -> (r: Sim)
        requires
            cfg.wf(),
        ensures
            r@.cfg == cfg@,
            r@.circles.len() == 0,
            r@.pool == shuffle_of(seed, spec_grid(cfg@.width, cfg@.height, cfg@.spacing)),
            r@.pool.to_multiset() == spec_grid(
                cfg@.width,
                cfg@.height,
                cfg@.spacing,
            ).to_multiset(),
            r@.pool.len() == grid_count(cfg@.width, cfg@.height, cfg@.spacing),
            r@.countdown == 0,
            r@.credit == 0,
            r.wf(),
    {
        let pool = Pool::build(cfg.width, cfg.height, cfg.spacing, seed);
        let r = Sim { cfg, circles: Vec::new(), pool, countdown: 0, credit: 0 };
        proof {
            assert(circle_views(r.circles@) =~= Seq::<CircleModel>::empty());
        }
        r
    }

    /// The placement attempt of a spawn tick; see `spec_place`.
    fn try_place(&mut self)
        requires
            sim_wf(old(self)@),
        ensures
            final(self)@.cfg == old(self)@.cfg,
            final(self)@.countdown == old(self)@.countdown,
            (final(self)@.circles, final(self)@.pool, final(self)@.credit) == spec_place(
                old(self)@.circles,
                old(self)@.pool,
                old(self)@.credit,
                old(self)@.cfg,
            ),
            sim_wf(final(self)@),
    {
        let ghost cfgm = self@.cfg;
        let ghost c0 = self@.circles;
        let ghost p0 = self@.pool;
        let ghost cr0 = self@.credit;
        let mut done = false;
        while !done
            invariant
                self@.cfg == cfgm,
                self@.countdown == old(self)@.countdown,
                sim_wf(self@),
                done ==> (self@.circles, self@.pool, self@.credit) == spec_place(
                    c0,
                    p0,
                    cr0,
                    cfgm,
                ),
                !done ==> self@.circles == c0,
                !done ==> spec_place(c0, p0, cr0, cfgm) == spec_place(
                    c0,
                    self@.pool,
                    self@.credit,
                    cfgm,
                ),
            decreases (if done { 0int } else { self@.pool.len() as int + 1 }),
        {
            if self.pool.len() == 0 || self.credit < self.cfg.attempt_interval {
                done = true;
            } else {
                self.credit = self.credit - self.cfg.attempt_interval;
                let ghost pool_pre = self@.pool;
                let ghost credit_pre = self@.credit + cfgm.attempt_interval;
                let popped = self.pool.pop();
                let p = popped.unwrap();
                let cand = Circle::new_at(p);
                proof {
                    assert(point_in_canvas(p@, cfgm.width, cfgm.height));
                    assert(circle_bounded(cand@));
                    assert forall|i: int| 0 <= i < self.circles@.len() implies circle_bounded(
                        (#[trigger] self.circles@[i])@,
                    ) by {
                        assert(self.circles@[i]@ == self@.circles[i]);
                        assert(circle_wf(self@.circles[i], cfgm));
                    }
                }
                let hit = collides_with_any(&self.circles, &cand, self.cfg.border);
                proof {
                    assert(cand@ == candidate_at(pool_pre.last()));
                    assert(self@.pool == pool_pre.drop_last());
                    assert(spec_place(c0, pool_pre, credit_pre, cfgm) == (if collides_any(
                        cand@,
                        c0,
                        cfgm.border,
                    ) {
                        spec_place(c0, pool_pre.drop_last(), credit_pre - cfgm.attempt_interval, cfgm)
                    } else {
                        (
                            c0.push(cand@),
                            pool_pre.drop_last(),
                            credit_pre - cfgm.attempt_interval,
                        )
                    }));
                }
                if !hit {
                    self.circles.push(cand);
                    proof {
                        assert(circle_views(self.circles@) =~= c0.push(cand@));
                    }
                    done = true;
                }
            }
        }
    }

    /// The freeze decision of every circle, taken against the radii as they
    /// stand now.
    fn freeze_decisions(&self) -> (r: Vec<bool>)
        requires
            sim_wf(self@),
        ensures
            r@.len() == self@.circles.len(),
            forall|i: int|
                0 <= i < r@.len() ==> r@[i] == spec_freezes(self@.circles, i, self@.cfg),
    {
        let ghost cs = self@.circles;
        let ghost cfgm = self@.cfg;
        let n = self.circles.len();
        let mut r: Vec<bool> = Vec::new();
        let mut i: usize = 0;
        while i < n
            invariant
                sim_wf(self@),
                cs == self@.circles,
                cfgm == self@.cfg,
                n == self@.circles.len(),
                0 <= i <= n,
                r@.len() == i,
                forall|k: int| 0 <= k < i ==> r@[k] == spec_freezes(cs, k, cfgm),
            decreases n - i,
        {
            let c = self.circles[i];
            proof {
                assert(c@ == cs[i as int]);
                assert(circle_wf(cs[i as int], cfgm));
            }
            let mut decision = false;
            if c.expanding {
                if c.touches_edge(self.cfg.width, self.cfg.height, self.cfg.border) {
                    decision = true;
                } else {
                    let mut j: usize = 0;
                    while j < n && !decision
                        invariant
                            sim_wf(self@),
                            cs == self@.circles,
                            cfgm == self@.cfg,
                            n == self@.circles.len(),
                            0 <= i < n,
                            0 <= j <= n,
                            c == self.circles@[i as int],
                            c@ == cs[i as int],
                            c.expanding,
                            !decision ==> forall|k: int|
                                0 <= k < j && k != i ==> !spec_collides(
                                    cs[i as int],
                                    #[trigger] cs[k],
                                    cfgm.border,
                                ),
                            decision ==> spec_freezes(cs, i as int, cfgm),
                        decreases n - j,
                    {
                        if j != i {
                            proof {
                                assert(circle_wf(cs[j as int], cfgm));
                            }
                            if c.collides_with(&self.circles[j], self.cfg.border) {
                                decision = true;
                                proof {
                                    assert(spec_collides(cs[i as int], cs[j as int], cfgm.border));
                                    assert(spec_freezes(cs, i as int, cfgm));
                                }
                            }
                        }
                        j = j + 1;
                    }
                }
            }
            proof {
                assert(decision == spec_freezes(cs, i as int, cfgm));
            }
            r.push(decision);
            i = i + 1;
        }
        r
    }

    /// One tick of the simulation; implements `spec_tick` exactly. The two
    /// arithmetic bounds keep every radius and budget inside `i64`.
    pub fn tick(&mut self, elapsed: i64)
        requires
            old(self).wf(),
            0 <= elapsed <= ELAPSED_MAX,
            spec_growth(old(self)@.cfg.rate, elapsed as int) <= GROW_MAX,
        ensures
            final(self)@ == spec_tick(old(self)@, elapsed as int),
            final(self).wf(),
    {
        let ghost s0 = self@;
        // Bank the elapsed time as attempt budget.
        if self.credit <= CREDIT_MAX - elapsed {
            self.credit = self.credit + elapsed;
        } else {
            self.credit = CREDIT_MAX;
        }
        proof {
            assert(self@.credit == spec_credit(s0.credit, elapsed as int));
            assert(self@.circles == s0.circles);
            assert(self@.pool == s0.pool);
            assert(sim_wf(self@));
        }
        // Spawn phase.
        if self.countdown <= 0 {
            self.try_place();
            self.countdown = self.cfg.spawn_interval;
        }
        self.countdown = self.countdown - elapsed;
        let ghost s1 = self@;
        proof {
            let placed = spec_place(s0.circles, s0.pool, spec_credit(s0.credit, elapsed as int), s0.cfg);
            if s0.countdown <= 0 {
                assert(s1.circles == placed.0);
                assert(s1.pool == placed.1);
                assert(s1.credit == placed.2);
            }
        }
        // Freeze phase: decide against a snapshot of the radii, then apply.
        let decisions = self.freeze_decisions();
        let n = self.circles.len();
        let mut frozen: Vec<Circle> = Vec::new();
        let mut i: usize = 0;
        while i < n
            invariant
                s1 == self@,
                sim_wf(self@),
                n == self@.circles.len(),
                decisions@.len() == n,
                forall|k: int|
                    0 <= k < n ==> decisions@[k] == spec_freezes(self@.circles, k, self@.cfg),
                0 <= i <= n,
                frozen@.len() == i,
                forall|k: int|
                    0 <= k < i ==> (#[trigger] frozen@[k])@ == freeze_all(
                        self@.circles,
                        self@.cfg,
                    )[k],
            decreases n - i,
        {
            let mut c = self.circles[i];
            if decisions[i] {
                c.expanding = false;
            }
            frozen.push(c);
            i = i + 1;
        }
        // Growth phase.
        let g = growth_amount(self.cfg.rate, elapsed);
        let ghost cs2 = freeze_all(s1.circles, s1.cfg);
        proof {
            assert(circle_views(frozen@) =~= cs2);
        }
        let mut grown: Vec<Circle> = Vec::new();
        let mut i2: usize = 0;
        while i2 < n
            invariant
                s1 == self@,
                sim_wf(self@),
                n == self@.circles.len(),
                frozen@.len() == n,
                circle_views(frozen@) == cs2,
                cs2 == freeze_all(s1.circles, s1.cfg),
                s1.cfg == self@.cfg,
                0 <= g,
                g as int == spec_growth(s1.cfg.rate, elapsed as int),
                g <= GROW_MAX,
                0 <= i2 <= n,
                grown@.len() == i2,
                forall|k: int|
                    0 <= k < i2 ==> (#[trigger] grown@[k])@ == grow_all(cs2, g as int)[k],
                forall|k: int|
                    0 <= k < i2 ==> circle_wf((#[trigger] grown@[k])@, s1.cfg),
            decreases n - i2,
        {
            let mut c = frozen[i2];
            proof {
                assert(c@ == cs2[i2 as int]);
                assert(cs2[i2 as int] == (if spec_freezes(s1.circles, i2 as int, s1.cfg) {
                    CircleModel { expanding: false, ..s1.circles[i2 as int] }
                } else {
                    s1.circles[i2 as int]
                }));
                assert(circle_wf(s1.circles[i2 as int], s1.cfg));
                if c@.expanding {
                    // Still expanding, so the freeze decision was negative:
                    // the circle stands clear of every edge, which bounds its
                    // radius by the canvas and leaves room for one growth.
                    assert(!spec_freezes(s1.circles, i2 as int, s1.cfg));
                    assert(!spec_touches_edge(
                        s1.circles[i2 as int],
                        s1.cfg.width,
                        s1.cfg.height,
                        s1.cfg.border,
                    ));
                    assert(c@.radius < s1.cfg.width);
                    assert(c@.radius + g <= RADIUS_MAX as int);
                }
            }
            c.grow(g);
            grown.push(c);
            i2 = i2 + 1;
        }
        self.circles = grown;
        proof {
            assert(circle_views(self.circles@) =~= grow_all(cs2, g as int));
            assert(self@ == spec_tick(s0, elapsed as int));
            assert forall|k: int| 0 <= k < self@.circles.len() implies circle_wf(
                #[trigger] self@.circles[k],
                self@.cfg,
            ) by {
                assert(self@.circles[k] == grown@[k]@);
            }
        }
    }
}

} // verus!
