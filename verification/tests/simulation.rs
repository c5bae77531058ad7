use circle_fill::config::Config;
use circle_fill::geometry::Point;
use circle_fill::pool::Pool;
use circle_fill::sim::Sim;

fn small_canvas() -> Config {
    Config {
        width: 120_000,
        height: 120_000,
        spacing: 60_000,
        border: 1_000,
        rate: 50_000,
        spawn_interval: 1_000,
        attempt_interval: 16,
    }
}

/// A simulation whose pool is laid out by hand; candidates pop from the back.
fn sim_with_pool(cfg: Config, points: Vec<Point>) -> Sim {
    Sim { cfg, circles: Vec::new(), pool: Pool { points }, countdown: 0, credit: 0 }
}

#[test]
fn spawn_tick_places_and_grows_one_circle() {
    // Canvas 120 x 120, spacing 60, border 1, rate 50/s, one spawn per
    // second. The interior candidate (60, 60) is popped first.
    let mut sim = sim_with_pool(
        small_canvas(),
        vec![
            Point::new(0, 0),
            Point::new(0, 60_000),
            Point::new(60_000, 0),
            Point::new(60_000, 60_000),
        ],
    );
    sim.tick(1_000);
    assert_eq!(sim.circles.len(), 1);
    assert_eq!(sim.pool.len(), 3);
    assert_eq!(sim.circles[0].center, Point::new(60_000, 60_000));
    // The fresh circle is clear of every edge and grows on its spawn tick:
    // 50 units/s over 1 s.
    assert_eq!(sim.circles[0].radius, 50_000);
    assert!(sim.circles[0].expanding);

    // Two further half-second ticks: one more growth step, then the circle
    // reaches past the right edge (60 + 75 + 1 >= 120) and freezes.
    sim.tick(500);
    assert_eq!(sim.circles[0].radius, 75_000);
    assert!(sim.circles[0].expanding);
    sim.tick(500);
    assert_eq!(sim.circles[0].radius, 75_000);
    assert!(!sim.circles[0].expanding);
}

#[test]
fn corner_candidate_freezes_at_zero() {
    // A candidate on the canvas corner touches two edges at radius zero: it
    // is placed, then frozen on the same tick, and never grows.
    let mut sim = sim_with_pool(small_canvas(), vec![Point::new(0, 0)]);
    sim.tick(1_000);
    assert_eq!(sim.circles.len(), 1);
    assert_eq!(sim.circles[0].radius, 0);
    assert!(!sim.circles[0].expanding);
    sim.tick(1_000);
    assert_eq!(sim.circles[0].radius, 0);
}

#[test]
fn colliding_pair_freezes_together() {
    // Two circles placed 10 units apart with border 1, growing 0.1 unit per
    // tick. While the combined reach stays below 10 both keep expanding; on
    // the first tick it passes 10 the collision is mutual and both freeze,
    // keeping the radii they had at the start of that tick.
    let cfg = Config {
        width: 1_000_000,
        height: 1_000_000,
        spacing: 60_000,
        border: 1_000,
        rate: 100,
        spawn_interval: 1_000_000,
        attempt_interval: 16,
    };
    let mut sim = sim_with_pool(cfg, Vec::new());
    sim.countdown = 1_000_000;
    let mut a = circle_fill::circle::Circle::new_at(Point::new(495_000, 500_000));
    let mut b = circle_fill::circle::Circle::new_at(Point::new(505_000, 500_000));
    a.radius = 3_900;
    b.radius = 4_000;
    sim.circles.push(a);
    sim.circles.push(b);

    // Reach 3.9 + 4.0 + 2 = 9.9 < 10: no collision yet, both grow by 0.1.
    assert!(!sim.circles[0].collides_with(&sim.circles[1], cfg.border));
    sim.tick(1_000);
    assert_eq!(sim.circles[0].radius, 4_000);
    assert_eq!(sim.circles[1].radius, 4_100);
    assert!(sim.circles[0].expanding && sim.circles[1].expanding);

    // Reach 4.0 + 4.1 + 2 = 10.1 > 10: collision, both ways, both freeze
    // within this tick, radii untouched.
    assert!(sim.circles[0].collides_with(&sim.circles[1], cfg.border));
    assert!(sim.circles[1].collides_with(&sim.circles[0], cfg.border));
    sim.tick(1_000);
    assert_eq!(sim.circles[0].radius, 4_000);
    assert_eq!(sim.circles[1].radius, 4_100);
    assert!(!sim.circles[0].expanding && !sim.circles[1].expanding);
}

#[test]
fn occupied_candidates_are_discarded() {
    // A candidate colliding with an existing circle is popped and dropped;
    // the next free one is taken in the same attempt.
    let cfg = Config {
        width: 1_000_000,
        height: 1_000_000,
        spacing: 60_000,
        border: 1_000,
        rate: 0,
        spawn_interval: 1_000,
        attempt_interval: 1,
    };
    // (500, 500) is blocked: a radius-3 circle sits right there.
    let mut sim = sim_with_pool(
        cfg,
        vec![Point::new(100_000, 100_000), Point::new(500_000, 500_000)],
    );
    let mut blocker = circle_fill::circle::Circle::new_at(Point::new(500_000, 500_000));
    blocker.radius = 3_000;
    blocker.expanding = false;
    sim.circles.push(blocker);

    sim.tick(1_000);
    // Both candidates were popped: the blocked one discarded, the free one
    // placed.
    assert_eq!(sim.pool.len(), 0);
    assert_eq!(sim.circles.len(), 2);
    assert_eq!(sim.circles[1].center, Point::new(100_000, 100_000));

    // The pool is exhausted: no further circle is ever created.
    sim.tick(1_000);
    sim.tick(1_000);
    assert_eq!(sim.circles.len(), 2);
}

#[test]
fn attempts_wait_for_budget() {
    // One placement attempt costs a full second of budget: a half-second
    // tick cannot pay for it, so the spawn is deferred until enough budget
    // has accrued.
    let cfg = Config {
        width: 120_000,
        height: 120_000,
        spacing: 60_000,
        border: 1_000,
        rate: 0,
        spawn_interval: 500,
        attempt_interval: 1_000,
    };
    let mut sim = sim_with_pool(cfg, vec![Point::new(60_000, 60_000)]);
    sim.tick(500);
    assert_eq!(sim.circles.len(), 0);
    assert_eq!(sim.pool.len(), 1);
    sim.tick(500);
    assert_eq!(sim.circles.len(), 1);
    assert_eq!(sim.pool.len(), 0);
}

#[test]
fn radii_never_shrink_and_frozen_stay_frozen() {
    let cfg = Config {
        width: 1_280_000,
        height: 720_000,
        spacing: 15_000,
        border: 1_000,
        rate: 75_000,
        spawn_interval: 16,
        attempt_interval: 16,
    };
    let mut sim = Sim::new(cfg, 77);
    let mut seen: Vec<(i64, bool)> = Vec::new();
    for _ in 0..120 {
        sim.tick(16);
        assert!(sim.circles.len() >= seen.len());
        for (i, &(radius, expanding)) in seen.iter().enumerate() {
            assert!(sim.circles[i].radius >= radius);
            if !expanding {
                assert!(!sim.circles[i].expanding);
                assert_eq!(sim.circles[i].radius, radius);
            }
        }
        seen = sim.circles.iter().map(|c| (c.radius, c.expanding)).collect();
    }
    assert!(!sim.circles.is_empty());
}

#[test]
fn equal_seeds_give_equal_runs() {
    let cfg = Config {
        width: 1_280_000,
        height: 720_000,
        spacing: 15_000,
        border: 1_000,
        rate: 75_000,
        spawn_interval: 16,
        attempt_interval: 16,
    };
    let elapsed = [16i64, 16, 33, 7, 16, 500, 16, 16, 100, 16];
    let mut a = Sim::new(cfg, 2_024);
    let mut b = Sim::new(cfg, 2_024);
    assert_eq!(a.pool.points, b.pool.points);
    for &e in elapsed.iter() {
        a.tick(e);
        b.tick(e);
    }
    assert_eq!(a.circles, b.circles);
    assert_eq!(a.pool.points, b.pool.points);
    assert_eq!(a.countdown, b.countdown);
    assert_eq!(a.credit, b.credit);

    // A different seed is allowed to (and here does) order the pool
    // differently.
    let c = Sim::new(cfg, 2_025);
    assert_ne!(a.pool.points.len(), 0);
    assert_ne!(c.pool.points, b.pool.points);
}
