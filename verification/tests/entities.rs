use circle_fill::circle::{growth_amount, Circle, COLOR_WHITE};
use circle_fill::geometry::Point;
use circle_fill::pool::Pool;

#[test]
fn new_circle_starts_at_zero_and_expanding() {
    let c = Circle::new_at(Point::new(7_000, 9_000));
    assert_eq!(c.center, Point::new(7_000, 9_000));
    assert_eq!(c.radius, 0);
    assert!(c.expanding);
    assert_eq!(c.color, COLOR_WHITE);
}

#[test]
fn collision_is_symmetric() {
    // Centers 10 units apart; combined reach 4.1 + 4.0 + 2 * 1.0 > 10.
    let mut a = Circle::new_at(Point::new(50_000, 60_000));
    let mut b = Circle::new_at(Point::new(60_000, 60_000));
    a.radius = 4_100;
    b.radius = 4_000;
    assert!(a.collides_with(&b, 1_000));
    assert!(b.collides_with(&a, 1_000));

    // Combined reach 3.0 + 3.0 + 2.0 = 8 < 10: no collision, either way.
    a.radius = 3_000;
    b.radius = 3_000;
    assert!(!a.collides_with(&b, 1_000));
    assert!(!b.collides_with(&a, 1_000));
}

#[test]
fn collision_distance_is_strict() {
    // Combined reach exactly equals the distance: the strict test says no.
    let mut a = Circle::new_at(Point::new(50_000, 60_000));
    let mut b = Circle::new_at(Point::new(60_000, 60_000));
    a.radius = 4_000;
    b.radius = 4_000;
    assert!(!a.collides_with(&b, 1_000));
    assert!(!b.collides_with(&a, 1_000));
    // One milli-unit more and they collide.
    b.radius = 4_001;
    assert!(a.collides_with(&b, 1_000));
    assert!(b.collides_with(&a, 1_000));
}

#[test]
fn edge_contact_is_inclusive() {
    // Centered circle on a 120 x 120 canvas with border 1: radius 59 makes
    // exact contact with the right edge, which already counts.
    let mut c = Circle::new_at(Point::new(60_000, 60_000));
    c.radius = 59_000;
    assert!(c.touches_edge(120_000, 120_000, 1_000));
    c.radius = 58_999;
    assert!(!c.touches_edge(120_000, 120_000, 1_000));
}

#[test]
fn circle_pinned_at_left_edge_collides_at_any_radius() {
    // Center (0.5, 60) on a 120-wide canvas with border 1:
    // x - radius - border <= 0 for every radius >= 0.
    let mut c = Circle::new_at(Point::new(500, 60_000));
    assert!(c.touches_edge(120_000, 120_000, 1_000));
    c.radius = 1;
    assert!(c.touches_edge(120_000, 120_000, 1_000));
    c.radius = 12_345;
    assert!(c.touches_edge(120_000, 120_000, 1_000));
}

#[test]
fn growth_amount_is_rate_times_seconds() {
    // 50 units/s over 0.5 s is 25 units.
    assert_eq!(growth_amount(50_000, 500), 25_000);
    // 75 units/s over 16 ms, floored to the milli-unit.
    assert_eq!(growth_amount(75_000, 16), 1_200);
    assert_eq!(growth_amount(75_000, 0), 0);
}

#[test]
fn grow_is_a_no_op_once_frozen() {
    let mut c = Circle::new_at(Point::new(10_000, 10_000));
    c.grow(5_000);
    assert_eq!(c.radius, 5_000);
    c.expanding = false;
    c.grow(5_000);
    assert_eq!(c.radius, 5_000);
}

#[test]
fn pool_holds_every_grid_point_once() {
    // floor(120/60) * floor(120/60) = 4 candidates.
    let pool = Pool::build(120_000, 120_000, 60_000, 1);
    assert_eq!(pool.len(), 4);
    let mut got: Vec<(i64, i64)> = pool.points.iter().map(|p| (p.x, p.y)).collect();
    got.sort();
    assert_eq!(got, vec![(0, 0), (0, 60_000), (60_000, 0), (60_000, 60_000)]);
}

#[test]
fn pool_len_ignores_partial_cells() {
    // floor(130/60) = 2 columns, floor(70/60) = 1 row.
    let pool = Pool::build(130_000, 70_000, 60_000, 9);
    assert_eq!(pool.len(), 2);
}

#[test]
fn pop_shrinks_the_pool_by_exactly_one() {
    let mut pool = Pool::build(120_000, 120_000, 60_000, 42);
    for expected in (0..4).rev() {
        let p = pool.pop();
        assert!(p.is_some());
        assert_eq!(pool.len(), expected);
    }
    assert!(pool.pop().is_none());
    assert_eq!(pool.len(), 0);
}

#[test]
fn same_seed_shuffles_alike() {
    let a = Pool::build(1_280_000, 720_000, 15_000, 123);
    let b = Pool::build(1_280_000, 720_000, 15_000, 123);
    assert_eq!(a.points, b.points);
    assert_eq!(a.len(), (1_280 / 15) * (720 / 15));
}
