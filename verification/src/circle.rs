//! The circle entity: a fixed center, a growing radius, and the one-way
//! `expanding -> frozen` state.
//!
//! Collision distances are compared squared: for a non-negative reach,
//! `distance < reach` holds exactly when `distance² < reach²`, which keeps
//! the strict-inequality rule of the collision test in integer arithmetic.

use vstd::prelude::*;

use crate::config::{BORDER_MAX, DIM_MAX, ELAPSED_MAX, RADIUS_MAX, RATE_MAX};
use crate::geometry::{dist_sq, lemma_dist_sq_symmetric, Point, PointModel};

verus! {

/// The color every circle is created with (opaque white, RGBA).
pub const COLOR_WHITE: u32 = 0xFFFF_FFFF;

/// A circle of the simulation. The center never moves; the radius only
/// grows, and only while `expanding` holds; `expanding` never returns to
/// true once cleared. The color is cosmetic and plays no part in the rules.
#[derive(Clone, Copy, PartialEq, Eq, Structural, Debug)]
pub struct Circle {
    pub center: Point,
    pub color: u32,
    pub radius: i64,
    pub expanding: bool,
}

/// Mathematical image of a `Circle`.
pub ghost struct CircleModel {
    pub center: PointModel,
    pub color: u32,
    pub radius: int,
    pub expanding: bool,
}

impl View for Circle {
    type V = CircleModel;

    open spec fn view(&self) -> CircleModel {
        CircleModel {
            center: self.center@,
            color: self.color,
            radius: self.radius as int,
            expanding: self.expanding,
        }
    }
}

/// A circle whose center and radius lie inside the representational bounds.
pub open spec fn circle_bounded(c: CircleModel) -> bool {
    &&& 0 <= c.center.x <= DIM_MAX as int
    &&& 0 <= c.center.y <= DIM_MAX as int
    &&& 0 <= c.radius <= RADIUS_MAX as int
}

/// How close two centers may come before the circles collide: the two radii
/// plus a border width on each side.
pub open spec fn collision_reach(a: CircleModel, b: CircleModel, border: int) -> int {
    a.radius + b.radius + 2 * border
}

/// Two circles collide when the Euclidean distance between their centers is
/// strictly less than `collision_reach`; compared squared.
pub open spec fn spec_collides(a: CircleModel, b: CircleModel, border: int) -> bool {
    dist_sq(a.center, b.center)
        < collision_reach(a, b, border) * collision_reach(a, b, border)
}

/// A circle touches a canvas edge when `radius + border` reaches past any of
/// the four boundaries; exact contact counts (non-strict inequalities).
pub open spec fn spec_touches_edge(c: CircleModel, width: int, height: int, border: int) -> bool {
    ||| c.center.x + c.radius + border >= width
    ||| c.center.x - c.radius - border <= 0
    ||| c.center.y + c.radius + border >= height
    ||| c.center.y - c.radius - border <= 0
}

/// One growth step: an expanding circle's radius gains `amount`, a frozen
/// circle is untouched.
pub open spec fn spec_grow(c: CircleModel, amount: int) -> CircleModel {
    if c.expanding {
        CircleModel { radius: c.radius + amount, ..c }
    } else {
        c
    }
}

/// How much an expanding circle grows over `elapsed` milliseconds at `rate`
/// milli-units per second.
pub open spec fn spec_growth(rate: int, elapsed: int) -> int {
    rate * elapsed / 1000
}

/// The collision test is symmetric: `A` collides with `B` exactly when `B`
/// collides with `A`.
pub proof fn lemma_collides_symmetric(a: CircleModel, b: CircleModel, border: int)
    ensures
        spec_collides(a, b, border) == spec_collides(b, a, border),
{
    lemma_dist_sq_symmetric(a.center, b.center);
}

impl Circle {
    /// A fresh circle at `center`: radius zero, expanding, white.
    pub fn new_at(center: Point) -> (r: Circle)
        ensures
            r@ == (CircleModel {
                center: center@,
                color: COLOR_WHITE,
                radius: 0,
                expanding: true,
            }),
    {
        Circle { center, color: COLOR_WHITE, radius: 0, expanding: true }
    }

    /// Whether `self` collides with `other` under the given border width:
    /// center distance strictly below the combined radii plus two borders.
    pub fn collides_with(&self, other: &Circle, border: i64) -> (r: bool)
        requires
            circle_bounded(self@),
            circle_bounded(other@),
            0 <= border <= BORDER_MAX,
        ensures
            r == spec_collides(self@, other@, border as int),
    {
        let d2: i64 = self.center.distance_sq_to(&other.center);
        let reach: i64 = self.radius + other.radius + 2 * border;
        proof {
            assert(0 <= reach <= 270_532_608);
            assert(0 <= reach * reach <= 0x7fff_ffff_ffff_ffff) by (nonlinear_arith)
                requires 0 <= reach <= 270_532_608;
        }
        d2 < reach * reach
    }

    /// Whether `self`, with its border, reaches any edge of a
    /// `width`-by-`height` canvas; exact contact counts.
    pub fn touches_edge(&self, width: i64, height: i64, border: i64) -> (r: bool)
        requires
            circle_bounded(self@),
            0 < width <= DIM_MAX,
            0 < height <= DIM_MAX,
            0 <= border <= BORDER_MAX,
        ensures
            r == spec_touches_edge(self@, width as int, height as int, border as int),
    {
        let space: i64 = self.radius + border;
        self.center.x + space >= width || self.center.x - space <= 0
            || self.center.y + space >= height || self.center.y - space <= 0
    }

    /// Grows an expanding circle by `amount`; a frozen circle is untouched.
    pub fn grow(&mut self, amount: i64)
        requires
            0 <= amount,
            old(self).expanding ==> old(self).radius + amount <= RADIUS_MAX,
        ensures
            final(self)@ == spec_grow(old(self)@, amount as int),
    {
        if self.expanding {
            self.radius = self.radius + amount;
        }
    }
}

/// The growth one tick adds at `rate` milli-units per second over `elapsed`
/// milliseconds.
pub fn growth_amount(rate: i64, elapsed: i64) -> (r: i64)
    requires
        0 <= rate <= RATE_MAX,
        0 <= elapsed <= ELAPSED_MAX,
    ensures
        r as int == spec_growth(rate as int, elapsed as int),
        r >= 0,
{
    proof {
        assert(0 <= rate as int * elapsed as int <= RATE_MAX as int * ELAPSED_MAX as int)
            by (nonlinear_arith)
            requires 0 <= rate as int <= RATE_MAX as int && 0 <= elapsed as int <= ELAPSED_MAX as int;
    }
    let prod: i64 = rate * elapsed;
    let quot: u64 = (prod as u64) / 1000;
    proof {
        assert(quot as int == prod as int / 1000);
        assert(prod as int / 1000 <= prod as int) by (nonlinear_arith)
            requires 0 <= prod as int;
        assert(prod as int / 1000 >= 0) by (nonlinear_arith)
            requires 0 <= prod as int;
    }
    quot as i64
}

} // verus!
