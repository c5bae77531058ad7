//! 2D points in milli-unit fixed-point coordinates and the squared
//! Euclidean distance between them.
//!
//! Distances are compared squared: for non-negative quantities,
//! `dist < bound` holds exactly when `dist² < bound²`, and squares stay in
//! integer arithmetic.

use vstd::prelude::*;

use crate::config::DIM_MAX;

verus! {

/// A 2D coordinate in milli-units.
#[derive(Clone, Copy, PartialEq, Eq, Structural, Debug)]
pub struct Point {
    pub x: i64,
    pub y: i64,
}

/// Mathematical image of a `Point`.
pub ghost struct PointModel {
    pub x: int,
    pub y: int,
}

impl View for Point {
    type V = PointModel;

    open spec fn view(&self) -> PointModel {
        PointModel { x: self.x as int, y: self.y as int }
    }
}

/// A point that lies on a canvas of the given dimensions.
pub open spec fn point_in_canvas(p: PointModel, width: int, height: int) -> bool {
    &&& 0 <= p.x <= width
    &&& 0 <= p.y <= height
}

/// The squared Euclidean distance between two points.
pub open spec fn dist_sq(a: PointModel, b: PointModel) -> int {
    (a.x - b.x) * (a.x - b.x) + (a.y - b.y) * (a.y - b.y)
}

/// Squared distance is symmetric in its two points.
pub proof fn lemma_dist_sq_symmetric(a: PointModel, b: PointModel)
    ensures
        dist_sq(a, b) == dist_sq(b, a),
{
    assert((a.x - b.x) * (a.x - b.x) == (b.x - a.x) * (b.x - a.x)) by (nonlinear_arith);
    assert((a.y - b.y) * (a.y - b.y) == (b.y - a.y) * (b.y - a.y)) by (nonlinear_arith);
}

impl Point {
    /// Builds the point `(x, y)`.
    pub fn new(x: i64, y: i64) -> (r: Point)
        ensures
            r@ == (PointModel { x: x as int, y: y as int }),
    {
        Point { x, y }
    }

    /// The squared Euclidean distance from `self` to `other`, for points on
    /// a canvas no larger than `DIM_MAX` in either direction.
    pub fn distance_sq_to(&self, other: &Point) -> (r: i64)
        requires
            0 <= self.x <= DIM_MAX,
            0 <= self.y <= DIM_MAX,
            0 <= other.x <= DIM_MAX,
            0 <= other.y <= DIM_MAX,
        ensures
            r as int == dist_sq(self@, other@),
    {
        let dx: i64 = self.x - other.x;
        let dy: i64 = self.y - other.y;
        proof {
            assert(dx * dx <= DIM_MAX as int * DIM_MAX as int && dx * dx >= 0)
                by (nonlinear_arith)
                requires -(DIM_MAX as int) <= dx <= DIM_MAX as int;
            assert(dy * dy <= DIM_MAX as int * DIM_MAX as int && dy * dy >= 0)
                by (nonlinear_arith)
                requires -(DIM_MAX as int) <= dy <= DIM_MAX as int;
        }
        dx * dx + dy * dy
    }
}

} // verus!
