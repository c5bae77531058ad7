//! The placement pool: every point of a fixed grid covering the canvas,
//! generated once and then permuted by a seeded pseudo-random shuffle.
//! Candidates are consumed by popping one at a time; a popped candidate is
//! gone whether or not it becomes a circle.

use vstd::prelude::*;

use vstd::arithmetic::div_mod::{
    lemma_div_pos_is_pos, lemma_fundamental_div_mod, lemma_fundamental_div_mod_converse,
    lemma_mod_bound, lemma_multiply_divide_lt,
};
use vstd::arithmetic::mul::lemma_mul_inequality;
use vstd::seq_lib::group_to_multiset_ensures;

use crate::config::DIM_MAX;
use crate::geometry::{point_in_canvas, Point, PointModel};

verus! {

/// The permutation that the seeded shuffle of the placement grid yields.
/// Its value is fixed by the shuffle algorithm and the seed alone; the
/// library states of it only that it permutes its input (see
/// `shuffle_points`).
pub uninterp spec fn shuffle_of(seed: u64, pts: Seq<PointModel>) -> Seq<PointModel>;

/// How many grid points a `width`-by-`height` canvas holds at `spacing`:
/// `floor(width / spacing) * floor(height / spacing)`.
pub open spec fn grid_count(width: int, height: int, spacing: int) -> int {
    (width / spacing) * (height / spacing)
}

/// The grid `(i * spacing, j * spacing)` over the canvas, row by row:
/// `i` runs to `floor(width / spacing)`, `j` to `floor(height / spacing)`.
pub open spec fn spec_grid(width: int, height: int, spacing: int) -> Seq<PointModel> {
    let ny = height / spacing;
    Seq::new(
        grid_count(width, height, spacing) as nat,
        |k: int| PointModel { x: k / ny * spacing, y: k % ny * spacing },
    )
}

/// Every grid point lies on the canvas.
pub proof fn lemma_grid_in_canvas(width: int, height: int, spacing: int)
    requires
        0 < width,
        0 < height,
        0 < spacing,
    ensures
        forall|k: int|
            0 <= k < spec_grid(width, height, spacing).len() ==> point_in_canvas(
                #[trigger] spec_grid(width, height, spacing)[k],
                width,
                height,
            ),
{
    let nx = width / spacing;
    let ny = height / spacing;
    lemma_fundamental_div_mod(width, spacing);
    lemma_mod_bound(width, spacing);
    lemma_fundamental_div_mod(height, spacing);
    lemma_mod_bound(height, spacing);
    assert forall|k: int| 0 <= k < spec_grid(width, height, spacing).len() implies point_in_canvas(
        #[trigger] spec_grid(width, height, spacing)[k],
        width,
        height,
    ) by {
        assert(0 <= k < nx * ny);
        assert(nx >= 0 && ny >= 0) by {
            lemma_div_pos_is_pos(width, spacing);
            lemma_div_pos_is_pos(height, spacing);
        }
        assert(ny > 0 && nx > 0) by (nonlinear_arith)
            requires 0 <= k < nx * ny && nx >= 0 && ny >= 0;
        assert(k < ny * nx) by (nonlinear_arith)
            requires k < nx * ny;
        lemma_multiply_divide_lt(k, ny, nx);
        lemma_mod_bound(k, ny);
        assert(0 <= k / ny <= nx - 1);
        assert(0 <= k % ny <= ny - 1);
        lemma_mul_inequality(k / ny, nx - 1, spacing);
        lemma_mul_inequality(k % ny, ny - 1, spacing);
        assert((nx - 1) * spacing == nx * spacing - spacing) by (nonlinear_arith);
        assert((ny - 1) * spacing == ny * spacing - spacing) by (nonlinear_arith);
        assert(nx * spacing <= width);
        assert(ny * spacing <= height);
        assert(k / ny * spacing >= 0);
        assert(k % ny * spacing >= 0);
    }
}

/// Relies on `rand::seq::SliceRandom::shuffle`, driven by
/// `chacha20::ChaCha12Rng` seeded with `SeedableRng::seed_from_u64(seed)`:
/// a Fisher-Yates shuffle whose every draw comes from the ChaCha12 stream, a
/// fixed deterministic cipher, seeded by `seed` alone. The result is a
/// permutation of the input and a function of the seed and the input alone.
#[verifier::external_body]
fn shuffle_points(pts: Vec<Point>, seed: u64) -> (r: Vec<Point>)
    ensures
        r@.map_values(|p: Point| p@) == shuffle_of(seed, pts@.map_values(|p: Point| p@)),
        r@.map_values(|p: Point| p@).to_multiset() == pts@.map_values(
            |p: Point| p@,
        ).to_multiset(),
        r@.len() == pts@.len(),
{
    let mut rng = <chacha20::ChaCha12Rng as rand::SeedableRng>::seed_from_u64(seed);
    let mut pts = pts;
    rand::seq::SliceRandom::shuffle(pts.as_mut_slice(), &mut rng);
    pts
}

/// The shuffled reservoir of untried grid positions for new circles.
pub struct Pool {
    pub points: Vec<Point>,
}

impl View for Pool {
    type V = Seq<PointModel>;

    open spec fn view(&self) -> Seq<PointModel> {
        self.points@.map_values(|p: Point| p@)
    }
}

impl Pool {
    /// Every remaining candidate lies on the canvas.
    pub open spec fn in_canvas(&self, width: int, height: int) -> bool {
        forall|k: int| 0 <= k < self@.len() ==> point_in_canvas(#[trigger] self@[k], width, height)
    }

    /// Builds the pool for a `width`-by-`height` canvas at `spacing`: every
    /// grid point once, in the order the seeded shuffle put them.
    pub fn build(width: i64, height: i64, spacing: i64, seed: u64) -> (r: Pool)
        requires
            0 < width <= DIM_MAX,
            0 < height <= DIM_MAX,
            0 < spacing <= DIM_MAX,
        ensures
            r@ == shuffle_of(seed, spec_grid(width as int, height as int, spacing as int)),
            r@.to_multiset() == spec_grid(
                width as int,
                height as int,
                spacing as int,
            ).to_multiset(),
            r@.len() == grid_count(width as int, height as int, spacing as int),
            r.in_canvas(width as int, height as int),
    {
        let ghost w = width as int;
        let ghost h = height as int;
        let ghost s = spacing as int;
        let ghost g = spec_grid(w, h, s);
        let su: u64 = spacing as u64;
        let nx: u64 = (width as u64) / su;
        let ny: u64 = (height as u64) / su;
        proof {
            lemma_fundamental_div_mod(w, s);
            lemma_mod_bound(w, s);
            lemma_fundamental_div_mod(h, s);
            lemma_mod_bound(h, s);
            assert(nx as int == w / s);
            assert(ny as int == h / s);
            assert((w / s) * s <= w) by (nonlinear_arith)
                requires w == s * (w / s) + w % s && w % s >= 0;
            assert((h / s) * s <= h) by (nonlinear_arith)
                requires h == s * (h / s) + h % s && h % s >= 0;
        }
        let mut pts: Vec<Point> = Vec::new();
        let mut i: u64 = 0;
        while i < nx
            invariant
                0 <= i <= nx,
                nx as int == w / s,
                ny as int == h / s,
                su as int == s,
                0 < s <= DIM_MAX,
                0 < w <= DIM_MAX,
                0 < h <= DIM_MAX,
                (nx as int) * s <= w,
                (ny as int) * s <= h,
                g == spec_grid(w, h, s),
                pts@.len() == i as int * ny as int,
                forall|k: int| 0 <= k < pts@.len() ==> (#[trigger] pts@[k])@ == g[k],
            decreases nx - i,
        {
            let mut j: u64 = 0;
            while j < ny
                invariant
                    0 <= i < nx,
                    0 <= j <= ny,
                    nx as int == w / s,
                    ny as int == h / s,
                    su as int == s,
                    0 < s <= DIM_MAX,
                    0 < w <= DIM_MAX,
                    0 < h <= DIM_MAX,
                    (nx as int) * s <= w,
                    (ny as int) * s <= h,
                    g == spec_grid(w, h, s),
                    pts@.len() == i as int * ny as int + j as int,
                    forall|k: int| 0 <= k < pts@.len() ==> (#[trigger] pts@[k])@ == g[k],
                decreases ny - j,
            {
                proof {
                    lemma_mul_inequality(i as int + 1, nx as int, s);
                    assert((i as int + 1) * s == i as int * s + s) by (nonlinear_arith);
                    assert(i as int * s <= w - s);
                    lemma_mul_inequality(j as int + 1, ny as int, s);
                    assert((j as int + 1) * s == j as int * s + s) by (nonlinear_arith);
                    assert(j as int * s <= h - s);
                    assert(i as int * s >= 0 && j as int * s >= 0) by (nonlinear_arith)
                        requires i as int >= 0 && j as int >= 0 && s > 0;
                }
                let x: i64 = (i * su) as i64;
                let y: i64 = (j * su) as i64;
                let ghost k = pts@.len() as int;
                pts.push(Point::new(x, y));
                proof {
                    assert(0 <= k < nx as int * ny as int) by (nonlinear_arith)
                        requires
                            0 <= (i as int) < (nx as int),
                            0 <= (j as int) < (ny as int),
                            k == i as int * ny as int + j as int;
                    assert(g.len() == nx as int * ny as int);
                    lemma_fundamental_div_mod_converse(k, ny as int, i as int, j as int);
                    assert(g[k] == (PointModel { x: i as int * s, y: j as int * s }));
                    assert(pts@[k]@ == g[k]);
                    assert(i as int * ny as int + (j as int + 1) == k + 1);
                }
                j = j + 1;
            }
            proof {
                assert((i as int + 1) * ny as int == i as int * ny as int + ny as int)
                    by (nonlinear_arith);
            }
            i = i + 1;
        }
        proof {
            assert(pts@.len() == nx as int * ny as int);
            assert(pts@.map_values(|p: Point| p@) =~= g);
            lemma_grid_in_canvas(w, h, s);
        }
        let shuffled = shuffle_points(pts, seed);
        let r = Pool { points: shuffled };
        proof {
            broadcast use group_to_multiset_ensures;

            assert forall|k: int| 0 <= k < r@.len() implies point_in_canvas(
                #[trigger] r@[k],
                w,
                h,
            ) by {
                assert(r@.contains(r@[k]));
                assert(r@.to_multiset().count(r@[k]) > 0);
                assert(g.to_multiset().count(r@[k]) > 0);
                assert(g.contains(r@[k]));
                let m = choose|m: int| 0 <= m < g.len() && g[m] == r@[k];
                assert(point_in_canvas(g[m], w, h));
            }
        }
        r
    }

    /// How many candidates remain.
    pub fn len(&self) -> (r: usize)
        ensures
            r == self@.len(),
    {
        self.points.len()
    }

    /// The pool as it stands after `n` pops, each taking the last remaining
    /// candidate, as `pop` does.
    pub open spec fn after_pops(p: Seq<PointModel>, n: int) -> Seq<PointModel>
        decreases n,
    {
        if n <= 0 {
            p
        } else {
            Self::after_pops(p, n - 1).drop_last()
        }
    }

    /// Pops shrink the pool by exactly one each: after `n` of them, exactly
    /// `n` candidates are gone, whether or not any became a circle.
    pub proof fn lemma_pops_shrink_one_each(p: Seq<PointModel>, n: int)
        requires
            0 <= n <= p.len(),
        ensures
            Self::after_pops(p, n).len() == p.len() - n,
        decreases n,
    {
        if n > 0 {
            Self::lemma_pops_shrink_one_each(p, n - 1);
        }
    }

    /// Removes and returns the next candidate in permutation order, or
    /// `None` once the pool is exhausted. Each call on a non-empty pool
    /// shrinks it by exactly one.
    pub fn pop(&mut self) -> (r: Option<Point>)
        ensures
            old(self)@.len() == 0 ==> r is None && final(self)@ == old(self)@,
            old(self)@.len() > 0 ==> (r matches Some(p) && p@ == old(self)@.last()
                && final(self)@ == old(self)@.drop_last()),
    {
        let r = self.points.pop();
        proof {
            if old(self)@.len() > 0 {
                assert(final(self)@ =~= old(self)@.drop_last());
            } else {
                assert(final(self)@ =~= old(self)@);
            }
        }
        r
    }
}

} // verus!
