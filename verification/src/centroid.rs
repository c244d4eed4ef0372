//! The centroid type: a cluster representative stored exactly, as the
//! component-wise sum of the assigned points together with their count.
//! The represented value is the exact rational mean `(sx/n, sy/n, sz/n)`,
//! so no rounding ever enters the training loop; distances to centroids are
//! compared by cross-multiplying the rational squared distances.

use vstd::prelude::*;

use crate::point::{lemma_sq_nonneg, sq, Point, COORD_MAX};

verus! {

/// Largest number of points the engine accepts, and so the largest count a
/// centroid may carry. Together with `COORD_MAX` it keeps every distance
/// comparison inside 128-bit integers.
pub const MAX_POINTS: usize = 1048576;

/// Upper bound on a distance numerator: three squares of scaled component
/// differences, each at most `MAX_POINTS * COORD_MAX` in magnitude.
pub const DIST_NUM_MAX: i128 = 3 * 1048576 * 1048576 * 1048576 * 1048576;

/// A cluster representative: the exact mean of `count` points, stored as the
/// component-wise sum over those points together with `count`. A freshly
/// reseeded centroid holds a single drawn point with `count == 1`.
#[derive(Clone, Copy, Debug, PartialEq, Eq, Structural, Hash)]
pub struct Centroid {
    pub sx: i64,
    pub sy: i64,
    pub sz: i64,
    pub count: u64,
}

/// Numerator of the squared Euclidean distance between a point and the
/// rational value a centroid represents; the full distance is this divided
/// by `sq(c.count)`.
pub open spec fn dist_num(p: Point, c: Centroid) -> int {
    sq(p.x * c.count - c.sx) + sq(p.y * c.count - c.sy) + sq(p.z * c.count - c.sz)
}

/// The point `p` is strictly closer to centroid `a` than to centroid `b`,
/// comparing the rational squared distances by cross-multiplication.
pub open spec fn closer(p: Point, a: Centroid, b: Centroid) -> bool {
    dist_num(p, a) * sq(b.count as int) < dist_num(p, b) * sq(a.count as int)
}

/// The point `p` is at most as far from centroid `a` as from centroid `b`.
pub open spec fn closer_eq(p: Point, a: Centroid, b: Centroid) -> bool {
    dist_num(p, a) * sq(b.count as int) <= dist_num(p, b) * sq(a.count as int)
}

impl Centroid {
    /// A centroid is well formed when it carries at least one point, no more
    /// than the engine accepts, and each component sum is bounded by what
    /// that many well-formed points can add up to.
    pub open spec fn wf(self) -> bool {
        &&& 1 <= self.count <= MAX_POINTS
        &&& 0 <= self.sx <= self.count * COORD_MAX
        &&& 0 <= self.sy <= self.count * COORD_MAX
        &&& 0 <= self.sz <= self.count * COORD_MAX
    }

    /// The centroid's rational value equals the point `p` exactly.
    pub open spec fn represents(self, p: Point) -> bool {
        &&& self.sx == p.x * self.count
        &&& self.sy == p.y * self.count
        &&& self.sz == p.z * self.count
    }

    /// An accumulator holding the single point `p`.
    pub fn from_point(p: &Point) -> (c: Centroid)
        requires
            p.wf(),
        ensures
            c == (Centroid { sx: p.x, sy: p.y, sz: p.z, count: 1 }),
            c.wf(),
            c.represents(*p),
    {
        Centroid { sx: p.x, sy: p.y, sz: p.z, count: 1 }
    }

    /// Add one more point into the accumulator.
    pub fn accumulate(&mut self, p: &Point)
        requires
            old(self).wf(),
            old(self).count < MAX_POINTS,
            p.wf(),
        ensures
            final(self).sx == old(self).sx + p.x,
            final(self).sy == old(self).sy + p.y,
            final(self).sz == old(self).sz + p.z,
            final(self).count == old(self).count + 1,
            final(self).wf(),
    {
        self.sx = self.sx + p.x;
        self.sy = self.sy + p.y;
        self.sz = self.sz + p.z;
        self.count = self.count + 1;
    }

    /// Does the centroid's rational value equal `p` exactly?
    pub fn is_exactly(&self, p: &Point) -> (r: bool)
        requires
            self.wf(),
            p.wf(),
        ensures
            r == self.represents(*p),
    {
        let n = self.count as i128;
        proof {
            lemma_scaled_comp_bound(p.x as int, self.count as int);
            lemma_scaled_comp_bound(p.y as int, self.count as int);
            lemma_scaled_comp_bound(p.z as int, self.count as int);
        }
        (p.x as i128) * n == self.sx as i128 && (p.y as i128) * n == self.sy as i128
            && (p.z as i128) * n == self.sz as i128
    }

    /// The centroid's value with each component rounded to the nearest
    /// integer, halves rounded up; this is the only place the exact
    /// rational representation is ever divided out.
    pub fn rounded(&self) -> (r: Point)
        requires
            self.wf(),
        ensures
            r.x == round_div(self.sx as int, self.count as int),
            r.y == round_div(self.sy as int, self.count as int),
            r.z == round_div(self.sz as int, self.count as int),
            r.wf(),
    {
        Point {
            x: round_div_exec(self.sx, self.count),
            y: round_div_exec(self.sy, self.count),
            z: round_div_exec(self.sz, self.count),
        }
    }
}

/// The quotient `s / n` rounded to the nearest integer, halves rounded up,
/// for non-negative `s` and positive `n`.
pub open spec fn round_div(s: int, n: int) -> int
    recommends
        s >= 0,
        n >= 1,
{
    (2 * s + n) / (2 * n)
}

/// Rounded division of a bounded component sum by a positive count.
fn round_div_exec(s: i64, n: u64) -> (q: i64)
    requires
        1 <= n <= MAX_POINTS,
        0 <= s <= n * COORD_MAX,
    ensures
        q == round_div(s as int, n as int),
        0 <= q <= COORD_MAX,
{
    let num: u64 = 2 * (s as u64) + n;
    let den: u64 = 2 * n;
    let q: u64 = num / den;
    proof {
        lemma_round_div_bounds(s as int, n as int);
    }
    q as i64
}

/// The rounded quotient of a bounded sum stays within the component bound.
proof fn lemma_round_div_bounds(s: int, n: int)
    by (nonlinear_arith)
    requires
        1 <= n,
        0 <= s <= n * COORD_MAX,
    ensures
        0 <= round_div(s, n) <= COORD_MAX,
{
}

/// The distance numerator is a sum of squares, hence non-negative.
pub proof fn lemma_dist_num_nonneg(p: Point, c: Centroid)
    ensures
        dist_num(p, c) >= 0,
{
    lemma_sq_nonneg(p.x * c.count - c.sx);
    lemma_sq_nonneg(p.y * c.count - c.sy);
    lemma_sq_nonneg(p.z * c.count - c.sz);
}

/// Strict closeness composes with non-strict closeness: if `p` is strictly
/// closer to `a` than to `b`, and at most as far from `b` as from `c`, then
/// it is strictly closer to `a` than to `c`.
pub proof fn lemma_closer_trans(p: Point, a: Centroid, b: Centroid, c: Centroid)
    requires
        a.count >= 1,
        b.count >= 1,
        c.count >= 1,
        closer(p, a, b),
        closer_eq(p, b, c),
    ensures
        closer(p, a, c),
{
    lemma_dist_num_nonneg(p, a);
    lemma_dist_num_nonneg(p, b);
    lemma_dist_num_nonneg(p, c);
    let da = dist_num(p, a);
    let db = dist_num(p, b);
    let dc = dist_num(p, c);
    let na = sq(a.count as int);
    let nb = sq(b.count as int);
    let nc = sq(c.count as int);
    assert(sq(a.count as int) >= 1 && sq(b.count as int) >= 1 && sq(c.count as int) >= 1)
        by (nonlinear_arith)
        requires
            a.count >= 1,
            b.count >= 1,
            c.count >= 1,
    ;
    assert(da * nc < dc * na) by (nonlinear_arith)
        requires
            da >= 0,
            db >= 0,
            dc >= 0,
            na >= 1,
            nb >= 1,
            nc >= 1,
            da * nb < db * na,
            db * nc <= dc * nb,
    ;
}

/// On centroids that represent integer points exactly, the cross-multiplied
/// comparison agrees with the plain squared Euclidean metric on those
/// points.
pub proof fn lemma_closer_exact(p: Point, a: Centroid, b: Centroid, qa: Point, qb: Point)
    requires
        a.count >= 1,
        b.count >= 1,
        a.represents(qa),
        b.represents(qb),
    ensures
        closer(p, a, b) <==> p.dist_sqr(qa) < p.dist_sqr(qb),
        closer_eq(p, a, b) <==> p.dist_sqr(qa) <= p.dist_sqr(qb),
{
    let na = a.count as int;
    let nb = b.count as int;
    let da = p.dist_sqr(qa);
    let db = p.dist_sqr(qb);
    lemma_scaled_dist_num(p, a, qa);
    lemma_scaled_dist_num(p, b, qb);
    let ma = sq(na);
    let mb = sq(nb);
    assert((ma * da) * mb < (mb * db) * ma <==> da < db) by (nonlinear_arith)
        requires
            ma >= 1,
            mb >= 1,
    ;
    assert((ma * da) * mb <= (mb * db) * ma <==> da <= db) by (nonlinear_arith)
        requires
            ma >= 1,
            mb >= 1,
    ;
}

/// The distance numerator to a centroid that represents `q` exactly is the
/// plain squared distance to `q`, scaled by the squared count.
proof fn lemma_scaled_dist_num(p: Point, c: Centroid, q: Point)
    requires
        c.count >= 1,
        c.represents(q),
    ensures
        dist_num(p, c) == sq(c.count as int) * p.dist_sqr(q),
        sq(c.count as int) >= 1,
{
    let n = c.count as int;
    let tx = p.x * n - c.sx;
    let ty = p.y * n - c.sy;
    let tz = p.z * n - c.sz;
    assert(tx * tx == (n * n) * ((p.x - q.x) * (p.x - q.x))) by (nonlinear_arith)
        requires
            tx == p.x * n - q.x * n,
    ;
    assert(ty * ty == (n * n) * ((p.y - q.y) * (p.y - q.y))) by (nonlinear_arith)
        requires
            ty == p.y * n - q.y * n,
    ;
    assert(tz * tz == (n * n) * ((p.z - q.z) * (p.z - q.z))) by (nonlinear_arith)
        requires
            tz == p.z * n - q.z * n,
    ;
    let m = n * n;
    let ex = (p.x - q.x) * (p.x - q.x);
    let ey = (p.y - q.y) * (p.y - q.y);
    let ez = (p.z - q.z) * (p.z - q.z);
    assert(m * ex + m * ey + m * ez == m * (ex + ey + ez)) by (nonlinear_arith);
    assert(m >= 1) by (nonlinear_arith)
        requires
            n >= 1,
            m == n * n,
    ;
}

/// Whether `p` is strictly closer to `a` than to `b`.
pub fn strictly_closer(p: &Point, a: &Centroid, b: &Centroid) -> (r: bool)
    requires
        p.wf(),
        a.wf(),
        b.wf(),
    ensures
        r == closer(*p, *a, *b),
{
    let num_a = dist_num_exec(p, a);
    let num_b = dist_num_exec(p, b);
    let na = a.count as i128;
    let nb = b.count as i128;
    proof {
        lemma_num_scale_bound(num_a as int, nb as int);
        lemma_num_scale_bound(num_b as int, na as int);
    }
    num_a * (nb * nb) < num_b * (na * na)
}

/// The numerator of the squared distance from `p` to the value of `c`.
fn dist_num_exec(p: &Point, c: &Centroid) -> (num: i128)
    requires
        p.wf(),
        c.wf(),
    ensures
        num == dist_num(*p, *c),
        0 <= num <= DIST_NUM_MAX,
{
    let n = c.count as i128;
    proof {
        lemma_component_diff_bound(p.x as int, c.sx as int, c.count as int);
        lemma_component_diff_bound(p.y as int, c.sy as int, c.count as int);
        lemma_component_diff_bound(p.z as int, c.sz as int, c.count as int);
    }
    let dx = (p.x as i128) * n - (c.sx as i128);
    let dy = (p.y as i128) * n - (c.sy as i128);
    let dz = (p.z as i128) * n - (c.sz as i128);
    dx * dx + dy * dy + dz * dz
}

/// Each scaled component difference is bounded, and its square by a third
/// of `DIST_NUM_MAX`.
proof fn lemma_component_diff_bound(px: int, csx: int, n: int)
    by (nonlinear_arith)
    requires
        0 <= px <= COORD_MAX,
        1 <= n <= MAX_POINTS,
        0 <= csx <= n * COORD_MAX,
    ensures
        0 <= px * n <= MAX_POINTS * COORD_MAX,
        -(MAX_POINTS * COORD_MAX) <= px * n - csx <= MAX_POINTS * COORD_MAX,
        0 <= sq(px * n - csx) <= MAX_POINTS * COORD_MAX * MAX_POINTS * COORD_MAX,
{
}

/// A well-formed component scaled by a count in range stays bounded.
proof fn lemma_scaled_comp_bound(a: int, n: int)
    by (nonlinear_arith)
    requires
        0 <= a <= COORD_MAX,
        1 <= n <= MAX_POINTS,
    ensures
        0 <= a * n <= MAX_POINTS * COORD_MAX,
{
}

/// Scaling a distance numerator by a squared count stays within `i128`.
proof fn lemma_num_scale_bound(num: int, n: int)
    by (nonlinear_arith)
    requires
        0 <= num <= DIST_NUM_MAX,
        1 <= n <= MAX_POINTS,
    ensures
        0 <= n * n <= MAX_POINTS * MAX_POINTS,
        0 <= num * (n * n) <= DIST_NUM_MAX * (MAX_POINTS * MAX_POINTS),
        num * (n * n) < i128::MAX,
{
}

} // verus!
