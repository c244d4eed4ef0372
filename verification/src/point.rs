//! The point type: a 3-component integer vector and its squared Euclidean
//! distance metric.

use vstd::prelude::*;

verus! {

/// Largest value a point component may take. Input components come from a
/// bounded integer-like range (pixel channels are 0..=255); this generous
/// bound keeps every distance computation inside machine integers.
pub const COORD_MAX: i64 = 1048576;

/// A 3-component vector with exact integer components, used both for input
/// data and for query points. Equality and hashing are component-wise and
/// exact.
#[derive(Clone, Copy, Debug, PartialEq, Eq, Structural, Hash)]
pub struct Point {
    pub x: i64,
    pub y: i64,
    pub z: i64,
}

/// The square of an integer.
pub open spec fn sq(a: int) -> int {
    a * a
}

impl Point {
    /// A point is well formed when every component lies in the bounded
    /// range the engine accepts.
    pub open spec fn wf(self) -> bool {
        &&& 0 <= self.x <= COORD_MAX
        &&& 0 <= self.y <= COORD_MAX
        &&& 0 <= self.z <= COORD_MAX
    }

    /// Sum of squared component-wise differences, as a mathematical integer.
    pub open spec fn dist_sqr(self, other: Point) -> int {
        sq(self.x - other.x) + sq(self.y - other.y) + sq(self.z - other.z)
    }

    /// A point from its three components.
    pub fn new(x: i64, y: i64, z: i64) -> (p: Point)
        ensures
            p == (Point { x, y, z }),
    {
        Point { x, y, z }
    }

    /// Squared Euclidean distance between two points. Used only for ranking
    /// candidates, so no square root is ever taken.
    pub fn euclidean_distance_sqr(&self, point: &Point) -> (d: i64)
        requires
            self.wf(),
            point.wf(),
        ensures
            d == self.dist_sqr(*point),
            d >= 0,
    {
        let dx = self.x - point.x;
        let dy = self.y - point.y;
        let dz = self.z - point.z;
        proof {
            lemma_sq_bound(dx as int, COORD_MAX as int);
            lemma_sq_bound(dy as int, COORD_MAX as int);
            lemma_sq_bound(dz as int, COORD_MAX as int);
        }
        dx * dx + dy * dy + dz * dz
    }
}

/// If `|a| <= b` then `0 <= a * a <= b * b`.
proof fn lemma_sq_bound(a: int, b: int)
    by (nonlinear_arith)
    requires
        -b <= a <= b,
    ensures
        0 <= a * a <= b * b,
{
}

/// The squared distance between two points is non-negative, and zero exactly
/// when the points are component-wise equal.
pub proof fn lemma_dist_sqr_nonneg(p: Point, q: Point)
    ensures
        p.dist_sqr(q) >= 0,
        p.dist_sqr(q) == 0 <==> p == q,
{
    lemma_sq_nonneg(p.x - q.x);
    lemma_sq_nonneg(p.y - q.y);
    lemma_sq_nonneg(p.z - q.z);
}

/// A square is non-negative, and zero exactly when its root is zero.
pub proof fn lemma_sq_nonneg(a: int)
    by (nonlinear_arith)
    ensures
        sq(a) >= 0,
        sq(a) == 0 <==> a == 0,
{
}

} // verus!
