//! The clustering engine: grouping points around K centroids by squared
//! Euclidean distance, recomputing each centroid as the exact mean of its
//! group (or reseeding it when the group is empty), over a fixed number of
//! rounds.

use vstd::prelude::*;
use vstd::pervasive::VecAdditionalExecFns;

use crate::centroid::{closer, closer_eq, lemma_closer_trans, Centroid, MAX_POINTS};
use crate::point::Point;
use crate::rng::rand_in_range;

verus! {

/// Number of update/assignment rounds a model is trained for. The round
/// count is the sole stopping criterion: no convergence check is made.
pub const ROUNDS: usize = 100;

/// `m` is the least component value over all points of `ps`.
pub open spec fn is_comp_min(m: int, ps: Seq<Point>) -> bool {
    &&& forall|i: int|
        0 <= i < ps.len() ==> m <= (#[trigger] ps[i]).x && m <= ps[i].y && m <= ps[i].z
    &&& exists|i: int| 0 <= i < ps.len() && ((#[trigger] ps[i]).x == m || ps[i].y == m || ps[i].z == m)
}

/// `m` is the greatest component value over all points of `ps`.
pub open spec fn is_comp_max(m: int, ps: Seq<Point>) -> bool {
    &&& forall|i: int|
        0 <= i < ps.len() ==> (#[trigger] ps[i]).x <= m && ps[i].y <= m && ps[i].z <= m
    &&& exists|i: int| 0 <= i < ps.len() && ((#[trigger] ps[i]).x == m || ps[i].y == m || ps[i].z == m)
}

/// Index of the centroid nearest to `p` among the first `k` of `ms`,
/// scanning from index 0 and replacing the candidate only on a strictly
/// smaller distance, so the lowest index wins ties.
pub open spec fn nearest_upto(p: Point, ms: Seq<Centroid>, k: int) -> int
    recommends
        1 <= k <= ms.len(),
    decreases k,
{
    if k <= 1 {
        0
    } else {
        let prev = nearest_upto(p, ms, k - 1);
        if closer(p, ms[k - 1], ms[prev]) {
            k - 1
        } else {
            prev
        }
    }
}

/// Index of the centroid of `ms` nearest to `p`, lowest index on ties.
pub open spec fn nearest_index(p: Point, ms: Seq<Centroid>) -> int {
    nearest_upto(p, ms, ms.len() as int)
}

/// The membership predicate of group `g`: a point belongs to the group of
/// its nearest centroid.
pub open spec fn in_group(g: int, ms: Seq<Centroid>) -> spec_fn(Point) -> bool {
    |q: Point| nearest_index(q, ms) == g
}

/// Sum of one component, drawn out by `f`, over a sequence of points.
pub open spec fn sum_comp(ps: Seq<Point>, f: spec_fn(Point) -> int) -> int
    decreases ps.len(),
{
    if ps.len() == 0 {
        0
    } else {
        sum_comp(ps.drop_last(), f) + f(ps.last())
    }
}

/// The x component of a point, as a selector for `sum_comp`.
pub open spec fn sel_x() -> spec_fn(Point) -> int {
    |p: Point| p.x as int
}

/// The y component of a point, as a selector for `sum_comp`.
pub open spec fn sel_y() -> spec_fn(Point) -> int {
    |p: Point| p.y as int
}

/// The z component of a point, as a selector for `sum_comp`.
pub open spec fn sel_z() -> spec_fn(Point) -> int {
    |p: Point| p.z as int
}

/// `c` is the exact component-wise arithmetic mean of `group`: it carries
/// the group's size as its count and the group's component sums, so its
/// rational value is the mean.
pub open spec fn is_mean_of(c: Centroid, group: Seq<Point>) -> bool {
    &&& c.count == group.len()
    &&& c.sx == sum_comp(group, sel_x())
    &&& c.sy == sum_comp(group, sel_y())
    &&& c.sz == sum_comp(group, sel_z())
}

/// What one round of the update engine guarantees of the centroid at one
/// index: the exact mean of its group when the group is nonempty, else a
/// fresh single-point centroid whose components lie in the global bounds.
pub open spec fn updated_mean(c: Centroid, group: Seq<Point>, mn: int, mx: int) -> bool {
    if group.len() == 0 {
        c.count == 1 && mn <= c.sx <= mx && mn <= c.sy <= mx && mn <= c.sz <= mx
    } else {
        is_mean_of(c, group)
    }
}

/// The clustering engine's state: the input points, the K centroids, and
/// the K groups of the most recent assignment.
pub struct KMeans {
    pub clusters: Vec<Vec<Point>>,
    pub means: Vec<Centroid>,
    pub points: Vec<Point>,
    pub k: usize,
    pub min: i64,
    pub max: i64,
}

impl KMeans {
    /// The engine's invariant: K is positive, the point set is nonempty,
    /// bounded and well formed, `min` and `max` are its global component
    /// bounds, every centroid is well formed, and every group holds only
    /// input points, no more of them than there are inputs.
    pub open spec fn wf(self) -> bool {
        &&& 1 <= self.k
        &&& self.means@.len() == self.k
        &&& self.clusters@.len() == self.k
        &&& 1 <= self.points@.len() <= MAX_POINTS
        &&& forall|i: int| 0 <= i < self.points@.len() ==> (#[trigger] self.points@[i]).wf()
        &&& is_comp_min(self.min as int, self.points@)
        &&& is_comp_max(self.max as int, self.points@)
        &&& forall|i: int| 0 <= i < self.means@.len() ==> (#[trigger] self.means@[i]).wf()
        &&& forall|g: int|
            0 <= g < self.clusters@.len() ==> (#[trigger] self.clusters@[g])@.len()
                <= self.points@.len()
        &&& forall|g: int, j: int|
            0 <= g < self.clusters@.len() && 0 <= j < self.clusters@[g]@.len()
                ==> self.points@.contains(#[trigger] self.clusters@[g]@[j])
    }

    /// The groups are exactly the most recent assignment against the
    /// current centroids: group `g` holds, in input order, the points whose
    /// nearest centroid is `g`.
    pub open spec fn assigned(self) -> bool {
        forall|g: int|
            0 <= g < self.clusters@.len() ==> (#[trigger] self.clusters@[g])@ == self.points@.filter(
                in_group(g, self.means@),
            )
    }

    /// A fresh engine: global component bounds computed once, K empty
    /// groups, K placeholder centroids awaiting the first update round.
    #[verifier::loop_isolation(false)]
    fn new(points: Vec<Point>, k: usize) -> (m: KMeans)
        requires
            1 <= points@.len() <= MAX_POINTS,
            1 <= k,
            forall|i: int| 0 <= i < points@.len() ==> (#[trigger] points@[i]).wf(),
        ensures
            m.wf(),
            m.points@ == points@,
            m.k == k,
            m.means@.len() == k,
            m.clusters@.len() == k,
            forall|g: int| 0 <= g < k ==> (#[trigger] m.clusters@[g])@.len() == 0,
            is_comp_min(m.min as int, points@),
            is_comp_max(m.max as int, points@),
    {
        let n = points.len();
        let mut mn: i64 = points[0].x;
        let mut mx: i64 = points[0].x;
        for i in 0..n
            invariant
                forall|j: int|
                    0 <= j < i ==> mn <= (#[trigger] points@[j]).x && mn <= points@[j].y && mn
                        <= points@[j].z,
                forall|j: int|
                    0 <= j < i ==> (#[trigger] points@[j]).x <= mx && points@[j].y <= mx
                        && points@[j].z <= mx,
                exists|j: int|
                    0 <= j < n && ((#[trigger] points@[j]).x == mn || points@[j].y == mn
                        || points@[j].z == mn),
                exists|j: int|
                    0 <= j < n && ((#[trigger] points@[j]).x == mx || points@[j].y == mx
                        || points@[j].z == mx),
        {
            let p = points[i];
            if p.x < mn {
                mn = p.x;
            }
            if p.y < mn {
                mn = p.y;
            }
            if p.z < mn {
                mn = p.z;
            }
            if p.x > mx {
                mx = p.x;
            }
            if p.y > mx {
                mx = p.y;
            }
            if p.z > mx {
                mx = p.z;
            }
        }
        let mut clusters: Vec<Vec<Point>> = Vec::new();
        let mut means: Vec<Centroid> = Vec::new();
        for i in 0..k
            invariant
                clusters@.len() == i,
                means@.len() == i,
                forall|t: int| 0 <= t < i ==> (#[trigger] clusters@[t])@.len() == 0,
                forall|t: int|
                    0 <= t < i ==> means@[t] == (Centroid { sx: 0, sy: 0, sz: 0, count: 1 }),
        {
            clusters.push(Vec::new());
            means.push(Centroid { sx: 0, sy: 0, sz: 0, count: 1 });
        }
        KMeans { clusters, means, points, k, min: mn, max: mx }
    }

    /// A fresh random centroid, each component drawn from the global
    /// component range of the input set.
    fn generate_mean(&self) -> (c: Centroid)
        requires
            self.wf(),
        ensures
            c.count == 1,
            self.min <= c.sx <= self.max,
            self.min <= c.sy <= self.max,
            self.min <= c.sz <= self.max,
            c.wf(),
    {
        proof {
            let w = choose|i: int|
                0 <= i < self.points@.len() && ((#[trigger] self.points@[i]).x == self.min
                    || self.points@[i].y == self.min || self.points@[i].z == self.min);
            assert(self.points@[w].wf());
            let v = choose|i: int|
                0 <= i < self.points@.len() && ((#[trigger] self.points@[i]).x == self.max
                    || self.points@[i].y == self.max || self.points@[i].z == self.max);
            assert(self.points@[v].wf());
            assert(self.min <= self.points@[0].x <= self.max);
        }
        let x = rand_in_range(self.min, self.max);
        let y = rand_in_range(self.min, self.max);
        let z = rand_in_range(self.min, self.max);
        Centroid { sx: x, sy: y, sz: z, count: 1 }
    }

    /// Index of the centroid nearest to `point`, lowest index on ties: the
    /// scan replaces its candidate only on a strictly smaller distance.
    #[verifier::loop_isolation(false)]
    fn cluster_point(&self, point: &Point) -> (ind: usize)
        requires
            self.wf(),
            point.wf(),
        ensures
            ind == nearest_index(*point, self.means@),
            ind < self.means@.len(),
    {
        let kk = self.means.len();
        let mut best: usize = 0;
        for j in 1..kk
            invariant
                best < j,
                best as int == nearest_upto(*point, self.means@, j as int),
        {
            let cand = self.means[j];
            let cur = self.means[best];
            if crate::centroid::strictly_closer(point, &cand, &cur) {
                best = j;
            }
            assert(best as int == nearest_upto(*point, self.means@, j as int + 1));
        }
        best
    }

    /// The centroid nearest to an arbitrary query point, under the same
    /// metric and tie-break rule as the assignment engine.
    pub fn cluster_point_for_point(&self, point: &Point) -> (c: Centroid)
        requires
            self.wf(),
            point.wf(),
        ensures
            c == self.means@[nearest_index(*point, self.means@)],
    {
        let ind = self.cluster_point(point);
        self.means[ind]
    }

    /// The exact component-wise mean of the nonempty group at index `g`.
    #[verifier::loop_isolation(false)]
    fn mean_of_group(&self, g: usize) -> (c: Centroid)
        requires
            self.wf(),
            g < self.clusters@.len(),
            self.clusters@[g as int]@.len() >= 1,
        ensures
            is_mean_of(c, self.clusters@[g as int]@),
            c.wf(),
    {
        let group: &Vec<Point> = &self.clusters[g];
        proof {
            assert forall|t: int| 0 <= t < group@.len() implies (#[trigger] group@[t]).wf() by {
                assert(self.points@.contains(group@[t]));
                let w = choose|i: int| 0 <= i < self.points@.len() && self.points@[i] == group@[t];
                assert(self.points@[w].wf());
            }
        }
        let n = group.len();
        let first = group[0];
        let mut c = Centroid::from_point(&first);
        proof {
            lemma_sum_take_step(group@, sel_x(), 0);
            lemma_sum_take_step(group@, sel_y(), 0);
            lemma_sum_take_step(group@, sel_z(), 0);
            assert(group@.take(0).len() == 0);
        }
        for j in 1..n
            invariant
                c.count == j,
                c.sx == sum_comp(group@.take(j as int), sel_x()),
                c.sy == sum_comp(group@.take(j as int), sel_y()),
                c.sz == sum_comp(group@.take(j as int), sel_z()),
                c.wf(),
        {
            let p = group[j];
            c.accumulate(&p);
            proof {
                lemma_sum_take_step(group@, sel_x(), j as int);
                lemma_sum_take_step(group@, sel_y(), j as int);
                lemma_sum_take_step(group@, sel_z(), j as int);
            }
        }
        proof {
            assert(group@.take(n as int) =~= group@);
        }
        c
    }

    /// One update round: each centroid becomes the exact mean of its group,
    /// or is reseeded within the global component bounds when its group is
    /// empty. Groups and points are untouched.
    #[verifier::loop_isolation(false)]
    pub fn update_means(&mut self)
        requires
            old(self).wf(),
        ensures
            final(self).wf(),
            final(self).clusters == old(self).clusters,
            final(self).points == old(self).points,
            final(self).k == old(self).k,
            final(self).min == old(self).min,
            final(self).max == old(self).max,
            final(self).means@.len() == old(self).means@.len(),
            forall|g: int|
                0 <= g < old(self).clusters@.len() ==> updated_mean(
                    #[trigger] final(self).means@[g],
                    old(self).clusters@[g]@,
                    old(self).min as int,
                    old(self).max as int,
                ),
    {
        let kk = self.k;
        for g in 0..kk
            invariant
                self.wf(),
                self.clusters == old(self).clusters,
                self.points == old(self).points,
                self.k == old(self).k,
                self.min == old(self).min,
                self.max == old(self).max,
                self.means@.len() == old(self).means@.len(),
                forall|t: int|
                    0 <= t < g ==> updated_mean(
                        #[trigger] self.means@[t],
                        old(self).clusters@[t]@,
                        old(self).min as int,
                        old(self).max as int,
                    ),
        {
            if self.clusters[g].len() == 0 {
                let c = self.generate_mean();
                self.means.set(g, c);
            } else {
                let c = self.mean_of_group(g);
                self.means.set(g, c);
            }
        }
    }

    /// One assignment round: every group is rebuilt from empty, and every
    /// input point is appended, in input order, to the group of its nearest
    /// centroid. Centroids and points are untouched.
    #[verifier::loop_isolation(false)]
    pub fn recluster(&mut self)
        requires
            old(self).wf(),
        ensures
            final(self).wf(),
            final(self).means == old(self).means,
            final(self).points == old(self).points,
            final(self).k == old(self).k,
            final(self).min == old(self).min,
            final(self).max == old(self).max,
            final(self).clusters@.len() == old(self).clusters@.len(),
            final(self).assigned(),
    {
        let kk = self.k;
        for g in 0..kk
            invariant
                self.wf(),
                self.means == old(self).means,
                self.points == old(self).points,
                self.k == old(self).k,
                self.min == old(self).min,
                self.max == old(self).max,
                self.clusters@.len() == old(self).clusters@.len(),
                forall|t: int| 0 <= t < g ==> (#[trigger] self.clusters@[t])@.len() == 0,
        {
            self.clusters[g].clear();
        }
        let n = self.points.len();
        for i in 0..n
            invariant
                self.wf(),
                self.means == old(self).means,
                self.points == old(self).points,
                self.k == old(self).k,
                self.min == old(self).min,
                self.max == old(self).max,
                self.clusters@.len() == old(self).clusters@.len(),
                forall|g: int| 0 <= g < kk ==> (#[trigger] self.clusters@[g])@.len() <= i,
                forall|g: int|
                    0 <= g < kk ==> (#[trigger] self.clusters@[g])@ == self.points@.take(
                        i as int,
                    ).filter(in_group(g, self.means@)),
        {
            let p = self.points[i];
            let ind = self.cluster_point(&p);
            self.clusters[ind].push(p);
            proof {
                assert(self.points@.take(i + 1) =~= self.points@.take(i as int).push(
                    self.points@[i as int],
                ));
                assert forall|g: int| 0 <= g < kk implies (#[trigger] self.clusters@[g])@
                    == self.points@.take(i + 1).filter(in_group(g, self.means@)) by {
                    lemma_filter_push(
                        self.points@.take(i as int),
                        in_group(g, self.means@),
                        self.points@[i as int],
                    );
                }
            }
        }
        proof {
            assert(self.points@.take(n as int) =~= self.points@);
        }
    }

    /// Train a model: compute the global bounds once, then run the fixed
    /// number of rounds, each an update step followed by an assignment
    /// step; on round one every group is empty, so every centroid starts
    /// from a fresh random seed. The result's groups are exactly the final
    /// assignment against the final centroids.
    #[verifier::loop_isolation(false)]
    pub fn generate_k_means(points: Vec<Point>, k: usize) -> (m: KMeans)
        requires
            1 <= points@.len() <= MAX_POINTS,
            1 <= k,
            forall|i: int| 0 <= i < points@.len() ==> (#[trigger] points@[i]).wf(),
        ensures
            m.wf(),
            m.assigned(),
            m.points@ == points@,
            m.k == k,
            m.means@.len() == k,
            m.clusters@.len() == k,
            is_comp_min(m.min as int, points@),
            is_comp_max(m.max as int, points@),
    {
        let mut km = KMeans::new(points, k);
        for r in 0..ROUNDS
            invariant
                km.wf(),
                km.points@ == points@,
                km.k == k,
                km.means@.len() == k,
                km.clusters@.len() == k,
                is_comp_min(km.min as int, points@),
                is_comp_max(km.max as int, points@),
                r > 0 ==> km.assigned(),
        {
            km.update_means();
            km.recluster();
        }
        km
    }
}

/// The errors of model construction: the input contract is violated by an
/// empty point set or a zero K.
#[derive(Clone, Copy, Debug, PartialEq, Eq, Structural)]
pub enum KMeansError {
    InvalidInput,
}

/// Train a model after validating the input: an empty point set or `k == 0`
/// is rejected, exactly then, before any computation.
pub fn try_generate_k_means(points: Vec<Point>, k: usize) -> (r: Result<KMeans, KMeansError>)
    requires
        points@.len() <= MAX_POINTS,
        forall|i: int| 0 <= i < points@.len() ==> (#[trigger] points@[i]).wf(),
    ensures
        r is Err <==> (points@.len() == 0 || k == 0),
        r is Err ==> r->Err_0 == KMeansError::InvalidInput,
        r is Ok ==> {
            let m = r->Ok_0;
            &&& m.wf()
            &&& m.assigned()
            &&& m.points@ == points@
            &&& m.k == k
            &&& m.means@.len() == k
            &&& is_comp_min(m.min as int, points@)
            &&& is_comp_max(m.max as int, points@)
        },
{
    if points.len() == 0 || k == 0 {
        Err(KMeansError::InvalidInput)
    } else {
        Ok(KMeans::generate_k_means(points, k))
    }
}

/// Appending one element to a sequence extends its filtered view by that
/// element exactly when the element satisfies the predicate.
proof fn lemma_filter_push(s: Seq<Point>, pred: spec_fn(Point) -> bool, e: Point)
    ensures
        s.push(e).filter(pred) == if pred(e) {
            s.filter(pred).push(e)
        } else {
            s.filter(pred)
        },
{
    reveal(Seq::filter);
    assert(s.push(e).drop_last() =~= s);
    assert(s.push(e).last() == e);
}

/// Extending a prefix sum of one component by the next point adds that
/// point's component.
proof fn lemma_sum_take_step(ps: Seq<Point>, f: spec_fn(Point) -> int, j: int)
    requires
        0 <= j < ps.len(),
    ensures
        sum_comp(ps.take(j + 1), f) == sum_comp(ps.take(j), f) + f(ps[j]),
{
    assert(ps.take(j + 1).drop_last() =~= ps.take(j));
    assert(ps.take(j + 1).last() == ps[j]);
}

/// Properties of the scan prefix: the chosen index is in range, no scanned
/// centroid is strictly closer, and every earlier index is strictly
/// farther — the lowest index wins ties.
proof fn lemma_nearest_upto_props(p: Point, ms: Seq<Centroid>, k: int)
    requires
        1 <= k <= ms.len(),
        forall|i: int| 0 <= i < ms.len() ==> (#[trigger] ms[i]).count >= 1,
    ensures
        0 <= nearest_upto(p, ms, k) < k,
        forall|i: int| 0 <= i < k ==> closer_eq(p, ms[nearest_upto(p, ms, k)], #[trigger] ms[i]),
        forall|i: int| 0 <= i < nearest_upto(p, ms, k) ==> closer(p, ms[nearest_upto(p, ms, k)], #[trigger] ms[i]),
    decreases k,
{
    if k == 1 {
        assert(closer_eq(p, ms[0], ms[0]));
    } else {
        lemma_nearest_upto_props(p, ms, k - 1);
        let prev = nearest_upto(p, ms, k - 1);
        let best = nearest_upto(p, ms, k);
        if closer(p, ms[k - 1], ms[prev]) {
            assert(best == k - 1);
            assert forall|i: int| 0 <= i < k - 1 implies closer(p, ms[best], #[trigger] ms[i]) by {
                lemma_closer_trans(p, ms[k - 1], ms[prev], ms[i]);
            }
        } else {
            assert(best == prev);
            assert(closer_eq(p, ms[prev], ms[k - 1]));
        }
    }
}

/// The assignment's nearest index names the centroid minimizing squared
/// distance among all K centroids, with the lowest index breaking ties:
/// every centroid is at least as far, and every centroid of lower index is
/// strictly farther.
pub proof fn lemma_nearest_is_min(p: Point, ms: Seq<Centroid>)
    requires
        ms.len() >= 1,
        forall|i: int| 0 <= i < ms.len() ==> (#[trigger] ms[i]).count >= 1,
    ensures
        0 <= nearest_index(p, ms) < ms.len(),
        forall|i: int| 0 <= i < ms.len() ==> closer_eq(p, ms[nearest_index(p, ms)], #[trigger] ms[i]),
        forall|i: int| 0 <= i < nearest_index(p, ms) ==> closer(p, ms[nearest_index(p, ms)], #[trigger] ms[i]),
{
    lemma_nearest_upto_props(p, ms, ms.len() as int);
}

/// After an assignment, the groups partition the input set: each input
/// point belongs to the group of its nearest centroid and to no other.
pub proof fn lemma_groups_partition(m: KMeans, p: Point)
    requires
        m.wf(),
        m.assigned(),
        m.points@.contains(p),
    ensures
        0 <= nearest_index(p, m.means@) < m.clusters@.len(),
        m.clusters@[nearest_index(p, m.means@)]@.contains(p),
        forall|g: int|
            0 <= g < m.clusters@.len() ==> ((#[trigger] m.clusters@[g])@.contains(p) <==> g
                == nearest_index(p, m.means@)),
{
    assert forall|i: int| 0 <= i < m.means@.len() implies (#[trigger] m.means@[i]).count >= 1 by {
        assert(m.means@[i].wf());
    }
    lemma_nearest_is_min(p, m.means@);
    let home = nearest_index(p, m.means@);
    assert forall|g: int|
        0 <= g < m.clusters@.len() implies ((#[trigger] m.clusters@[g])@.contains(p) <==> g
        == home) by {
        let pred = in_group(g, m.means@);
        assert(m.clusters@[g]@ == m.points@.filter(pred));
        if g == home {
            let w = choose|i: int| 0 <= i < m.points@.len() && m.points@[i] == p;
            assert(pred(m.points@[w]));
            m.points@.lemma_filter_contains(pred, w);
            assert(m.points@.filter(pred).contains(p));
        }
        if m.clusters@[g]@.contains(p) {
            let w = choose|i: int| 0 <= i < m.clusters@[g]@.len() && m.clusters@[g]@[i] == p;
            m.points@.lemma_filter_pred(pred, w);
            assert(pred(m.points@.filter(pred)[w]));
        }
    }
}

/// Summing one component over a group of one repeated point multiplies
/// that point's component by the group's size.
proof fn lemma_sum_constant(group: Seq<Point>, f: spec_fn(Point) -> int, q: Point)
    requires
        forall|i: int| 0 <= i < group.len() ==> group[i] == q,
    ensures
        sum_comp(group, f) == group.len() * f(q),
    decreases group.len(),
{
    if group.len() == 0 {
    } else {
        lemma_sum_constant(group.drop_last(), f, q);
        let n = group.len() as int;
        let c = f(q);
        assert((n - 1) * c + c == n * c) by (nonlinear_arith);
    }
}

/// A group that holds one point value, however many times, has that point
/// as its exact mean.
pub proof fn lemma_mean_of_uniform_group(c: Centroid, group: Seq<Point>, q: Point)
    requires
        is_mean_of(c, group),
        group.len() >= 1,
        forall|i: int| 0 <= i < group.len() ==> group[i] == q,
    ensures
        c.represents(q),
{
    lemma_sum_constant(group, sel_x(), q);
    lemma_sum_constant(group, sel_y(), q);
    lemma_sum_constant(group, sel_z(), q);
    let n = group.len() as int;
    assert(n * (q.x as int) == (q.x as int) * n) by (nonlinear_arith);
    assert(n * (q.y as int) == (q.y as int) * n) by (nonlinear_arith);
    assert(n * (q.z as int) == (q.z as int) * n) by (nonlinear_arith);
}

/// The assignment step is a function of the points and centroids alone:
/// two assigned states over the same points and the same centroids carry
/// the same groups.
pub proof fn lemma_assignment_deterministic(a: KMeans, b: KMeans)
    requires
        a.wf(),
        b.wf(),
        a.assigned(),
        b.assigned(),
        a.points@ == b.points@,
        a.means@ == b.means@,
    ensures
        a.clusters@.len() == b.clusters@.len(),
        forall|g: int| 0 <= g < a.clusters@.len() ==> (#[trigger] a.clusters@[g])@ == b.clusters@[g]@,
{
}

/// The mean update is a function of the group alone: two centroids that
/// are each the exact mean of the same nonempty group are equal.
pub proof fn lemma_mean_deterministic(c1: Centroid, c2: Centroid, group: Seq<Point>)
    requires
        is_mean_of(c1, group),
        is_mean_of(c2, group),
    ensures
        c1 == c2,
{
}

/// A full round is deterministic wherever randomness does not enter: if
/// two engines hold the same points and the same nonempty groups, then any
/// centroid sequences meeting the update contract coincide, and so do the
/// assignments the next step builds from them. Randomness enters a round
/// only through the reseeding of empty groups.
pub proof fn lemma_round_deterministic(a: KMeans, b: KMeans, ma: Seq<Centroid>, mb: Seq<Centroid>)
    requires
        a.points@ == b.points@,
        a.clusters@.len() == b.clusters@.len(),
        forall|g: int| 0 <= g < a.clusters@.len() ==> (#[trigger] a.clusters@[g])@ == b.clusters@[g]@,
        forall|g: int| 0 <= g < a.clusters@.len() ==> (#[trigger] a.clusters@[g])@.len() >= 1,
        ma.len() == a.clusters@.len(),
        mb.len() == b.clusters@.len(),
        forall|g: int|
            0 <= g < ma.len() ==> updated_mean(
                #[trigger] ma[g],
                a.clusters@[g]@,
                a.min as int,
                a.max as int,
            ),
        forall|g: int|
            0 <= g < mb.len() ==> updated_mean(
                #[trigger] mb[g],
                b.clusters@[g]@,
                b.min as int,
                b.max as int,
            ),
    ensures
        ma == mb,
        forall|g: int|
            0 <= g < ma.len() ==> a.points@.filter(in_group(g, ma)) == b.points@.filter(
                #[trigger] in_group(g, mb),
            ),
{
    assert forall|g: int| 0 <= g < ma.len() implies ma[g] == mb[g] by {
        lemma_mean_deterministic(ma[g], mb[g], a.clusters@[g]@);
    }
    assert(ma =~= mb);
}

} // verus!
