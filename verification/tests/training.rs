//! Tests of the trained model: construction, validation, the assignment
//! partition, nearest-centroid lookup, and the reseeding bounds.

use kquant::{Centroid, KMeans, KMeansError, Point};

fn pt(x: i64, y: i64, z: i64) -> Point {
    Point { x, y, z }
}

/// Squared distance from `p` to the rational value of `c`, as the pair
/// (numerator, squared count); compared by cross-multiplication.
fn dist_parts(p: &Point, c: &Centroid) -> (i128, i128) {
    let n = c.count as i128;
    let dx = p.x as i128 * n - c.sx as i128;
    let dy = p.y as i128 * n - c.sy as i128;
    let dz = p.z as i128 * n - c.sz as i128;
    (dx * dx + dy * dy + dz * dz, n * n)
}

/// An independent nearest-centroid scan: lowest index wins ties.
fn nearest_by_scan(p: &Point, means: &[Centroid]) -> usize {
    let mut best = 0;
    for j in 1..means.len() {
        let (na, da) = dist_parts(p, &means[j]);
        let (nb, db) = dist_parts(p, &means[best]);
        if na * db < nb * da {
            best = j;
        }
    }
    best
}

#[test]
fn rejects_empty_input() {
    let r = kquant::kmeans::try_generate_k_means(Vec::new(), 3);
    assert_eq!(r.err(), Some(KMeansError::InvalidInput));
}

#[test]
fn rejects_zero_k() {
    let r = kquant::kmeans::try_generate_k_means(vec![pt(1, 2, 3)], 0);
    assert_eq!(r.err(), Some(KMeansError::InvalidInput));
}

#[test]
fn accepts_valid_input() {
    let r = kquant::kmeans::try_generate_k_means(vec![pt(1, 2, 3)], 1);
    let m = r.ok().expect("valid input must give a model");
    assert!(m.means[0].is_exactly(&pt(1, 2, 3)));
}

#[test]
fn two_extremes_converge_exactly() {
    let points = vec![pt(0, 0, 0), pt(255, 255, 255)];
    let m = KMeans::generate_k_means(points, 2);
    let at_zero = m.means.iter().any(|c| c.is_exactly(&pt(0, 0, 0)));
    let at_top = m.means.iter().any(|c| c.is_exactly(&pt(255, 255, 255)));
    assert!(at_zero && at_top);
    let c = m.cluster_point_for_point(&pt(10, 10, 10));
    assert!(c.is_exactly(&pt(0, 0, 0)));
}

#[test]
fn repeated_single_point_gives_that_point() {
    let points = vec![pt(100, 150, 200); 50];
    let m = KMeans::generate_k_means(points, 1);
    assert!(m.means[0].is_exactly(&pt(100, 150, 200)));
    assert_eq!(m.clusters[0].len(), 50);
}

#[test]
fn surplus_centroids_stay_in_bounds_and_unused() {
    // three distinct points, five centroids; all components lie in [5, 9]
    let points = vec![pt(5, 5, 5), pt(9, 9, 9), pt(5, 9, 7)];
    let m = KMeans::generate_k_means(points.clone(), 5);
    let nonempty = m.clusters.iter().filter(|g| !g.is_empty()).count();
    assert!(nonempty <= 3);
    for c in m.means.iter() {
        // every centroid, mean or reseeded, lies within the global bounds
        let n = c.count as i128;
        for s in [c.sx as i128, c.sy as i128, c.sz as i128] {
            assert!(5 * n <= s && s <= 9 * n);
        }
    }
    // a surplus centroid is never what an input point maps to
    for p in points.iter() {
        let c = m.cluster_point_for_point(p);
        let g = m.means.iter().position(|mc| *mc == c).expect("centroid of the model");
        assert!(!m.clusters[g].is_empty());
    }
}

#[test]
fn duplicates_map_with_their_value() {
    // K above the distinct count but at most the total count
    let points = vec![pt(1, 1, 1), pt(1, 1, 1), pt(1, 1, 1), pt(9, 9, 9), pt(9, 9, 9)];
    let m = KMeans::generate_k_means(points, 3);
    let a = m.cluster_point_for_point(&pt(1, 1, 1));
    let b = m.cluster_point_for_point(&pt(1, 1, 1));
    assert_eq!(a, b);
    let c = m.cluster_point_for_point(&pt(9, 9, 9));
    assert_eq!(c, m.cluster_point_for_point(&pt(9, 9, 9)));
}

#[test]
fn groups_partition_the_input() {
    let points = vec![
        pt(0, 0, 0),
        pt(10, 20, 30),
        pt(200, 100, 50),
        pt(255, 255, 255),
        pt(10, 20, 30),
        pt(7, 7, 7),
    ];
    let m = KMeans::generate_k_means(points.clone(), 3);
    let total: usize = m.clusters.iter().map(|g| g.len()).sum();
    assert_eq!(total, points.len());
    // each group holds exactly the points whose lookup lands on its centroid
    for (g, group) in m.clusters.iter().enumerate() {
        for q in group.iter() {
            assert_eq!(m.cluster_point_for_point(q), m.means[g]);
        }
    }
}

#[test]
fn lookup_minimizes_distance_with_low_tie_break() {
    let points = vec![pt(0, 0, 0), pt(2, 0, 0), pt(250, 250, 250)];
    let m = KMeans::generate_k_means(points, 3);
    for q in [pt(1, 0, 0), pt(0, 0, 0), pt(126, 125, 125), pt(255, 0, 255)] {
        let c = m.cluster_point_for_point(&q);
        let want = nearest_by_scan(&q, &m.means);
        assert_eq!(c, m.means[want]);
        let (nc, dc) = dist_parts(&q, &c);
        for other in m.means.iter() {
            let (no, dov) = dist_parts(&q, other);
            assert!(nc * dov <= no * dc);
        }
    }
}
