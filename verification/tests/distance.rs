//! Tests of the point metric and of the exact centroid arithmetic.

use kquant::{Centroid, Point};

fn pt(x: i64, y: i64, z: i64) -> Point {
    Point { x, y, z }
}

#[test]
fn distance_exact_value() {
    let p = pt(0, 0, 0);
    let q = pt(1, 2, 2);
    assert_eq!(p.euclidean_distance_sqr(&q), 9);
    assert_eq!(q.euclidean_distance_sqr(&p), 9);
}

#[test]
fn distance_zero_iff_equal() {
    let p = pt(100, 150, 200);
    let q = pt(100, 150, 200);
    assert_eq!(p.euclidean_distance_sqr(&q), 0);
    let r = pt(100, 150, 201);
    assert!(p.euclidean_distance_sqr(&r) > 0);
    let s = pt(0, 0, 0);
    assert!(p.euclidean_distance_sqr(&s) > 0);
}

#[test]
fn accumulator_holds_exact_mean() {
    let mut c = Centroid::from_point(&pt(1, 2, 3));
    c.accumulate(&pt(3, 4, 5));
    assert_eq!(c.count, 2);
    assert_eq!((c.sx, c.sy, c.sz), (4, 6, 8));
    assert!(c.is_exactly(&pt(2, 3, 4)));
    assert!(!c.is_exactly(&pt(2, 3, 5)));
}

#[test]
fn mean_not_integral_is_exact_rational() {
    let mut c = Centroid::from_point(&pt(0, 0, 1));
    c.accumulate(&pt(1, 0, 2));
    c.accumulate(&pt(1, 0, 4));
    // mean is (2/3, 0, 7/3): no integer point equals it
    assert!(!c.is_exactly(&pt(1, 0, 2)));
    assert!(!c.is_exactly(&pt(0, 0, 2)));
    let r = c.rounded();
    assert_eq!((r.x, r.y, r.z), (1, 0, 2));
}

#[test]
fn rounding_halves_away_from_zero() {
    let c = Centroid { sx: 5, sy: 1, sz: 4, count: 2 };
    let r = c.rounded();
    // 2.5 rounds to 3, 0.5 rounds to 1, 2 stays 2
    assert_eq!((r.x, r.y, r.z), (3, 1, 2));
    let d = Centroid { sx: 1, sy: 2, sz: 4, count: 3 };
    let s = d.rounded();
    // 1/3 rounds to 0, 2/3 rounds to 1, 4/3 rounds to 1
    assert_eq!((s.x, s.y, s.z), (0, 1, 1));
}
