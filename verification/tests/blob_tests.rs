// Tests for the hull builder, the orientation predicate, the
// containment checker and the nearest-neighbor radius engine.  All
// coordinates are fixed-point with 1000 units per world unit, and the
// orientation tolerance 10_000 is the classic 0.01 at that scale.
use rust_blob::blob::{
    compute_nearest_distances, find_hull, giftwrap, hull_violations, in_hull, isqrt, make_inblob,
    orientation, point_inside, Orientation,
};
use rust_blob::config::{Config, ConfigB2, ConfigRun, Ratio};
use rust_blob::types::{BlobError, Point};

const EPS: i64 = 10_000;

fn p(x: i64, y: i64) -> Point {
    Point::new(x, y)
}

fn config(fix_hull: bool, num: i64, den: i64) -> Config {
    Config {
        run: ConfigRun { fix_hull, refine_poly: false, rm_crossing: false },
        b2: ConfigB2 {
            mindist_radius_factor: Ratio { num, den },
            refine_epsilon: 0,
        },
    }
}

#[test]
fn orientation_test() {
    let a = p(0, 0);
    let b = p(0, 1000);
    let c = p(1000, 1000);
    let d = p(1000, 0);

    assert_eq!(orientation(a, b, d, EPS), Orientation::Clockwise);
    assert_eq!(orientation(a, d, b, EPS), Orientation::CounterClockwise);
    assert_eq!(orientation(a, c, b, EPS), Orientation::CounterClockwise);
}

fn torus_points() -> Vec<Point> {
    vec![
        p(0, 0),        // 0
        p(-707, 707),   // 1
        p(0, 1000),     // 2
        p(707, 707),    // 3
        p(1000, 0),     // 4
        p(707, -707),   // 5
        p(0, -1000),    // 6
        p(-707, -707),  // 7
        p(-1000, 0),    // 8
    ]
}

#[test]
fn orientation_test_torus() {
    let points = torus_points();

    assert_eq!(orientation(points[8], points[4], points[6], EPS), Orientation::Clockwise);
    assert_eq!(orientation(points[8], points[6], points[7], EPS), Orientation::Clockwise);
}

#[test]
fn orientation_test_colinear() {
    let a = p(0, 0);
    let b = p(0, 1000);
    let c = p(0, 2000);

    assert_eq!(orientation(a, b, c, EPS), Orientation::Colinear);
}

#[test]
fn test_giftwrap() {
    let points = vec![
        p(0, 0),       // 0
        p(1000, 0),    // 1
        p(1000, 1000), // 2
        p(0, 1000),    // 3
        p(500, 500),   // 4
    ];
    let inpoints = vec![0, 1, 2, 3, 4];
    let inpoints = vec![4, 1, 0, 2, 3];

    let hull = giftwrap(&points, &inpoints, EPS);
    assert_eq!(hull, vec![3, 2, 1, 0]);
}

#[test]
fn test_giftwrap_torus() {
    let points = torus_points();
    let inpoints = vec![0, 2, 4, 6, 8];
    let hull = giftwrap(&points, &inpoints, EPS);
    assert_eq!(hull, vec![2, 4, 6, 8]);

    let inpoints = vec![0, 1, 2, 3, 4, 5, 6, 7, 8];
    let hull = giftwrap(&points, &inpoints, EPS);
    assert_eq!(hull, vec![1, 2, 3, 4, 5, 6, 7, 8]);
}

// Idempotence on convex input: wrapping a convex polygon's own
// vertices returns exactly those vertices in cyclic order.
#[test]
fn test_giftwrap_idempotent_on_convex() {
    let points = torus_points();
    let hull = giftwrap(&points, &vec![0, 1, 2, 3, 4, 5, 6, 7, 8], EPS);
    let again = giftwrap(&points, &hull, EPS);
    assert_eq!(again, hull);

    let square = vec![p(0, 0), p(1000, 0), p(1000, 1000), p(0, 1000)];
    let hull = giftwrap(&square, &vec![0, 1, 2, 3], EPS);
    let again = giftwrap(&square, &hull, EPS);
    assert_eq!(again, hull);
}

// Containment law scenario: the hull is drawn from the candidates and
// every candidate is a hull vertex or lies inside the hull.
#[test]
fn test_giftwrap_containment() {
    let points = torus_points();
    let inpoints = vec![0, 1, 2, 3, 4, 5, 6, 7, 8];
    let hull = giftwrap(&points, &inpoints, EPS);
    for &i in &hull {
        assert!(inpoints.contains(&i));
    }
    for &i in &inpoints {
        assert!(in_hull(i, &hull) || point_inside(&points, &points[i], &hull));
    }
}

#[test]
fn test_giftwrap_degenerate() {
    let points = vec![p(0, 0), p(1000, 0)];
    let inpoints = vec![1, 0];
    assert_eq!(giftwrap(&points, &inpoints, EPS), vec![1, 0]);
    let none: Vec<usize> = vec![];
    assert_eq!(giftwrap(&points, &none, EPS), vec![]);
}

#[test]
fn test_point_inside_square() {
    let points = vec![p(0, 0), p(1000, 0), p(1000, 1000), p(0, 1000)];
    let hull = vec![3, 2, 1, 0];
    assert!(point_inside(&points, &p(500, 500), &hull));
    assert!(!point_inside(&points, &p(1500, 500), &hull));
    assert!(!point_inside(&points, &p(-1, 500), &hull));
}

// Starting-vertex independence scenario: rotating the hull's index
// cycle never changes the answer of the containment test.
#[test]
fn test_point_inside_rotation() {
    let points = torus_points();
    let hull = vec![1, 2, 3, 4, 5, 6, 7, 8];
    let samples = [p(0, 0), p(500, 0), p(900, 900), p(-1200, 0), p(0, -999)];
    for k in 0..hull.len() {
        let mut rotated: Vec<usize> = hull[k..].to_vec();
        rotated.extend_from_slice(&hull[..k]);
        for q in &samples {
            assert_eq!(
                point_inside(&points, q, &rotated),
                point_inside(&points, q, &hull),
            );
        }
    }
}

#[test]
fn test_in_hull() {
    let hull = vec![3, 2, 1, 0];
    assert!(in_hull(2, &hull));
    assert!(!in_hull(7, &hull));
}

#[test]
fn test_make_inblob() {
    let inblob = make_inblob(5, &vec![0, 3]);
    assert_eq!(inblob, vec![true, false, false, true, false]);
}

#[test]
fn test_isqrt_values() {
    assert_eq!(isqrt(0), 0);
    assert_eq!(isqrt(1), 1);
    assert_eq!(isqrt(3), 1);
    assert_eq!(isqrt(4), 2);
    assert_eq!(isqrt(999_999), 999);
    assert_eq!(isqrt(1_000_000), 1000);
    assert_eq!(isqrt(3_920_000_000_000_000_000), 1_979_898_987);
}

#[test]
fn test_nearest_distances_pair() {
    let points = vec![p(0, 0), p(3000, 4000)];
    let d = compute_nearest_distances(&points).unwrap();
    assert_eq!(d, vec![5000, 5000]);
}

// Error scenario: a single isolated point has no nearest neighbor.
#[test]
fn test_nearest_distances_single_point() {
    let points = vec![p(42, 7)];
    assert_eq!(compute_nearest_distances(&points), Err(BlobError::DegenerateInput));
    let conf = config(false, 2, 1);
    let inblob = vec![true];
    let r = find_hull(&conf, &points, &inblob, &vec![0], &vec![], EPS);
    assert_eq!(r, Err(BlobError::DegenerateInput));
}

// Radius law scenario: on a regular grid of spacing s every point's
// radius is s divided by the configured factor.
#[test]
fn test_grid_radius() {
    let s: i64 = 1000;
    let mut points = Vec::new();
    for row in 0..3 {
        for col in 0..3 {
            points.push(p(col * s, row * s));
        }
    }
    let conf = config(false, 2, 1);
    let inpoints: Vec<usize> = (0..9).collect();
    let inblob = make_inblob(9, &inpoints);
    let (_hull, radii) = find_hull(&conf, &points, &inblob, &inpoints, &vec![], EPS).unwrap();
    assert_eq!(radii, vec![500; 9]);
}

// End-to-end scenario: four points forming a unit square, all included.
// The hull is a 4-cycle in consistent winding and the validator reports
// no violations for the empty excluded set.
#[test]
fn test_unit_square_end_to_end() {
    let points = vec![p(0, 0), p(1000, 0), p(1000, 1000), p(0, 1000)];
    let inpoints = vec![0, 1, 2, 3];
    let expoints: Vec<usize> = vec![];
    let inblob = make_inblob(4, &inpoints);
    let conf = config(true, 2, 1);
    let (hull, radii) = find_hull(&conf, &points, &inblob, &inpoints, &expoints, EPS).unwrap();
    assert_eq!(hull, vec![3, 2, 1, 0]);
    assert_eq!(radii, vec![500; 4]);
    let violations = hull_violations(&points, &hull, &expoints);
    assert_eq!(violations, vec![]);
}

// A detected violation: an excluded point sitting inside the hull is
// reported (and the hull comes back unrepaired).
#[test]
fn test_validator_reports_inside_point() {
    let points = vec![p(0, 0), p(1000, 0), p(1000, 1000), p(0, 1000), p(400, 600)];
    let inpoints = vec![0, 1, 2, 3];
    let expoints = vec![4];
    let hull = giftwrap(&points, &inpoints, EPS);
    let violations = hull_violations(&points, &hull, &expoints);
    assert_eq!(violations, vec![4]);
}
