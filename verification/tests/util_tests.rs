// Tests for the tangent geometry and the angle helpers.  Coordinates
// are fixed-point with 1000 units per world unit; a direction vector
// stands for the angle atan2(y, x), so checks compare components and
// signs rather than floating-point angles.
use rust_blob::draw::util::{
    ascii_path_to_string, normalize_angle, smooth_line_angle, smooth_line_normal, TURN,
};
use rust_blob::draw::{trace_blob, ArcDescriptor};
use rust_blob::types::{BlobError, Point, Vector};

fn p(x: i64, y: i64) -> Point {
    Point::new(x, y)
}

#[test]
fn test_ascii_path_to_string() {
    let p = "/test/file.foo";
    let strified = ascii_path_to_string(p);
    assert_eq!(strified, Some("/test/file.foo"));
}

#[test]
fn test_ascii_path_to_string_non_ascii() {
    assert_eq!(ascii_path_to_string("/tèst/file.foo"), None);
}

#[test]
fn test_smooth_line_normal_up() {
    let a = p(0, 0);
    let b = p(1000, 0);

    let up = smooth_line_normal(&a, 200, true, &b, 200, true).unwrap();
    assert_eq!(up, Vector::new(0, 1_000_000));
}

#[test]
fn test_smooth_line_normal_up2() {
    let a = p(0, 0);
    let b = p(1000, 0);

    let up2 = smooth_line_normal(&a, 200, false, &b, 200, false).unwrap();
    assert_eq!(up2, Vector::new(0, 1_000_000));
}

#[test]
fn test_smooth_line_normal_upish_leftish() {
    let a = p(0, 0);
    let b = p(1000, 0);

    let uppish_leftish = smooth_line_normal(&a, 200, true, &b, 800, true).unwrap();
    assert!(uppish_leftish.x < 0);
    assert!(uppish_leftish.y > 0);
}

#[test]
fn test_smooth_line_normal_up_left() {
    let a = p(0, 0);
    let b = p(1000, 0);

    let up_left = smooth_line_normal(&a, 200, false, &b, 200, true).unwrap();
    assert!(up_left.x < 0);
    assert!(up_left.y > 0);
}

#[test]
fn test_smooth_line_normal_up_right() {
    let a = p(0, 0);
    let b = p(1000, 0);

    let up_right = smooth_line_normal(&a, 200, true, &b, 200, false).unwrap();
    assert!(up_right.x > 0);
    assert!(up_right.y > 0);
}

#[test]
fn test_smooth_line_normal_torus_bad() {
    let a = p(707, -707);
    let b = p(0, 0);

    let n = smooth_line_normal(&a, 100, true, &b, 100, false).unwrap();
    assert!(n.x < 0);
    assert!(n.y < 0);
    assert!(n.x < n.y); // Pointing more x-ly
}

#[test]
fn test_normalize_angle() {
    // half a turn below zero comes back as half a turn
    assert_eq!(normalize_angle(-180_000_000), 180_000_000);
    assert!(normalize_angle(-45_000_000) > 0);
    // -135 degrees is 225 degrees
    assert_eq!(normalize_angle(-135_000_000), 225_000_000);
    assert_eq!(normalize_angle(TURN), 0);
    assert_eq!(normalize_angle(2 * TURN + 5_000_000), 5_000_000);
}

#[test]
fn test_smooth_line_angle() {
    let a = p(0, 0);
    let points = vec![
        p(0, -1000),     // 0: expected angle 0
        p(1000, -1000),  // 1: expected angle 45
        p(1000, 0),      // 2: expected angle 90
        p(1000, 1000),   // 3: expected angle 135
        p(0, 1000),      // 4: expected angle 180
        p(-1000, 1000),  // 5: expected angle 225
        p(-1000, 0),     // 6: expected angle 270
        p(-1000, -1000), // 7: expected angle 315
    ];

    // with equal radii the tangent direction is the edge direction
    // turned a quarter turn counterclockwise, so for the i-th probe the
    // direction vector points at i * 45 degrees
    let expected_signs = [
        (1, 0),
        (1, 1),
        (0, 1),
        (-1, 1),
        (-1, 0),
        (-1, -1),
        (0, -1),
        (1, -1),
    ];
    for (i, b) in points.iter().enumerate() {
        let (sx, sy) = expected_signs[i];
        for flags in [true, false] {
            let (theta, theta2) = smooth_line_angle(&a, 100, flags, b, 100, flags).unwrap();
            assert_eq!(theta, theta2, "equal flags share one angle in {}", i);
            assert_eq!(theta.x.signum(), sx, "angle incorrect in {}", i);
            assert_eq!(theta.y.signum(), sy, "angle incorrect in {}", i);
            if sx != 0 && sy != 0 {
                assert_eq!(theta.x.abs(), theta.y.abs(), "diagonal in {}", i);
            }
        }
    }
}

// Mixed membership flags: the arrival angle is the departure angle
// shifted by half a turn, i.e. the opposite direction vector.
#[test]
fn test_smooth_line_angle_mixed_flags() {
    let a = p(0, 0);
    let b = p(1000, 0);
    let (theta, theta2) = smooth_line_angle(&a, 200, true, &b, 200, false).unwrap();
    assert_eq!(theta2, Vector::new(-theta.x, -theta.y));
}

// Tangent scenario: two points at distance 2, both in-blob with equal
// radius, have delta 0, so the tangent angle is a quarter turn and the
// normal is exactly perpendicular to the connecting segment.
#[test]
fn test_tangent_perpendicular() {
    let a = p(0, 0);
    let b = p(2000, 0);
    let n = smooth_line_normal(&a, 200, true, &b, 200, true).unwrap();
    assert_eq!(n.x, 0);
    assert!(n.y > 0);
}

// Domain violation scenario: two points at distance 0.1 with radii 1.0
// and differing flags have delta 20, which must surface as a domain
// error, never as a meaningless direction.
#[test]
fn test_tangent_domain_violation() {
    let a = p(0, 0);
    let b = p(100, 0);
    assert_eq!(smooth_line_normal(&a, 1000, true, &b, 1000, false), None);

    let points = vec![a, b];
    let hull = vec![0, 1];
    let inblob = vec![true, false];
    let radii = vec![1000, 1000];
    let r = trace_blob(&points, &hull, &inblob, &radii);
    assert!(matches!(r, Err(BlobError::Domain { .. })));
}

// A full trace around a square blob: one arc per hull vertex, chained
// so that each arc starts where the previous edge arrived.
#[test]
fn test_trace_blob_square() {
    let points = vec![p(0, 0), p(1000, 0), p(1000, 1000), p(0, 1000)];
    let hull = vec![3, 2, 1, 0];
    let inblob = vec![true, true, true, true];
    let radii = vec![200, 200, 200, 200];
    let arcs: Vec<ArcDescriptor> = trace_blob(&points, &hull, &inblob, &radii).unwrap();
    assert_eq!(arcs.len(), 4);
    for (k, arc) in arcs.iter().enumerate() {
        assert_eq!(arc.center, points[hull[k]]);
        assert_eq!(arc.radius, 200);
        assert!(arc.reversed);
        // equal flags: the arc starts where the incoming edge arrived
        let prev = arcs[(k + 3) % 4];
        assert_eq!(arc.start, prev.end);
    }
    // the top edge (3 -> 2) runs along +x, so its tangent direction
    // points straight up
    assert_eq!(arcs[0].end, Vector::new(0, 1_000_000));
}
