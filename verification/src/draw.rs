pub mod util;

use vstd::prelude::*;

use crate::blob::prev_index;
use crate::types::{point_in_bounds, points_in_bounds, BlobError, Point, Vector, RADIUS_BOUND};
use self::util::{smooth_line_angle, spec_smooth_line_dirs, tangent_ok};

verus! {

/// One circular arc of the final blob outline: the osculating circle at
/// one hull vertex, entered at direction `start` and left at direction
/// `end` (each `Vector` stands for the angle `atan2(y, x)`), swept in
/// the reversed rotational direction when the vertex bulges outward
/// (`reversed`, set exactly for in-blob vertices).  The straight
/// tangent segments between consecutive arcs connect them.
#[derive(Clone, Copy, Debug, PartialEq, Eq, Structural)]
pub struct ArcDescriptor {
    pub center: Point,
    pub radius: i64,
    pub start: Vector,
    pub end: Vector,
    pub reversed: bool,
}

/// Index of the vertex following position `k` on a cycle of length `len`.
pub open spec fn next_index(len: int, k: int) -> int {
    if k == len - 1 {
        0
    } else {
        k + 1
    }
}

/// The tangent-domain contract for the oriented hull edge leaving
/// position `k`.
pub open spec fn edge_ok(
    ps: Seq<Point>,
    hull: Seq<usize>,
    inblob: Seq<bool>,
    radii: Seq<i64>,
    k: int,
) -> bool {
    let i = hull[k] as int;
    let j = hull[next_index(hull.len() as int, k)] as int;
    tangent_ok(ps[i], ps[j], radii[i] as int, radii[j] as int, inblob[i], inblob[j])
}

/// The departure and arrival tangent directions of the hull edge
/// leaving position `k`.
pub open spec fn edge_dirs(
    ps: Seq<Point>,
    hull: Seq<usize>,
    inblob: Seq<bool>,
    radii: Seq<i64>,
    k: int,
) -> (Vector, Vector) {
    let i = hull[k] as int;
    let j = hull[next_index(hull.len() as int, k)] as int;
    spec_smooth_line_dirs(ps[i], ps[j], radii[i] as int, radii[j] as int, inblob[i], inblob[j])
}

/// The smooth boundary constructor: one pass around the hull cycle that
/// chains the per-edge tangent directions into one arc per vertex.  The
/// arc at position `k` is centered on that vertex, starts at the
/// arrival direction of the edge coming in and ends at the departure
/// direction of the edge going out, and is swept in reverse exactly at
/// in-blob (bulge) vertices.
///
/// Success exactly when every edge satisfies the tangent domain
/// contract; otherwise the offending edge is named and nothing is
/// produced in its place.
pub fn trace_blob(
    points: &Vec<Point>,
    hull: &Vec<usize>,
    inblob: &Vec<bool>,
    radii: &Vec<i64>,
) -> (r: Result<Vec<ArcDescriptor>, BlobError>)
    requires
        points_in_bounds(points@),
        hull@.len() >= 1,
        forall|i: int| 0 <= i < hull@.len() ==> (#[trigger] hull@[i]) < points@.len(),
        inblob@.len() == points@.len(),
        radii@.len() == points@.len(),
        forall|i: int| 0 <= i < radii@.len() ==> 0 <= (#[trigger] radii@[i]) <= RADIUS_BOUND,
    ensures
        (r is Ok) <==> (forall|k: int|
            0 <= k < hull@.len() ==> edge_ok(points@, hull@, inblob@, radii@, k)),
        r matches Ok(arcs) ==> {
            &&& arcs@.len() == hull@.len()
            &&& forall|k: int|
                0 <= k < arcs@.len() ==> {
                    let i = hull@[k] as int;
                    &&& (#[trigger] arcs@[k]).center == points@[i]
                    &&& arcs@[k].radius == radii@[i]
                    &&& arcs@[k].reversed == inblob@[i]
                    &&& arcs@[k].end == edge_dirs(points@, hull@, inblob@, radii@, k).0
                    &&& arcs@[k].start == edge_dirs(
                        points@,
                        hull@,
                        inblob@,
                        radii@,
                        prev_index(hull@.len() as int, k),
                    ).1
                }
        },
        r matches Err(e) ==> (e matches BlobError::Domain { a, b } && exists|k: int|
            0 <= k < hull@.len() && a == hull@[k] && b == hull@[next_index(
                hull@.len() as int,
                k,
            )] && !edge_ok(points@, hull@, inblob@, radii@, k)),
{
    let n = hull.len();
    // Seed the pending start angle from the wraparound edge
    // (last vertex -> first vertex) before the pass begins.
    let last_ix = hull[n - 1];
    let first_ix = hull[0];
    let pending0 = smooth_line_angle(
        &points[last_ix],
        radii[last_ix],
        inblob[last_ix],
        &points[first_ix],
        radii[first_ix],
        inblob[first_ix],
    );
    let mut pending: Vector = match pending0 {
        Some(t) => t.1,
        None => {
            proof {
                assert(!edge_ok(points@, hull@, inblob@, radii@, n - 1));
            }
            return Err(BlobError::Domain { a: last_ix, b: first_ix });
        },
    };
    let mut arcs: Vec<ArcDescriptor> = Vec::new();
    let mut k: usize = 0;
    while k < n
        invariant
            n == hull@.len(),
            n >= 1,
            0 <= k <= n,
            points_in_bounds(points@),
            forall|i: int| 0 <= i < hull@.len() ==> (#[trigger] hull@[i]) < points@.len(),
            inblob@.len() == points@.len(),
            radii@.len() == points@.len(),
            forall|i: int| 0 <= i < radii@.len() ==> 0 <= (#[trigger] radii@[i]) <= RADIUS_BOUND,
            edge_ok(points@, hull@, inblob@, radii@, n - 1),
            forall|q: int| 0 <= q < k ==> edge_ok(points@, hull@, inblob@, radii@, q),
            pending == edge_dirs(points@, hull@, inblob@, radii@, prev_index(n as int, k as int)).1,
            arcs@.len() == k,
            forall|q: int|
                0 <= q < k ==> {
                    let i = hull@[q] as int;
                    &&& (#[trigger] arcs@[q]).center == points@[i]
                    &&& arcs@[q].radius == radii@[i]
                    &&& arcs@[q].reversed == inblob@[i]
                    &&& arcs@[q].end == edge_dirs(points@, hull@, inblob@, radii@, q).0
                    &&& arcs@[q].start == edge_dirs(
                        points@,
                        hull@,
                        inblob@,
                        radii@,
                        prev_index(n as int, q),
                    ).1
                },
        decreases n - k,
    {
        let i = hull[k];
        let jpos: usize = if k == n - 1 {
            0
        } else {
            k + 1
        };
        let j = hull[jpos];
        match smooth_line_angle(
            &points[i],
            radii[i],
            inblob[i],
            &points[j],
            radii[j],
            inblob[j],
        ) {
            Some(t) => {
                arcs.push(
                    ArcDescriptor {
                        center: points[i],
                        radius: radii[i],
                        start: pending,
                        end: t.0,
                        reversed: inblob[i],
                    },
                );
                pending = t.1;
            },
            None => {
                proof {
                    assert(!edge_ok(points@, hull@, inblob@, radii@, k as int));
                }
                return Err(BlobError::Domain { a: i, b: j });
            },
        }
        k += 1;
    }
    Ok(arcs)
}

} // verus!
