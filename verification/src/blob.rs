use vstd::prelude::*;

use crate::config::{Config, Ratio, ratio_valid};
use crate::types::{BlobError, Point, point_in_bounds, points_in_bounds, COORD_BOUND};

verus! {

/// Turn direction of the ordered triple (a, b, c).
#[derive(Clone, Copy, Debug, PartialEq, Eq, Structural)]
pub enum Orientation {
    Colinear,
    Clockwise,
    CounterClockwise,
}

/// The doubled signed area that the orientation predicate tests:
/// the cross product of (b - a) and (c - a), in the sign convention the
/// rest of the kernel is built around (positive means clockwise).
pub open spec fn cross(a: Point, b: Point, c: Point) -> int {
    (b.y - a.y) * (c.x - a.x) - (b.x - a.x) * (c.y - a.y)
}

/// Classification of the triple under an absolute tolerance `eps`:
/// a cross product within the open band (-eps, eps) counts as colinear.
pub open spec fn spec_orientation(a: Point, b: Point, c: Point, eps: int) -> Orientation {
    let cr = cross(a, b, c);
    if -eps < cr < eps {
        Orientation::Colinear
    } else if cr > 0 {
        Orientation::Clockwise
    } else {
        Orientation::CounterClockwise
    }
}

/// |x * y| <= b * c whenever |x| <= b and |y| <= c.
pub(crate) proof fn lemma_mul_bound(x: int, y: int, b: int, c: int)
    by (nonlinear_arith)
    requires
        -b <= x <= b,
        -c <= y <= c,
        0 <= b,
        0 <= c,
    ensures
        -(b * c) <= x * y <= b * c,
{
}

/// Classify the turn direction of the three points, with `eps` the
/// absolute tolerance below which the cross product counts as colinear.
pub fn orientation(a: Point, b: Point, c: Point, eps: i64) -> (r: Orientation)
    requires
        point_in_bounds(a),
        point_in_bounds(b),
        point_in_bounds(c),
        eps >= 0,
    ensures
        r == spec_orientation(a, b, c, eps as int),
{
    let aby = b.y - a.y;
    let abx = b.x - a.x;
    let acy = c.y - a.y;
    let acx = c.x - a.x;
    proof {
        lemma_mul_bound(aby as int, acx as int, 2 * COORD_BOUND as int, 2 * COORD_BOUND as int);
        lemma_mul_bound(abx as int, acy as int, 2 * COORD_BOUND as int, 2 * COORD_BOUND as int);
    }
    let cr = aby * acx - abx * acy;
    if -eps < cr && cr < eps {
        Orientation::Colinear
    } else if cr > 0 {
        Orientation::Clockwise
    } else {
        Orientation::CounterClockwise
    }
}

/// Swapping the last two points flips the turn direction and preserves
/// colinearity: orientation is antisymmetric in its last two arguments,
/// except on (tolerance-)colinear triples, which stay colinear.
pub proof fn lemma_orientation_antisymmetry(a: Point, b: Point, c: Point, eps: int)
    requires
        eps > 0,
    ensures
        (spec_orientation(a, b, c, eps) is Colinear)
            <==> (spec_orientation(a, c, b, eps) is Colinear),
        (spec_orientation(a, b, c, eps) is Clockwise)
            <==> (spec_orientation(a, c, b, eps) is CounterClockwise),
        (spec_orientation(a, b, c, eps) is CounterClockwise)
            <==> (spec_orientation(a, c, b, eps) is Clockwise),
{
    assert(cross(a, b, c) == -cross(a, c, b)) by (nonlinear_arith);
}

/// Squared Euclidean distance between two points.
pub open spec fn sqdist(p: Point, q: Point) -> int {
    (p.x - q.x) * (p.x - q.x) + (p.y - q.y) * (p.y - q.y)
}

/// Largest squared distance two in-range points can have.
pub const SQDIST_BOUND: i64 = 3_920_000_000_000_000_000;

proof fn lemma_sqdist_bounds(p: Point, q: Point)
    requires
        point_in_bounds(p),
        point_in_bounds(q),
    ensures
        0 <= sqdist(p, q) <= SQDIST_BOUND as int,
{
    let dx = p.x - q.x;
    let dy = p.y - q.y;
    assert(0 <= dx * dx <= 1_960_000_000_000_000_000) by (nonlinear_arith)
        requires -1_400_000_000 <= dx <= 1_400_000_000;
    assert(0 <= dy * dy <= 1_960_000_000_000_000_000) by (nonlinear_arith)
        requires -1_400_000_000 <= dy <= 1_400_000_000;
}

/// Compute the squared distance, exactly.
pub fn sqdist_exec(p: Point, q: Point) -> (r: i64)
    requires
        point_in_bounds(p),
        point_in_bounds(q),
    ensures
        r == sqdist(p, q),
        0 <= r <= SQDIST_BOUND,
{
    proof { lemma_sqdist_bounds(p, q); }
    let dx = p.x - q.x;
    let dy = p.y - q.y;
    proof {
        lemma_mul_bound(dx as int, dx as int, 2 * COORD_BOUND as int, 2 * COORD_BOUND as int);
        lemma_mul_bound(dy as int, dy as int, 2 * COORD_BOUND as int, 2 * COORD_BOUND as int);
    }
    dx * dx + dy * dy
}

/// The integer square root: the unique r >= 0 with r*r <= n < (r+1)*(r+1).
pub open spec fn spec_isqrt(n: int) -> int
    decreases n,
{
    if n <= 0 {
        0
    } else {
        let r = spec_isqrt(n - 1);
        if (r + 1) * (r + 1) <= n {
            r + 1
        } else {
            r
        }
    }
}

pub proof fn lemma_isqrt_bounds(n: int)
    requires
        n >= 0,
    ensures
        spec_isqrt(n) >= 0,
        spec_isqrt(n) * spec_isqrt(n) <= n,
        n < (spec_isqrt(n) + 1) * (spec_isqrt(n) + 1),
    decreases n,
{
    if n == 0 {
    } else {
        lemma_isqrt_bounds(n - 1);
        let r0 = spec_isqrt(n - 1);
        if (r0 + 1) * (r0 + 1) <= n {
            assert(n == (r0 + 1) * (r0 + 1));
            assert((r0 + 1) * (r0 + 1) < (r0 + 2) * (r0 + 2)) by (nonlinear_arith)
                requires r0 >= 0;
        }
    }
}

pub proof fn lemma_isqrt_unique(n: int, r: int)
    requires
        n >= 0,
        r >= 0,
        r * r <= n,
        n < (r + 1) * (r + 1),
    ensures
        r == spec_isqrt(n),
{
    lemma_isqrt_bounds(n);
    let s = spec_isqrt(n);
    assert(r == s) by (nonlinear_arith)
        requires
            r >= 0,
            s >= 0,
            r * r <= n,
            n < (r + 1) * (r + 1),
            s * s <= n,
            n < (s + 1) * (s + 1);
}

/// Integer square root by bisection.
pub fn isqrt(n: i64) -> (r: i64)
    requires
        n >= 0,
    ensures
        r == spec_isqrt(n as int),
        r >= 0,
        r * r <= n < (r + 1) * (r + 1),
{
    let mut lo: i64 = 0;
    let mut hi: i64 = 3_037_000_499;
    proof {
        assert((3_037_000_499int + 1) * (3_037_000_499int + 1) == 9223372037000250000);
    }
    while lo < hi
        invariant
            0 <= lo <= hi <= 3_037_000_499,
            lo * lo <= n,
            n < (hi + 1) * (hi + 1),
        decreases hi - lo,
    {
        let mid = lo + (hi - lo + 1) / 2;
        proof {
            lemma_mul_bound(mid as int, mid as int, 3_037_000_500, 3_037_000_500);
        }
        let m2: i128 = (mid as i128) * (mid as i128);
        if m2 <= n as i128 {
            lo = mid;
        } else {
            hi = mid - 1;
        }
    }
    proof {
        lemma_isqrt_unique(n as int, lo as int);
    }
    lo
}

/// Extending a prefix of a sequence by one position is a push.
proof fn lemma_subrange_push(s: Seq<usize>, k: int)
    requires
        0 <= k < s.len(),
    ensures
        s.subrange(0, k + 1) == s.subrange(0, k).push(s[k]),
{
    assert(s.subrange(0, k + 1) =~= s.subrange(0, k).push(s[k]));
}

/// Extending a prefix by one position adds exactly that element to what
/// the prefix contains.
proof fn lemma_subrange_contains_iff(s: Seq<usize>, k: int, x: usize)
    requires
        0 <= k < s.len(),
    ensures
        s.subrange(0, k + 1).contains(x) <==> (s[k] == x || s.subrange(0, k).contains(x)),
{
    lemma_subrange_push(s, k);
    vstd::seq_lib::lemma_seq_contains_after_push(s.subrange(0, k), s[k], x);
}

/// A duplicate-free sequence drawn from a duplicate-free pool is no
/// longer than the pool.
proof fn lemma_subset_no_dup_len(a: Seq<usize>, b: Seq<usize>)
    requires
        a.no_duplicates(),
        b.no_duplicates(),
        forall|i: int| 0 <= i < a.len() ==> b.contains(#[trigger] a[i]),
    ensures
        a.len() <= b.len(),
{
    broadcast use vstd::set::group_set_axioms;
    broadcast use vstd::seq_lib::seq_to_set_is_finite;

    a.unique_seq_to_set();
    b.unique_seq_to_set();
    assert forall|x: usize| a.to_set().contains(x) implies b.to_set().contains(x) by {
        assert(a.contains(x));
    }
    assert(a.to_set().subset_of(b.to_set()));
    vstd::set_lib::lemma_len_subset(a.to_set(), b.to_set());
}

/// Is `a` one of the indices of `p`?
pub fn in_hull(a: usize, p: &Vec<usize>) -> (r: bool)
    ensures
        r == p@.contains(a),
{
    let mut k: usize = 0;
    while k < p.len()
        invariant
            0 <= k <= p@.len(),
            forall|i: int| 0 <= i < k ==> p@[i] != a,
        decreases p@.len() - k,
    {
        if p[k] == a {
            return true;
        }
        k += 1;
    }
    false
}

/// Membership flags for the whole point array: true exactly at the
/// included indices.
pub fn make_inblob(size: usize, included: &Vec<usize>) -> (inblob: Vec<bool>)
    requires
        forall|i: int| 0 <= i < included@.len() ==> (#[trigger] included@[i]) < size,
    ensures
        inblob@.len() == size,
        forall|k: int| 0 <= k < size ==> ((#[trigger] inblob@[k]) <==> included@.contains(k as usize)),
{
    broadcast use vstd::seq_lib::lemma_seq_contains_after_push;

    let mut inblob: Vec<bool> = vec![false; size];
    let mut j: usize = 0;
    while j < included.len()
        invariant
            inblob@.len() == size,
            0 <= j <= included@.len(),
            forall|i: int| 0 <= i < included@.len() ==> (#[trigger] included@[i]) < size,
            forall|k: int| 0 <= k < size
                ==> ((#[trigger] inblob@[k]) <==> included@.subrange(0, j as int).contains(k as usize)),
        decreases included@.len() - j,
    {
        let ghost pre = inblob@;
        let i = included[j];
        inblob.set(i, true);
        proof {
            assert forall|k: int| 0 <= k < size implies
                ((#[trigger] inblob@[k]) <==> included@.subrange(0, j + 1).contains(k as usize)) by {
                lemma_subrange_contains_iff(included@, j as int, k as usize);
                if k != i as int {
                    assert(inblob@[k] == pre[k]);
                }
            }
        }
        j += 1;
    }
    proof {
        assert(included@.subrange(0, included@.len() as int) =~= included@);
    }
    inblob
}

/// The smaller of two values (the ordering analogue of the original
/// float helper; integers are totally ordered, so the result is exact).
fn partial_min(a: i64, b: i64) -> (r: i64)
    ensures
        r == if a < b { a } else { b },
{
    if a < b {
        a
    } else {
        b
    }
}

/// The candidate the starting-vertex scan has selected after examining
/// the first `k` candidates: minimal x, ties broken toward smaller y,
/// the earlier candidate kept on exact coordinate ties.
pub open spec fn spec_leftmost(ps: Seq<Point>, included: Seq<usize>, k: int) -> usize
    decreases k,
{
    if k <= 1 {
        included[0]
    } else {
        let lm = spec_leftmost(ps, included, k - 1);
        let c = included[k - 1];
        if ps[c as int].x <= ps[lm as int].x
            && (ps[c as int].x < ps[lm as int].x || ps[c as int].y < ps[lm as int].y) {
            c
        } else {
            lm
        }
    }
}

/// The working set after the first `k` candidates were offered: all of
/// them, in their given order, except the starting vertex `lm`.
pub open spec fn spec_working(included: Seq<usize>, lm: usize, k: int) -> Seq<usize>
    decreases k,
{
    if k <= 0 {
        Seq::empty()
    } else {
        let rest = spec_working(included, lm, k - 1);
        if included[k - 1] == lm {
            rest
        } else {
            rest.push(included[k - 1])
        }
    }
}

/// The working-set position the edge scan has chosen after examining
/// the positions below `j`: the latest candidate that lay
/// counterclockwise of the edge from `base` to the choice so far,
/// (tolerance-)colinear ties keeping the earlier one.
pub open spec fn spec_scan(ps: Seq<Point>, base: usize, left: Seq<usize>, eps: int, j: int) -> int
    decreases j,
{
    if j <= 1 {
        0
    } else {
        let e = spec_scan(ps, base, left, eps, j - 1);
        if spec_orientation(
            ps[base as int],
            ps[left[e] as int],
            ps[left[j - 1] as int],
            eps,
        ) is CounterClockwise {
            j - 1
        } else {
            e
        }
    }
}

/// The scan's choice is always one of the examined positions.
pub proof fn lemma_spec_scan_range(ps: Seq<Point>, base: usize, left: Seq<usize>, eps: int, j: int)
    requires
        j >= 1,
    ensures
        0 <= spec_scan(ps, base, left, eps, j) < j,
    decreases j,
{
    if j > 1 {
        lemma_spec_scan_range(ps, base, left, eps, j - 1);
    }
}

/// One full gift-wrap sweep: from the current hull tip `base`,
/// repeatedly take the scan's choice out of the working set and append
/// it to the hull, re-admitting the starting vertex after the first
/// step, until the sweep closes back to the start or the working set
/// runs out.
pub open spec fn spec_sweep(
    ps: Seq<Point>,
    left: Seq<usize>,
    base: usize,
    start: usize,
    need_reinsert: bool,
    hull: Seq<usize>,
    eps: int,
) -> Seq<usize>
    decreases left.len() + (if need_reinsert { 1int } else { 0int }),
{
    if left.len() == 0 {
        hull
    } else {
        let e = spec_scan(ps, base, left, eps, left.len() as int);
        proof {
            lemma_spec_scan_range(ps, base, left, eps, left.len() as int);
        }
        let end_ix = left[e];
        let left2 = left.remove(e);
        let hull2 = hull.push(end_ix);
        if end_ix == start {
            hull2
        } else if need_reinsert {
            spec_sweep(ps, left2.push(start), end_ix, start, false, hull2, eps)
        } else {
            spec_sweep(ps, left2, end_ix, start, false, hull2, eps)
        }
    }
}

/// The hull the gift-wrap construction returns: a candidate list of at
/// most two members comes back as it is; otherwise the sweep starts and
/// closes at the leftmost candidate.  This is the exact value the
/// executable `giftwrap` produces.
pub open spec fn spec_giftwrap(ps: Seq<Point>, included: Seq<usize>, eps: int) -> Seq<usize> {
    if included.len() <= 2 {
        included
    } else {
        let lm = spec_leftmost(ps, included, included.len() as int);
        spec_sweep(
            ps,
            spec_working(included, lm, included.len() as int),
            lm,
            lm,
            true,
            Seq::empty(),
            eps,
        )
    }
}

/// Gift-wrapping convex hull over the candidate indices `included`.
///
/// The contract pins the result completely: the hull is exactly
/// `spec_giftwrap`, the mathematical restatement of the sweep, from
/// which the structural clauses below (a duplicate-free selection from
/// the candidates, unchanged small inputs, nonemptiness) also follow.
/// That the cycle encloses every candidate is a geometric fact that
/// holds only away from the tolerance: with a fixed absolute epsilon
/// the orientation predicate can misclassify near-colinear triples and
/// the sweep then under-selects (the tie-break keeps the first found),
/// so enclosure is exercised by the containment tests instead of being
/// promised here.
pub fn giftwrap(points: &Vec<Point>, included: &Vec<usize>, eps: i64) -> (hull: Vec<usize>)
    requires
        points_in_bounds(points@),
        eps >= 0,
        forall|i: int| 0 <= i < included@.len() ==> (#[trigger] included@[i]) < points@.len(),
        included@.no_duplicates(),
    ensures
        hull@ == spec_giftwrap(points@, included@, eps as int),
        forall|i: int| 0 <= i < hull@.len() ==> included@.contains(#[trigger] hull@[i]),
        hull@.no_duplicates(),
        hull@.len() <= included@.len(),
        forall|i: int| 0 <= i < hull@.len() ==> (#[trigger] hull@[i]) < points@.len(),
        included@.len() <= 2 ==> hull@ == included@,
        included@.len() > 2 ==> hull@.len() >= 1,
{
    broadcast use vstd::seq_lib::lemma_seq_contains_after_push;

    let n = included.len();
    if n <= 2 {
        let mut out: Vec<usize> = Vec::new();
        let mut k: usize = 0;
        while k < n
            invariant
                0 <= k <= n,
                n == included@.len(),
                out@ =~= included@.subrange(0, k as int),
            decreases n - k,
        {
            out.push(included[k]);
            k += 1;
        }
        proof {
            assert(out@ =~= included@);
        }
        return out;
    }

    // The fixed starting and closing vertex: minimal x, ties broken by
    // minimal y.
    let mut leftmost_ix: usize = included[0];
    let mut k: usize = 1;
    while k < n
        invariant
            1 <= k <= n,
            n == included@.len(),
            included@.contains(leftmost_ix),
            forall|i: int| 0 <= i < included@.len() ==> (#[trigger] included@[i]) < points@.len(),
            leftmost_ix < points@.len(),
            leftmost_ix == spec_leftmost(points@, included@, k as int),
        decreases n - k,
    {
        let i = included[k];
        if points[i].x <= points[leftmost_ix].x {
            if points[i].x < points[leftmost_ix].x || points[i].y < points[leftmost_ix].y {
                leftmost_ix = i;
            }
        }
        k += 1;
    }

    // Working set of not-yet-placed candidates, in their given order,
    // with the starting vertex taken out.
    let mut left: Vec<usize> = Vec::new();
    let mut k: usize = 0;
    while k < n
        invariant
            0 <= k <= n,
            n == included@.len(),
            included@.no_duplicates(),
            included@.contains(leftmost_ix),
            forall|i: int| 0 <= i < included@.len() ==> (#[trigger] included@[i]) < points@.len(),
            forall|i: int| 0 <= i < left@.len()
                ==> included@.subrange(0, k as int).contains(#[trigger] left@[i]),
            left@.no_duplicates(),
            !left@.contains(leftmost_ix),
            forall|i: int| 0 <= i < left@.len() ==> (#[trigger] left@[i]) < points@.len(),
            left@.len() + (if included@.subrange(0, k as int).contains(leftmost_ix) { 1int } else { 0int })
                == k,
            left@ == spec_working(included@, leftmost_ix, k as int),
        decreases n - k,
    {
        let ghost pre = left@;
        let ghost sub0 = included@.subrange(0, k as int);
        let c = included[k];
        proof {
            lemma_subrange_contains_iff(included@, k as int, leftmost_ix);
            // position k is fresh: a duplicate-free sequence cannot show
            // included[k] inside its first k positions
            if sub0.contains(c) {
                let w = choose|w: int| 0 <= w < sub0.len() && sub0[w] == c;
                assert(included@[w] == included@[k as int]);
                assert(false);
            }
        }
        if c != leftmost_ix {
            proof {
                if pre.contains(c) {
                    let w = choose|w: int| 0 <= w < pre.len() && pre[w] == c;
                    assert(sub0.contains(c));
                }
            }
            left.push(c);
            proof {
                assert forall|i: int| 0 <= i < left@.len() implies
                    included@.subrange(0, k + 1).contains(#[trigger] left@[i]) by {
                    lemma_subrange_contains_iff(included@, k as int, left@[i]);
                    if i < pre.len() {
                        assert(left@[i] == pre[i]);
                        assert(sub0.contains(pre[i]));
                    } else {
                        assert(left@[i] == c);
                    }
                }
            }
        } else {
            proof {
                assert forall|i: int| 0 <= i < left@.len() implies
                    included@.subrange(0, k + 1).contains(#[trigger] left@[i]) by {
                    lemma_subrange_contains_iff(included@, k as int, left@[i]);
                    assert(sub0.contains(left@[i]));
                }
            }
        }
        k += 1;
    }
    proof {
        assert(included@.subrange(0, n as int) =~= included@);
        // the starting vertex occurs exactly once, so the working set
        // holds the other n - 1 candidates
        assert(left@.len() == n - 1);
    }

    let start_ix = leftmost_ix;
    let mut hull: Vec<usize> = Vec::new();
    proof {
        assert(hull@ =~= Seq::<usize>::empty());
        assert(spec_giftwrap(points@, included@, eps as int) == spec_sweep(
            points@,
            left@,
            leftmost_ix,
            leftmost_ix,
            true,
            hull@,
            eps as int,
        ));
    }
    let mut base_ix = leftmost_ix;
    let mut need_to_reinsert_leftmost = true;

    loop
        invariant_except_break
            n == included@.len(),
            n > 2,
            points_in_bounds(points@),
            eps >= 0,
            included@.no_duplicates(),
            included@.contains(leftmost_ix),
            leftmost_ix < points@.len(),
            base_ix < points@.len(),
            forall|i: int| 0 <= i < left@.len() ==> included@.contains(#[trigger] left@[i]),
            forall|i: int| 0 <= i < left@.len() ==> (#[trigger] left@[i]) < points@.len(),
            left@.no_duplicates(),
            forall|i: int| 0 <= i < hull@.len() ==> included@.contains(#[trigger] hull@[i]),
            forall|i: int| 0 <= i < hull@.len() ==> (#[trigger] hull@[i]) < points@.len(),
            hull@.no_duplicates(),
            forall|i: int, j: int|
                0 <= i < hull@.len() && 0 <= j < left@.len()
                    ==> #[trigger] hull@[i] != #[trigger] left@[j],
            need_to_reinsert_leftmost
                ==> !left@.contains(leftmost_ix) && !hull@.contains(leftmost_ix) && left@.len() >= 2,
            !need_to_reinsert_leftmost ==> hull@.len() >= 1,
            start_ix == leftmost_ix,
            spec_sweep(points@, left@, base_ix, start_ix, need_to_reinsert_leftmost, hull@, eps as int)
                == spec_giftwrap(points@, included@, eps as int),
        ensures
            hull@ == spec_giftwrap(points@, included@, eps as int),
            forall|i: int| 0 <= i < hull@.len() ==> included@.contains(#[trigger] hull@[i]),
            forall|i: int| 0 <= i < hull@.len() ==> (#[trigger] hull@[i]) < points@.len(),
            hull@.no_duplicates(),
            hull@.len() >= 1,
        decreases left@.len() + (if need_to_reinsert_leftmost { 1int } else { 0int }),
    {
        if left.len() == 0 {
            proof {
                assert(spec_sweep(
                    points@,
                    left@,
                    base_ix,
                    start_ix,
                    need_to_reinsert_leftmost,
                    hull@,
                    eps as int,
                ) == hull@);
            }
            break;
        }
        let ghost pre_base = base_ix;
        // Scan the remaining candidates for the next hull vertex: keep
        // the one no other remaining candidate lies counterclockwise of;
        // (tolerance-)colinear ties keep the first found.
        let mut end_pos: usize = 0;
        let mut j: usize = 1;
        while j < left.len()
            invariant
                1 <= j <= left@.len(),
                end_pos < left@.len(),
                left@.len() >= 1,
                points_in_bounds(points@),
                eps >= 0,
                base_ix < points@.len(),
                forall|i: int| 0 <= i < left@.len() ==> (#[trigger] left@[i]) < points@.len(),
                end_pos as int == spec_scan(points@, base_ix, left@, eps as int, j as int),
            decreases left@.len() - j,
        {
            let o = orientation(points[base_ix], points[left[end_pos]], points[left[j]], eps);
            if o == Orientation::CounterClockwise {
                end_pos = j;
            }
            j += 1;
        }
        let ghost pre_left = left@;
        let ghost pre_hull = hull@;
        let ghost pre_need = need_to_reinsert_leftmost;
        let end_ix = left.remove(end_pos);
        proof {
            pre_left.remove_ensures(end_pos as int);
            assert(end_ix == pre_left[end_pos as int]);
            assert forall|i: int| 0 <= i < left@.len() implies
                pre_left.contains(#[trigger] left@[i]) by {
                if i < end_pos as int {
                    assert(left@[i] == pre_left[i]);
                } else {
                    assert(left@[i] == pre_left[i + 1]);
                }
            }
            assert forall|i: int, jj: int|
                0 <= i < left@.len() && 0 <= jj < left@.len() && i != jj implies
                left@[i] != left@[jj] by {
                let mi = if i < end_pos as int { i } else { i + 1 };
                let mj = if jj < end_pos as int { jj } else { jj + 1 };
                assert(left@[i] == pre_left[mi]);
                assert(left@[jj] == pre_left[mj]);
            }
            // the removed vertex is gone for good: it occurred once
            if left@.contains(end_ix) {
                let w = choose|w: int| 0 <= w < left@.len() && left@[w] == end_ix;
                let mw = if w < end_pos as int { w } else { w + 1 };
                assert(pre_left[mw] == pre_left[end_pos as int]);
                assert(false);
            }
        }
        hull.push(end_ix);
        proof {
            // the new vertex came out of the working set, which is
            // disjoint from the hull so far
            assert(!pre_hull.contains(end_ix)) by {
                if pre_hull.contains(end_ix) {
                    let w = choose|w: int| 0 <= w < pre_hull.len() && pre_hull[w] == end_ix;
                    assert(pre_hull[w] != pre_left[end_pos as int]);
                }
            }
            assert forall|i: int, jj: int|
                0 <= i < hull@.len() && 0 <= jj < left@.len() implies
                #[trigger] hull@[i] != #[trigger] left@[jj] by {
                assert(pre_left.contains(left@[jj]));
                if i < pre_hull.len() {
                    assert(hull@[i] == pre_hull[i]);
                    let w = choose|w: int| 0 <= w < pre_left.len() && pre_left[w] == left@[jj];
                    assert(pre_hull[i] != pre_left[w]);
                } else {
                    assert(hull@[i] == end_ix);
                }
            }
            assert(included@.contains(end_ix)) by {
                assert(pre_left.contains(end_ix));
                let w = choose|w: int| 0 <= w < pre_left.len() && pre_left[w] == end_ix;
            }
            // one unfolding of the sweep at the state this iteration
            // began in: the scan's choice and the removal both match
            lemma_spec_scan_range(points@, pre_base, pre_left, eps as int, pre_left.len() as int);
            assert(end_pos as int == spec_scan(
                points@,
                pre_base,
                pre_left,
                eps as int,
                pre_left.len() as int,
            ));
            if end_ix == start_ix {
                assert(spec_sweep(points@, pre_left, pre_base, start_ix, pre_need, pre_hull, eps as int)
                    == hull@);
            } else if pre_need {
                assert(spec_sweep(points@, pre_left, pre_base, start_ix, pre_need, pre_hull, eps as int)
                    == spec_sweep(
                    points@,
                    left@.push(start_ix),
                    end_ix,
                    start_ix,
                    false,
                    hull@,
                    eps as int,
                ));
            } else {
                assert(spec_sweep(points@, pre_left, pre_base, start_ix, pre_need, pre_hull, eps as int)
                    == spec_sweep(points@, left@, end_ix, start_ix, false, hull@, eps as int));
            }
        }
        base_ix = end_ix;
        if base_ix == start_ix {
            break;
        }
        if need_to_reinsert_leftmost {
            need_to_reinsert_leftmost = false;
            let ghost mid_left = left@;
            proof {
                // the starting vertex is in neither the working set nor
                // the hull yet, so re-admitting it keeps both invariants
                assert(!mid_left.contains(leftmost_ix)) by {
                    if mid_left.contains(leftmost_ix) {
                        let w = choose|w: int| 0 <= w < mid_left.len() && mid_left[w] == leftmost_ix;
                        assert(pre_left.contains(leftmost_ix));
                    }
                }
            }
            left.push(leftmost_ix);
            proof {
                assert(left@ == mid_left.push(start_ix));
                assert forall|i: int, jj: int|
                    0 <= i < hull@.len() && 0 <= jj < left@.len() implies
                    #[trigger] hull@[i] != #[trigger] left@[jj] by {
                    if jj < mid_left.len() {
                        assert(left@[jj] == mid_left[jj]);
                    } else {
                        assert(left@[jj] == leftmost_ix);
                        if i < pre_hull.len() {
                            assert(hull@[i] == pre_hull[i]);
                            assert(!pre_hull.contains(leftmost_ix));
                        } else {
                            assert(hull@[i] == end_ix);
                            assert(end_ix != leftmost_ix);
                        }
                    }
                }
            }
        }
    }
    proof {
        lemma_subset_no_dup_len(hull@, included@);
    }
    hull
}

/// The ray-crossing test for one polygon edge (e0 -> e1): does the edge
/// straddle the horizontal through `p` and cross it strictly to the
/// right of `p`?  The comparison is the exact form of
/// `p.x < (e1.x - e0.x) * (p.y - e0.y) / (e1.y - e0.y) + e0.x`,
/// multiplied out by the (nonzero) denominator.
pub open spec fn edge_crosses_ray(e0: Point, e1: Point, p: Point) -> bool {
    ((e0.y > p.y) != (e1.y > p.y)) && {
        let lhs = (p.x - e0.x) * (e1.y - e0.y);
        let rhs = (e1.x - e0.x) * (p.y - e0.y);
        if e1.y - e0.y > 0 {
            lhs < rhs
        } else {
            lhs > rhs
        }
    }
}

/// Index of the vertex preceding position `j` on a cycle of length `len`.
pub open spec fn prev_index(len: int, j: int) -> int {
    if j == 0 {
        len - 1
    } else {
        j - 1
    }
}

/// One flag per hull position: does the edge arriving at that position
/// cross the horizontal ray from `p`?
pub open spec fn crossing_flags(ps: Seq<Point>, hull: Seq<usize>, p: Point) -> Seq<bool> {
    Seq::new(
        hull.len(),
        |j: int|
            edge_crosses_ray(
                ps[hull[prev_index(hull.len() as int, j)] as int],
                ps[hull[j] as int],
                p,
            ),
    )
}

/// How many entries of a boolean sequence are set.
pub open spec fn count_true(s: Seq<bool>) -> nat
    decreases s.len(),
{
    if s.len() == 0 {
        0
    } else {
        count_true(s.drop_last()) + (if s.last() {
            1nat
        } else {
            0nat
        })
    }
}

/// The crossing-number containment test: `p` is inside when an odd
/// number of hull edges cross its rightward horizontal ray.
pub open spec fn spec_point_inside(ps: Seq<Point>, hull: Seq<usize>, p: Point) -> bool {
    count_true(crossing_flags(ps, hull, p)) % 2 == 1
}

proof fn lemma_count_true_concat(a: Seq<bool>, b: Seq<bool>)
    ensures
        count_true(a + b) == count_true(a) + count_true(b),
    decreases b.len(),
{
    if b.len() == 0 {
        assert(a + b =~= a);
    } else {
        assert((a + b).drop_last() =~= a + b.drop_last());
        lemma_count_true_concat(a, b.drop_last());
    }
}

/// The hull's index sequence, started `k` positions later.
pub open spec fn rotate_indices(hull: Seq<usize>, k: int) -> Seq<usize> {
    hull.subrange(k, hull.len() as int) + hull.subrange(0, k)
}

/// Containment does not depend on which vertex the hull cycle is written
/// from: rotating the index sequence leaves the crossing parity as it
/// was, because the rotated cycle has exactly the same edges.
pub proof fn lemma_point_inside_rotation(ps: Seq<Point>, hull: Seq<usize>, p: Point, k: int)
    requires
        0 <= k <= hull.len(),
    ensures
        spec_point_inside(ps, rotate_indices(hull, k), p) == spec_point_inside(ps, hull, p),
{
    let n = hull.len() as int;
    let rh = rotate_indices(hull, k);
    let f = crossing_flags(ps, hull, p);
    let g = crossing_flags(ps, rh, p);
    if k == 0 || k == n {
        assert(rh =~= hull);
        assert(g =~= f);
    } else {
        assert(rh.len() == n);
        assert forall|j: int| 0 <= j < n implies
            g[j] == (f.subrange(k, n) + f.subrange(0, k))[j] by {
            if j == 0 {
                assert(rh[j] == hull[k]);
                assert(rh[prev_index(n, 0)] == rh[n - 1]);
                assert(rh[n - 1] == hull.subrange(0, k)[n - 1 - (n - k)]);
                assert(rh[n - 1] == hull[k - 1]);
                assert(g[0] == f[k]);
            } else if j < n - k {
                assert(rh[j] == hull[j + k]);
                assert(rh[j - 1] == hull[j - 1 + k]);
                assert(g[j] == f[j + k]);
            } else if j == n - k {
                assert(rh[j] == hull[j + k - n]);
                assert(rh[j - 1] == hull[n - 1]);
                assert(g[j] == f[j + k - n]);
            } else {
                assert(rh[j] == hull[j + k - n]);
                assert(rh[j - 1] == hull[j - 1 + k - n]);
                assert(g[j] == f[j + k - n]);
            }
        }
        assert(g =~= f.subrange(k, n) + f.subrange(0, k));
        lemma_count_true_concat(f.subrange(k, n), f.subrange(0, k));
        lemma_count_true_concat(f.subrange(0, k), f.subrange(k, n));
        assert(f =~= f.subrange(0, k) + f.subrange(k, n));
    }
}

/// The horizontal-ray crossing-number test: is `p` strictly inside the
/// polygon whose vertices are `points[hull[0]], points[hull[1]], ...`?
pub fn point_inside(points: &Vec<Point>, p: &Point, hull: &Vec<usize>) -> (r: bool)
    requires
        points_in_bounds(points@),
        point_in_bounds(*p),
        hull@.len() >= 1,
        forall|i: int| 0 <= i < hull@.len() ==> (#[trigger] hull@[i]) < points@.len(),
    ensures
        r == spec_point_inside(points@, hull@, *p),
{
    let ghost flags = crossing_flags(points@, hull@, *p);
    let mut inside = false;
    let mut e0 = points[hull[hull.len() - 1]];
    let mut j: usize = 0;
    while j < hull.len()
        invariant
            0 <= j <= hull@.len(),
            hull@.len() >= 1,
            points_in_bounds(points@),
            point_in_bounds(*p),
            forall|i: int| 0 <= i < hull@.len() ==> (#[trigger] hull@[i]) < points@.len(),
            flags == crossing_flags(points@, hull@, *p),
            e0 == points@[hull@[prev_index(hull@.len() as int, j as int)] as int],
            inside == (count_true(flags.subrange(0, j as int)) % 2 == 1),
        decreases hull@.len() - j,
    {
        let e1 = points[hull[j]];
        let y0 = e0.y > p.y;
        let y1 = e1.y > p.y;
        if y0 != y1 {
            let dy = e1.y - e0.y;
            proof {
                lemma_mul_bound(
                    (p.x - e0.x) as int,
                    dy as int,
                    2 * COORD_BOUND as int,
                    2 * COORD_BOUND as int,
                );
                lemma_mul_bound(
                    (e1.x - e0.x) as int,
                    (p.y - e0.y) as int,
                    2 * COORD_BOUND as int,
                    2 * COORD_BOUND as int,
                );
            }
            let lhs = (p.x - e0.x) * dy;
            let rhs = (e1.x - e0.x) * (p.y - e0.y);
            let t2 = if dy > 0 {
                lhs < rhs
            } else {
                lhs > rhs
            };
            if t2 {
                inside = !inside;
            }
        }
        proof {
            assert(flags.subrange(0, j + 1).drop_last() =~= flags.subrange(0, j as int));
            assert(flags.subrange(0, j + 1).last() == flags[j as int]);
        }
        e0 = e1;
        j += 1;
    }
    proof {
        assert(flags.subrange(0, flags.len() as int) =~= flags);
    }
    inside
}

/// The excluded indices that the validator reports for a hull: those
/// whose point lies strictly inside while the index itself is not a hull
/// vertex, in the order the excluded list gives them.
pub open spec fn spec_violations(ps: Seq<Point>, hull: Seq<usize>, ex: Seq<usize>) -> Seq<usize>
    decreases ex.len(),
{
    if ex.len() == 0 {
        Seq::empty()
    } else {
        let rest = spec_violations(ps, hull, ex.drop_last());
        let e = ex.last();
        if spec_point_inside(ps, hull, ps[e as int]) && !hull.contains(e) {
            rest.push(e)
        } else {
            rest
        }
    }
}

/// The hull validator: runs the containment check for every excluded
/// index against the built hull and returns the offenders.  Finding one
/// is a detected topology violation; nothing here repairs the hull.
pub fn hull_violations(points: &Vec<Point>, hull: &Vec<usize>, expoints: &Vec<usize>) -> (v: Vec<
    usize,
>)
    requires
        points_in_bounds(points@),
        forall|i: int| 0 <= i < hull@.len() ==> (#[trigger] hull@[i]) < points@.len(),
        forall|i: int| 0 <= i < expoints@.len() ==> (#[trigger] expoints@[i]) < points@.len(),
        expoints@.len() > 0 ==> hull@.len() >= 1,
    ensures
        v@ == spec_violations(points@, hull@, expoints@),
{
    let mut v: Vec<usize> = Vec::new();
    let mut k: usize = 0;
    while k < expoints.len()
        invariant
            0 <= k <= expoints@.len(),
            points_in_bounds(points@),
            forall|i: int| 0 <= i < hull@.len() ==> (#[trigger] hull@[i]) < points@.len(),
            forall|i: int| 0 <= i < expoints@.len() ==> (#[trigger] expoints@[i]) < points@.len(),
            expoints@.len() > 0 ==> hull@.len() >= 1,
            v@ == spec_violations(points@, hull@, expoints@.subrange(0, k as int)),
        decreases expoints@.len() - k,
    {
        let eix = expoints[k];
        let p = points[eix];
        if point_inside(points, &p, hull) && !in_hull(eix, hull) {
            v.push(eix);
        }
        proof {
            let sub1 = expoints@.subrange(0, k + 1);
            assert(sub1.drop_last() =~= expoints@.subrange(0, k as int));
            assert(sub1.last() == expoints@[k as int]);
        }
        k += 1;
    }
    proof {
        assert(expoints@.subrange(0, expoints@.len() as int) =~= expoints@);
    }
    v
}

/// The detect-and-report step behind the `fix_hull` toggle: the
/// violations are computed (see `hull_violations` for the exact set) and
/// surfaced to the caller's diagnostics, but the hull itself comes back
/// unchanged — repairing it is an open gap, not something done here.
pub fn fix_hull(
    points: &Vec<Point>,
    inblob: &Vec<bool>,
    hull: Vec<usize>,
    inpoints: &Vec<usize>,
    expoints: &Vec<usize>,
) -> (r: Vec<usize>)
    requires
        points_in_bounds(points@),
        forall|i: int| 0 <= i < hull@.len() ==> (#[trigger] hull@[i]) < points@.len(),
        forall|i: int| 0 <= i < expoints@.len() ==> (#[trigger] expoints@[i]) < points@.len(),
        expoints@.len() > 0 ==> hull@.len() >= 1,
    ensures
        r@ == hull@,
{
    let _violations = hull_violations(points, &hull, expoints);
    hull
}

/// `m` is the squared distance from point `i` to its nearest neighbor:
/// attained by some other point, and a lower bound for every other point.
pub open spec fn is_nearest_sq(ps: Seq<Point>, i: int, m: int) -> bool {
    (exists|j: int|
        0 <= j < ps.len() && j != i && #[trigger] sqdist(ps[i], ps[j]) == m)
    && (forall|j: int|
        0 <= j < ps.len() && j != i ==> #[trigger] sqdist(ps[i], ps[j]) >= m)
}

/// The squared nearest-neighbor distance of point `i` (meaningful when
/// the array has a second point; pinned down by `lemma_nearest_sq_is`).
pub open spec fn nearest_sq(ps: Seq<Point>, i: int) -> int {
    choose|m: int| is_nearest_sq(ps, i, m)
}

/// The nearest squared distance is unique, so any witness determines it.
pub proof fn lemma_nearest_sq_is(ps: Seq<Point>, i: int, m: int)
    requires
        is_nearest_sq(ps, i, m),
    ensures
        nearest_sq(ps, i) == m,
{
    let m2 = nearest_sq(ps, i);
    assert(is_nearest_sq(ps, i, m2));
    let j1 = choose|j: int| 0 <= j < ps.len() && j != i && sqdist(ps[i], ps[j]) == m;
    let j2 = choose|j: int| 0 <= j < ps.len() && j != i && sqdist(ps[i], ps[j]) == m2;
    assert(sqdist(ps[i], ps[j1]) >= m2);
    assert(sqdist(ps[i], ps[j2]) >= m);
}

/// Largest value the nearest-neighbor engine can hand back: the integer
/// square root of the largest representable squared distance.
pub const NEAREST_BOUND: i64 = 1_979_898_987;

/// The all-pairs nearest-neighbor pass: for each point, the integer
/// square root of the squared distance to its nearest neighbor.  A
/// single isolated point has no nearest neighbor, which is reported as
/// an error rather than smuggled through as an infinity.
pub fn compute_nearest_distances(points: &Vec<Point>) -> (r: Result<Vec<i64>, BlobError>)
    requires
        points_in_bounds(points@),
    ensures
        (r is Err) <==> points@.len() == 1,
        r matches Err(e) ==> e is DegenerateInput,
        r matches Ok(d) ==> {
            &&& d@.len() == points@.len()
            &&& forall|i: int|
                0 <= i < d@.len() ==> is_nearest_sq(points@, i, nearest_sq(points@, i))
            &&& forall|i: int|
                0 <= i < d@.len() ==> (#[trigger] d@[i]) == spec_isqrt(nearest_sq(points@, i))
            &&& forall|i: int| 0 <= i < d@.len() ==> 0 <= (#[trigger] d@[i]) <= NEAREST_BOUND
        },
{
    let n = points.len();
    if n == 1 {
        return Err(BlobError::DegenerateInput);
    }
    let mut out: Vec<i64> = Vec::new();
    let mut i: usize = 0;
    while i < n
        invariant
            n == points@.len(),
            n != 1,
            points_in_bounds(points@),
            0 <= i <= n,
            out@.len() == i,
            forall|q: int| 0 <= q < i ==> is_nearest_sq(points@, q, nearest_sq(points@, q)),
            forall|q: int| 0 <= q < i ==> (#[trigger] out@[q]) == spec_isqrt(nearest_sq(points@, q)),
            forall|q: int| 0 <= q < i ==> 0 <= (#[trigger] out@[q]) <= NEAREST_BOUND,
        decreases n - i,
    {
        let pi = points[i];
        let mut best: i64 = i64::MAX;
        let mut j: usize = 0;
        while j < n
            invariant
                0 <= j <= n,
                i < n,
                n == points@.len(),
                points_in_bounds(points@),
                pi == points@[i as int],
                forall|q: int|
                    0 <= q < j && q != i as int
                        ==> #[trigger] sqdist(points@[i as int], points@[q]) >= best,
                (exists|q: int|
                    0 <= q < j && q != i as int
                        && #[trigger] sqdist(points@[i as int], points@[q]) == best)
                    || (best == i64::MAX && (j == 0 || (j == 1 && i == 0))),
            decreases n - j,
        {
            if j != i {
                let d2 = sqdist_exec(pi, points[j]);
                best = partial_min(best, d2);
            }
            j += 1;
        }
        proof {
            // with a second point present, the sweep met a real neighbor
            let w: int = if i == 0 { 1 } else { 0 };
            assert(0 <= w < n && w != i as int);
            assert(sqdist(points@[i as int], points@[w]) <= SQDIST_BOUND as int) by {
                lemma_sqdist_bounds(points@[i as int], points@[w]);
            }
            assert(is_nearest_sq(points@, i as int, best as int));
            lemma_nearest_sq_is(points@, i as int, best as int);
            let qa = choose|q: int|
                0 <= q < n && q != i as int && #[trigger] sqdist(points@[i as int], points@[q])
                    == best;
            lemma_sqdist_bounds(points@[i as int], points@[qa]);
            assert(0 <= best <= SQDIST_BOUND);
        }
        let r = isqrt(best);
        proof {
            assert(1_979_898_988int * 1_979_898_988int > SQDIST_BOUND as int);
            assert(r <= NEAREST_BOUND) by (nonlinear_arith)
                requires
                    r >= 0,
                    r * r <= best,
                    best <= SQDIST_BOUND,
                    1_979_898_988int * 1_979_898_988int > SQDIST_BOUND as int,
                    NEAREST_BOUND == 1_979_898_987i64;
        }
        out.push(r);
        i += 1;
    }
    Ok(out)
}

/// The radius attached to point `i`: its nearest-neighbor distance
/// divided by the configured factor `num / den` (computed as
/// `isqrt(nearest squared distance) * den / num`, rounding down).
pub open spec fn spec_radius(ps: Seq<Point>, i: int, factor: Ratio) -> int {
    spec_isqrt(nearest_sq(ps, i)) * (factor.den as int) / (factor.num as int)
}

/// The main workhorse: builds the hull over the included indices, runs
/// the (diagnostic-only) hull validation when asked to, and derives one
/// radius per point from the nearest-neighbor distances.
///
/// The hull component is exactly `spec_giftwrap`, whatever the three
/// toggles say: `refine_poly` and `rm_crossing` are accepted but inert,
/// and `fix_hull` only diagnoses, never edits.  The error is exactly
/// the radius engine's: a one-point array has no nearest-neighbor
/// distance.
pub fn find_hull(
    config: &Config,
    points: &Vec<Point>,
    inblob: &Vec<bool>,
    inpoints: &Vec<usize>,
    expoints: &Vec<usize>,
    eps: i64,
) -> (r: Result<(Vec<usize>, Vec<i64>), BlobError>)
    requires
        points_in_bounds(points@),
        eps >= 0,
        forall|i: int| 0 <= i < inpoints@.len() ==> (#[trigger] inpoints@[i]) < points@.len(),
        inpoints@.no_duplicates(),
        forall|i: int| 0 <= i < expoints@.len() ==> (#[trigger] expoints@[i]) < points@.len(),
        ratio_valid(config.b2.mindist_radius_factor),
        config.run.fix_hull && expoints@.len() > 0 ==> inpoints@.len() > 0,
    ensures
        (r is Err) <==> points@.len() == 1,
        r matches Err(e) ==> e is DegenerateInput,
        r matches Ok(hr) ==> {
            &&& hr.0@ == spec_giftwrap(points@, inpoints@, eps as int)
            &&& forall|i: int|
                0 <= i < hr.0@.len() ==> inpoints@.contains(#[trigger] hr.0@[i])
            &&& hr.0@.no_duplicates()
            &&& hr.0@.len() <= inpoints@.len()
            &&& forall|i: int| 0 <= i < hr.0@.len() ==> (#[trigger] hr.0@[i]) < points@.len()
            &&& inpoints@.len() <= 2 ==> hr.0@ == inpoints@
            &&& inpoints@.len() > 2 ==> hr.0@.len() >= 1
            &&& hr.1@.len() == points@.len()
            &&& forall|i: int|
                0 <= i < points@.len() ==> is_nearest_sq(points@, i, nearest_sq(points@, i))
            &&& forall|i: int|
                0 <= i < points@.len()
                    ==> (#[trigger] hr.1@[i])
                        == spec_radius(points@, i, config.b2.mindist_radius_factor)
            &&& forall|i: int| 0 <= i < points@.len() ==> 0 <= (#[trigger] hr.1@[i])
        },
{
    let mut hull = giftwrap(points, inpoints, eps);

    if config.run.fix_hull {
        hull = fix_hull(points, inblob, hull, inpoints, expoints);
    }
    if config.run.refine_poly {
        // accepted but inert: no refinement pass exists
    }
    if config.run.rm_crossing {
        // accepted but inert: no crossing-removal pass exists
    }

    let dist = match compute_nearest_distances(points) {
        Ok(d) => d,
        Err(e) => {
            return Err(e);
        },
    };
    let num = config.b2.mindist_radius_factor.num;
    let den = config.b2.mindist_radius_factor.den;
    let mut radii: Vec<i64> = Vec::new();
    let mut k: usize = 0;
    while k < dist.len()
        invariant
            0 <= k <= dist@.len(),
            dist@.len() == points@.len(),
            1 <= num,
            1 <= den <= 1_000_000,
            num == config.b2.mindist_radius_factor.num,
            den == config.b2.mindist_radius_factor.den,
            forall|i: int|
                0 <= i < dist@.len() ==> (#[trigger] dist@[i]) == spec_isqrt(nearest_sq(points@, i)),
            forall|i: int| 0 <= i < dist@.len() ==> 0 <= (#[trigger] dist@[i]) <= NEAREST_BOUND,
            radii@.len() == k,
            forall|i: int|
                0 <= i < k
                    ==> (#[trigger] radii@[i])
                        == spec_radius(points@, i, config.b2.mindist_radius_factor),
            forall|i: int| 0 <= i < k ==> 0 <= (#[trigger] radii@[i]),
        decreases dist@.len() - k,
    {
        let d = dist[k];
        proof {
            lemma_mul_bound(d as int, den as int, NEAREST_BOUND as int, 1_000_000);
        }
        let scaled = d * den;
        let rad = scaled / num;
        radii.push(rad);
        k += 1;
    }
    Ok((hull, radii))
}

/// The point array of a regular grid: `w` columns and `h` rows at
/// spacing `s`, index `i` sitting in column `i % w` and row `i / w`.
pub open spec fn grid_points(w: int, h: int, s: int) -> Seq<Point> {
    Seq::new(
        (w * h) as nat,
        |i: int| Point { x: ((i % w) * s) as i64, y: ((i / w) * s) as i64 },
    )
}

/// The square root of a perfect square.
pub proof fn lemma_isqrt_square(s: int)
    requires
        s >= 0,
    ensures
        spec_isqrt(s * s) == s,
{
    assert(0 <= s * s && s * s < (s + 1) * (s + 1)) by (nonlinear_arith)
        requires s >= 0;
    lemma_isqrt_unique(s * s, s);
}

/// On a regular grid with at least two columns, every point's nearest
/// neighbor sits one grid step away: the nearest squared distance is
/// exactly the squared spacing.
pub proof fn lemma_grid_nearest(w: int, h: int, s: int, i: int)
    requires
        2 <= w,
        1 <= h,
        1 <= s,
        w * s <= COORD_BOUND as int,
        h * s <= COORD_BOUND as int,
        0 <= i < w * h,
    ensures
        is_nearest_sq(grid_points(w, h, s), i, s * s),
        nearest_sq(grid_points(w, h, s), i) == s * s,
{
    let g = grid_points(w, h, s);
    let ci = i % w;
    let ri = i / w;
    vstd::arithmetic::div_mod::lemma_fundamental_div_mod(i, w);
    vstd::arithmetic::div_mod::lemma_mod_bound(i, w);
    assert(0 <= ri < h) by (nonlinear_arith)
        requires i == w * ri + ci, 0 <= ci < w, 0 <= i < w * h, w >= 2;

    // every grid coordinate is in range, and the stored i64 values are
    // the exact column and row offsets
    assert forall|j: int| 0 <= j < w * h implies
        (#[trigger] g[j]).x == (j % w) * s && g[j].y == (j / w) * s by {
        vstd::arithmetic::div_mod::lemma_mod_bound(j, w);
        vstd::arithmetic::div_mod::lemma_fundamental_div_mod(j, w);
        assert(0 <= j / w < h) by (nonlinear_arith)
            requires j == w * (j / w) + (j % w), 0 <= j % w < w, 0 <= j < w * h, w >= 2;
        assert(0 <= (j % w) * s <= COORD_BOUND as int) by (nonlinear_arith)
            requires 0 <= j % w < w, 1 <= s, w * s <= COORD_BOUND as int;
        assert(0 <= (j / w) * s <= COORD_BOUND as int) by (nonlinear_arith)
            requires 0 <= j / w < h, 1 <= s, h * s <= COORD_BOUND as int;
    }

    // a neighbor in the same row, one column over, sits at distance s
    let j = if ci < w - 1 { i + 1 } else { i - 1 };
    if ci < w - 1 {
        vstd::arithmetic::div_mod::lemma_fundamental_div_mod_converse(j, w, ri, ci + 1);
        assert(j < w * h) by (nonlinear_arith)
            requires j == w * ri + ci + 1, ci + 1 < w, ri < h, w >= 2;
    } else {
        vstd::arithmetic::div_mod::lemma_fundamental_div_mod_converse(j, w, ri, ci - 1);
    }
    assert(0 <= j < w * h);
    assert(j != i);
    assert(sqdist(g[i], g[j]) == s * s) by (nonlinear_arith)
        requires
            g[i].x == ci * s,
            g[i].y == ri * s,
            (ci < w - 1 ==> g[j].x == (ci + 1) * s && g[j].y == ri * s),
            (!(ci < w - 1) ==> g[j].x == (ci - 1) * s && g[j].y == ri * s),
            sqdist(g[i], g[j]) == (g[i].x - g[j].x) * (g[i].x - g[j].x) + (g[i].y - g[j].y) * (
            g[i].y - g[j].y);

    // no other grid point comes closer than one spacing
    assert forall|q: int| 0 <= q < g.len() && q != i implies
        #[trigger] sqdist(g[i], g[q]) >= s * s by {
        let cq = q % w;
        let rq = q / w;
        vstd::arithmetic::div_mod::lemma_mod_bound(q, w);
        vstd::arithmetic::div_mod::lemma_fundamental_div_mod(q, w);
        assert(cq != ci || rq != ri) by (nonlinear_arith)
            requires i == w * ri + ci, q == w * rq + cq, i != q;
        assert(sqdist(g[i], g[q]) >= s * s) by (nonlinear_arith)
            requires
                g[i].x == ci * s,
                g[i].y == ri * s,
                g[q].x == cq * s,
                g[q].y == rq * s,
                cq != ci || rq != ri,
                s >= 1,
                sqdist(g[i], g[q]) == (g[i].x - g[q].x) * (g[i].x - g[q].x) + (g[i].y - g[q].y)
                    * (g[i].y - g[q].y);
    }

    assert(is_nearest_sq(g, i, s * s));
    lemma_nearest_sq_is(g, i, s * s);
}

/// The radius law for a regular grid: every point of a grid with
/// spacing `s` gets the radius `s` divided by the configured factor.
pub proof fn lemma_grid_radius(w: int, h: int, s: int, i: int, factor: Ratio)
    requires
        2 <= w,
        1 <= h,
        1 <= s,
        w * s <= COORD_BOUND as int,
        h * s <= COORD_BOUND as int,
        0 <= i < w * h,
        ratio_valid(factor),
    ensures
        spec_radius(grid_points(w, h, s), i, factor) == s * (factor.den as int) / (
        factor.num as int),
{
    lemma_grid_nearest(w, h, s, i);
    lemma_isqrt_square(s);
}

} // verus!
