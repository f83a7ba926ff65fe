use vstd::prelude::*;

use crate::blob::{isqrt, lemma_mul_bound, spec_isqrt, sqdist, sqdist_exec, SQDIST_BOUND};
use crate::types::{point_in_bounds, Point, Vector, RADIUS_BOUND};

verus! {

/// The numerator of the tangent offset `delta = num / d`: the radius
/// difference for the external tangent (both endpoints bulge or both
/// notch) and the radius sum for the internal tangent (mixed flags).
pub open spec fn tangent_num(a_r: int, b_r: int, a_inblob: bool, b_inblob: bool) -> int {
    if a_inblob == b_inblob {
        a_r - b_r
    } else {
        a_r + b_r
    }
}

/// The domain contract of the tangent construction: the endpoints are
/// distinct and `|delta| <= 1`, i.e. `num^2 <= d^2`.  Outside of it the
/// osculating circles are incompatible with the edge length and the
/// computation must fail rather than produce a meaningless direction.
pub open spec fn tangent_ok(
    a: Point,
    b: Point,
    a_r: int,
    b_r: int,
    a_inblob: bool,
    b_inblob: bool,
) -> bool {
    let d2 = sqdist(a, b);
    let num = tangent_num(a_r, b_r, a_inblob, b_inblob);
    d2 > 0 && num * num <= d2
}

/// The outward normal at the tangent point, as an (unnormalized)
/// direction vector: the edge direction u = (b - a) rotated
/// counterclockwise by `y = arccos(num / d)`, everything scaled by the
/// positive factor `d^2` so that it stays an exact integer vector.
/// With `w = isqrt(d^2 - num^2)` (the floor of `d * sin y`, exact
/// whenever `d^2 - num^2` is a perfect square) the rotation comes out
/// componentwise; on a notch-to-bulge edge (`!a_inblob && b_inblob`)
/// the angle is corrected to `pi - y`, which negates the cosine part.
pub open spec fn spec_smooth_line_normal(
    a: Point,
    b: Point,
    a_r: int,
    b_r: int,
    a_inblob: bool,
    b_inblob: bool,
) -> Vector {
    let dx = b.x - a.x;
    let dy = b.y - a.y;
    let num = tangent_num(a_r, b_r, a_inblob, b_inblob);
    let w = spec_isqrt(sqdist(a, b) - num * num);
    if !a_inblob && b_inblob {
        Vector { x: (-dx * num - dy * w) as i64, y: (dx * w - dy * num) as i64 }
    } else {
        Vector { x: (dx * num - dy * w) as i64, y: (dx * w + dy * num) as i64 }
    }
}

/// The tangent direction for one oriented edge (a -> b) with endpoint
/// radii and membership flags.  `None` exactly when the domain contract
/// is violated; `Some` carries the exact direction vector stated above.
pub fn smooth_line_normal(
    a: &Point,
    a_r: i64,
    a_inblob: bool,
    b: &Point,
    b_r: i64,
    b_inblob: bool,
) -> (r: Option<Vector>)
    requires
        point_in_bounds(*a),
        point_in_bounds(*b),
        0 <= a_r <= RADIUS_BOUND,
        0 <= b_r <= RADIUS_BOUND,
    ensures
        (r is Some) <==> tangent_ok(*a, *b, a_r as int, b_r as int, a_inblob, b_inblob),
        r matches Some(n) ==> {
            &&& n == spec_smooth_line_normal(*a, *b, a_r as int, b_r as int, a_inblob, b_inblob)
            &&& -(2 * SQDIST_BOUND as int) <= n.x <= 2 * SQDIST_BOUND as int
            &&& -(2 * SQDIST_BOUND as int) <= n.y <= 2 * SQDIST_BOUND as int
        },
{
    let dx = b.x - a.x;
    let dy = b.y - a.y;
    let d2 = sqdist_exec(*a, *b);
    let num: i64 = if a_inblob == b_inblob {
        a_r - b_r
    } else {
        a_r + b_r
    };
    proof {
        lemma_mul_bound(num as int, num as int, 2 * RADIUS_BOUND as int, 2 * RADIUS_BOUND as int);
    }
    let num2: i128 = (num as i128) * (num as i128);
    if d2 <= 0 || num2 > (d2 as i128) {
        return None;
    }
    proof {
        assert(0 <= num2 as int) by (nonlinear_arith)
            requires num2 as int == (num as int) * (num as int);
    }
    let n2: i64 = num2 as i64;
    let w: i64 = isqrt(d2 - n2);
    proof {
        assert(1_979_898_988int * 1_979_898_988int > SQDIST_BOUND as int);
        assert(-1_979_898_988 <= num <= 1_979_898_988) by (nonlinear_arith)
            requires
                num * num <= SQDIST_BOUND,
                1_979_898_988int * 1_979_898_988int > SQDIST_BOUND as int;
        assert(0 <= w <= 1_979_898_988) by (nonlinear_arith)
            requires
                w >= 0,
                w * w <= SQDIST_BOUND,
                1_979_898_988int * 1_979_898_988int > SQDIST_BOUND as int;
        lemma_mul_bound(dx as int, num as int, 1_400_000_000, 1_979_898_988);
        lemma_mul_bound(dy as int, w as int, 1_400_000_000, 1_979_898_988);
        lemma_mul_bound(dx as int, w as int, 1_400_000_000, 1_979_898_988);
        lemma_mul_bound(dy as int, num as int, 1_400_000_000, 1_979_898_988);
    }
    let x128: i128;
    let y128: i128;
    if !a_inblob && b_inblob {
        x128 = -((dx as i128) * (num as i128)) - (dy as i128) * (w as i128);
        y128 = (dx as i128) * (w as i128) - (dy as i128) * (num as i128);
    } else {
        x128 = (dx as i128) * (num as i128) - (dy as i128) * (w as i128);
        y128 = (dx as i128) * (w as i128) + (dy as i128) * (num as i128);
    }
    proof {
        // each component is a sum of two bounded products, well inside
        // the i64 range
        assert(-(2 * SQDIST_BOUND as int) <= x128 <= 2 * SQDIST_BOUND as int);
        assert(-(2 * SQDIST_BOUND as int) <= y128 <= 2 * SQDIST_BOUND as int);
    }
    let x = x128 as i64;
    let y = y128 as i64;
    proof {
        // the spec writes the corrected x component as (-dx) * num
        assert((-(dx as int)) * (num as int) == -((dx as int) * (num as int)))
            by (nonlinear_arith);
        assert(w as int == spec_isqrt(sqdist(*a, *b) - (num as int) * (num as int)));
    }
    Some(Vector::new(x, y))
}

/// The pair of tangent directions an edge contributes: the departure
/// direction at `a` and the arrival direction at `b`.  With equal
/// membership flags the tangent is external and both are the same
/// direction; with mixed flags the tangent line crosses between the
/// circles and the arrival direction is the opposite one (the angle
/// shifted by half a turn).
pub open spec fn spec_smooth_line_dirs(
    a: Point,
    b: Point,
    a_r: int,
    b_r: int,
    a_inblob: bool,
    b_inblob: bool,
) -> (Vector, Vector) {
    let n = spec_smooth_line_normal(a, b, a_r, b_r, a_inblob, b_inblob);
    if a_inblob == b_inblob {
        (n, n)
    } else {
        (n, Vector { x: (-(n.x as int)) as i64, y: (-(n.y as int)) as i64 })
    }
}

/// The two tangent directions of the edge (a -> b), or `None` exactly
/// on a domain violation.
pub fn smooth_line_angle(
    a: &Point,
    a_r: i64,
    a_inblob: bool,
    b: &Point,
    b_r: i64,
    b_inblob: bool,
) -> (r: Option<(Vector, Vector)>)
    requires
        point_in_bounds(*a),
        point_in_bounds(*b),
        0 <= a_r <= RADIUS_BOUND,
        0 <= b_r <= RADIUS_BOUND,
    ensures
        (r is Some) <==> tangent_ok(*a, *b, a_r as int, b_r as int, a_inblob, b_inblob),
        r matches Some(t) ==> t == spec_smooth_line_dirs(
            *a,
            *b,
            a_r as int,
            b_r as int,
            a_inblob,
            b_inblob,
        ),
{
    let n = match smooth_line_normal(a, a_r, a_inblob, b, b_r, b_inblob) {
        Some(n) => n,
        None => {
            return None;
        },
    };
    if a_inblob == b_inblob {
        Some((n, n))
    } else {
        Some((n, Vector::new(-n.x, -n.y)))
    }
}

/// Angles are carried in exact integer units of a millionth of a
/// degree, so a full turn is 360 million units.
pub const TURN: i64 = 360_000_000;

/// Normalize an angle into [0, TURN): the canonical representative of
/// its class modulo a full turn.
pub fn normalize_angle(a: i64) -> (r: i64)
    ensures
        r == a as int % (TURN as int),
        0 <= r < TURN,
{
    let mut x = a;
    while x < 0
        invariant
            x as int % (TURN as int) == a as int % (TURN as int),
        decreases (if x < 0 { -(x as int) } else { 0int }),
    {
        proof {
            vstd::arithmetic::div_mod::lemma_mod_multiples_vanish(1, x as int, TURN as int);
        }
        x = x + TURN;
    }
    while x >= TURN
        invariant
            x >= 0,
            x as int % (TURN as int) == a as int % (TURN as int),
        decreases x,
    {
        proof {
            vstd::arithmetic::div_mod::lemma_mod_multiples_vanish(1, (x - TURN) as int, TURN as int);
        }
        x = x - TURN;
    }
    proof {
        vstd::arithmetic::div_mod::lemma_small_mod(x as nat, TURN as nat);
    }
    x
}

/// The path's string form, when it is pure ASCII; `None` otherwise.
pub fn ascii_path_to_string(path: &str) -> (r: Option<&str>)
    ensures
        (r is Some) <==> path.is_ascii(),
        r matches Some(s) ==> s@ == path@,
{
    if path.is_ascii() {
        Some(path)
    } else {
        None
    }
}

} // verus!
