use vstd::prelude::*;

verus! {

/// Coordinates are fixed-point integers: the caller picks a scale (for
/// example 1000 units per world unit) and hands every coordinate in as an
/// `i64` at that scale.  All geometry below is exact integer arithmetic,
/// so every clause in a contract is a statement about the real computation.
///
/// `COORD_BOUND` limits the magnitude of a coordinate so that a cross
/// product of two coordinate differences fits comfortably in an `i64`.
pub const COORD_BOUND: i64 = 700_000_000;

/// Upper bound on a per-point radius the tangent geometry accepts.
/// The raw nearest-neighbor distances stay below it (the diameter of
/// the coordinate box does), but dividing by a factor smaller than one
/// can scale a radius past it; a caller that configures such a factor
/// must check the radii against this bound before asking for tangents,
/// as the launcher does.
pub const RADIUS_BOUND: i64 = 2_000_000_000;

/// A point of the canonical point array.
#[derive(Clone, Copy, Debug, PartialEq, Eq, Structural)]
pub struct Point {
    pub x: i64,
    pub y: i64,
}

impl Point {
    pub fn new(x: i64, y: i64) -> (p: Point)
        ensures
            p.x == x,
            p.y == y,
    {
        Point { x, y }
    }
}

/// A direction in the plane, at the same fixed-point scale.  A `Vector`
/// standing for an angle means the angle `atan2(y, x)`; scaling a vector
/// by a positive factor does not change the angle it stands for.
#[derive(Clone, Copy, Debug, PartialEq, Eq, Structural)]
pub struct Vector {
    pub x: i64,
    pub y: i64,
}

impl Vector {
    pub fn new(x: i64, y: i64) -> (v: Vector)
        ensures
            v.x == x,
            v.y == y,
    {
        Vector { x, y }
    }
}

/// Does a point lie within the coordinate range the kernel accepts?
pub open spec fn point_in_bounds(p: Point) -> bool {
    -COORD_BOUND <= p.x <= COORD_BOUND && -COORD_BOUND <= p.y <= COORD_BOUND
}

/// All points of an array lie within range.
pub open spec fn points_in_bounds(ps: Seq<Point>) -> bool {
    forall|i: int| 0 <= i < ps.len() ==> point_in_bounds(#[trigger] ps[i])
}

/// The kernel's error taxonomy.
///
/// - `DegenerateInput`: geometry that cannot proceed, such as a radius
///   request for a single isolated point, which has no nearest neighbor.
/// - `Domain { a, b }`: the tangent computation for the hull edge from
///   point index `a` to point index `b` was asked for circles that are
///   incompatible with the edge length (`|delta| > 1`); the computation
///   fails loudly instead of producing a meaningless direction.
#[derive(Clone, Copy, Debug, PartialEq, Eq, Structural)]
pub enum BlobError {
    DegenerateInput,
    Domain { a: usize, b: usize },
}

/// Is `c` one of the characters `0`-`9`, `a`-`f`, `A`-`F`?
pub open spec fn is_hex_digit(c: char) -> bool {
    ('0' as int <= c as int <= '9' as int)
    || ('a' as int <= c as int <= 'f' as int)
    || ('A' as int <= c as int <= 'F' as int)
}

/// Numeric value of a hex digit (meaningful only for hex digits).
pub open spec fn hex_val(c: char) -> int {
    if '0' as int <= c as int <= '9' as int {
        c as int - '0' as int
    } else if 'a' as int <= c as int <= 'f' as int {
        c as int - 'a' as int + 10
    } else {
        c as int - 'A' as int + 10
    }
}

/// Relies on `rustc_serialize::hex::FromHex` for `str`: when the input
/// consists solely of hex digits, in even number, decoding succeeds and
/// each pair of digits becomes one byte, most significant digit first.
#[verifier::external_body]
fn hex_decode(s: &str) -> (r: Option<Vec<u8>>)
    ensures
        (s@.len() % 2 == 0 && forall|i: int| 0 <= i < s@.len() ==> is_hex_digit(#[trigger] s@[i]))
            ==> (r matches Some(b)
                && b@.len() == s@.len() / 2
                && forall|k: int| 0 <= k < b@.len()
                    ==> b@[k] == 16 * hex_val(s@[2 * k]) + hex_val(s@[2 * k + 1])),
{
    rustc_serialize::hex::FromHex::from_hex(s).ok()
}

/// A color as three 8-bit channels.  The rendering collaborator divides
/// each channel by 255 to obtain its unit-interval intensities.
#[derive(Clone, Copy, Debug, PartialEq, Eq, Structural)]
pub struct Color {
    pub r: u8,
    pub g: u8,
    pub b: u8,
}

impl Color {
    pub fn new(r: u8, g: u8, b: u8) -> (c: Color)
        ensures
            c.r == r,
            c.g == g,
            c.b == b,
    {
        Color { r, g, b }
    }

    /// Decode a six-digit hex color code into its three channels.
    pub fn from_hex(hex: &str) -> (c: Color)
        requires
            hex@.len() == 6,
            forall|i: int| 0 <= i < 6 ==> is_hex_digit(#[trigger] hex@[i]),
        ensures
            c.r == 16 * hex_val(hex@[0]) + hex_val(hex@[1]),
            c.g == 16 * hex_val(hex@[2]) + hex_val(hex@[3]),
            c.b == 16 * hex_val(hex@[4]) + hex_val(hex@[5]),
    {
        let digits = hex_decode(hex).unwrap();
        Color::new(digits[0], digits[1], digits[2])
    }
}

/// A point together with its radius and membership flag.
pub struct SPoint {
    p: Point,
    radius: i64,
    in_blob: bool,
}

impl SPoint {
    #[allow(dead_code)]
    fn new(p: Point, r: i64, inb: bool) -> (s: SPoint)
        ensures
            s.p == p,
            s.radius == r,
            s.in_blob == inb,
    {
        SPoint { p, radius: r, in_blob: inb }
    }
}

} // verus!
