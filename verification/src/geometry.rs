//! Geometry engine: perspective-rectification targets from four-point
//! correspondences.
//!
//! A candidate barcode region is an ordered quadrilateral in the source
//! raster's coordinate space (top-left, top-right, bottom-right,
//! bottom-left).  The engine measures the region's edges, derives the
//! axis-aligned target rectangle that the region should be mapped onto,
//! applies an optional margin-expansion policy about the region's centre,
//! and decides whether the rectified crop must be rotated a quarter turn
//! before decoding.
//!
//! Coordinates are integer raster positions.  Corners may lie outside
//! the image (resampling fills such positions with black), but every
//! accepted coordinate, before and after expansion, must stay within
//! `[-COORD_LIMIT, COORD_LIMIT]` so that the downstream resampling
//! arithmetic cannot overflow.

use vstd::arithmetic::div_mod::{lemma_fundamental_div_mod, lemma_fundamental_div_mod_converse};
use vstd::prelude::*;

use crate::error::{Exception, CODE_GEOMETRY};

verus! {

/// Largest coordinate magnitude the geometry engine works with.
pub const COORD_LIMIT: i64 = 16384;

/// A raster coordinate.
#[derive(Clone, Copy, Debug, PartialEq, Eq, Structural)]
pub struct Point {
    pub x: i64,
    pub y: i64,
}

impl Point {
    /// Builds a point from its coordinates.
    pub fn new(x: i64, y: i64) -> (p: Point)
        ensures
            p.x == x,
            p.y == y,
    {
        Point { x, y }
    }

    /// The point is within the space that resampling accepts.
    pub open spec fn in_warp_range(self) -> bool {
        -COORD_LIMIT <= self.x <= COORD_LIMIT && -COORD_LIMIT <= self.y <= COORD_LIMIT
    }
}

/// One candidate barcode boundary: exactly four ordered corners, consumed
/// as top-left, top-right, bottom-right, bottom-left.
#[derive(Clone, Copy, Debug, PartialEq, Eq, Structural)]
pub struct Quadrilateral {
    pub p0: Point,
    pub p1: Point,
    pub p2: Point,
    pub p3: Point,
}

impl Quadrilateral {
    /// Builds a quadrilateral from its four ordered corners.
    pub fn new(p0: Point, p1: Point, p2: Point, p3: Point) -> (q: Quadrilateral)
        ensures
            q.p0 == p0,
            q.p1 == p1,
            q.p2 == p2,
            q.p3 == p3,
    {
        Quadrilateral { p0, p1, p2, p3 }
    }

    /// All corners lie within the space that resampling accepts.
    pub open spec fn in_warp_range(self) -> bool {
        self.p0.in_warp_range() && self.p1.in_warp_range() && self.p2.in_warp_range()
            && self.p3.in_warp_range()
    }

    /// The corners as a sequence, in order.
    pub open spec fn corners(self) -> Seq<Point> {
        seq![self.p0, self.p1, self.p2, self.p3]
    }
}

/// How much margin to add around a candidate before rectifying it.
#[derive(Clone, Copy, Debug, PartialEq, Eq, Structural)]
pub enum ExpansionPolicy {
    /// Use the quadrilateral exactly as detected.
    AsIs,
    /// Move every corner away from the centre by the given integer factor:
    /// each corner becomes `centre + (corner - centre) * factor`.
    ScaleFromCentroid(u32),
}

/// The square of `n`.
pub open spec fn sq(n: int) -> int {
    n * n
}

/// Squared Euclidean distance between two points.
pub open spec fn dist_sq(p: Point, q: Point) -> int {
    sq(p.x - q.x) + sq(p.y - q.y)
}

/// The larger of two integers.
pub open spec fn spec_max(a: int, b: int) -> int {
    if a >= b {
        a
    } else {
        b
    }
}

/// `r` is the integer square root of `n`: the largest integer whose
/// square does not exceed `n`.
pub open spec fn is_isqrt(n: int, r: int) -> bool {
    0 <= r && r * r <= n && n < (r + 1) * (r + 1)
}

/// The integer square root of `n`.
pub open spec fn spec_isqrt(n: int) -> int {
    choose|r: int| is_isqrt(n, r)
}

/// At most one integer is the integer square root of `n`.
pub proof fn lemma_isqrt_unique(n: int, r1: int, r2: int)
    by (nonlinear_arith)
    requires
        is_isqrt(n, r1),
        is_isqrt(n, r2),
    ensures
        r1 == r2,
{
}

/// A witness for `is_isqrt` is the integer square root.
pub proof fn lemma_isqrt_of(n: int, r: int)
    requires
        is_isqrt(n, r),
    ensures
        spec_isqrt(n) == r,
{
    assert(exists|k: int| is_isqrt(n, k));
    assert(is_isqrt(n, spec_isqrt(n)));
    lemma_isqrt_unique(n, spec_isqrt(n), r);
}

/// The centre a candidate is expanded about: the centroid of the four
/// corners, each coordinate rounded down.
pub open spec fn spec_centroid(q: Quadrilateral) -> Point {
    Point {
        x: ((q.p0.x + q.p1.x + q.p2.x + q.p3.x) / 4) as i64,
        y: ((q.p0.y + q.p1.y + q.p2.y + q.p3.y) / 4) as i64,
    }
}

/// One corner moved away from the centre by an integer factor.
pub open spec fn spec_expand_point(c: Point, p: Point, k: int) -> Point {
    Point {
        x: (c.x + k * (p.x - c.x)) as i64,
        y: (c.y + k * (p.y - c.y)) as i64,
    }
}

/// The quadrilateral after applying an expansion policy.
pub open spec fn spec_expanded(q: Quadrilateral, e: ExpansionPolicy) -> Quadrilateral {
    match e {
        ExpansionPolicy::AsIs => q,
        ExpansionPolicy::ScaleFromCentroid(k) => {
            let c = spec_centroid(q);
            Quadrilateral {
                p0: spec_expand_point(c, q.p0, k as int),
                p1: spec_expand_point(c, q.p1, k as int),
                p2: spec_expand_point(c, q.p2, k as int),
                p3: spec_expand_point(c, q.p3, k as int),
            }
        },
    }
}

/// Squared length of the longer of the two horizontal-ish edges.
pub open spec fn spec_width_sq(q: Quadrilateral) -> int {
    spec_max(dist_sq(q.p0, q.p1), dist_sq(q.p3, q.p2))
}

/// Squared length of the longer of the two vertical-ish edges.
pub open spec fn spec_height_sq(q: Quadrilateral) -> int {
    spec_max(dist_sq(q.p0, q.p3), dist_sq(q.p1, q.p2))
}

/// The determinant that decides whether the four correspondences admit a
/// projective transform: the cross product of the two edges meeting at
/// the third corner.  Zero exactly when those edges are parallel, which
/// happens only for degenerate quadrilaterals.
pub open spec fn spec_delta(q: Quadrilateral) -> int {
    (q.p1.x - q.p2.x) * (q.p3.y - q.p2.y) - (q.p3.x - q.p2.x) * (q.p1.y - q.p2.y)
}

/// The quadrilateral and policy admit a rectification: the corners lie
/// in the resampling space before and after expansion, no measured side
/// collapses to zero, and the transform is solvable.
pub open spec fn rectification_ok(q: Quadrilateral, e: ExpansionPolicy) -> bool {
    let ex = spec_expanded(q, e);
    q.in_warp_range() && ex.in_warp_range() && spec_delta(ex) != 0 && spec_width_sq(ex) > 0
        && spec_height_sq(ex) > 0
}

/// A rectification target: the (possibly expanded) source quadrilateral,
/// the dimensions of the upright rectangle it maps onto, and whether the
/// rectified crop must be rotated a quarter turn before decoding.
#[derive(Clone, Copy, Debug, PartialEq, Eq, Structural)]
pub struct Rectification {
    pub src: Quadrilateral,
    pub width: usize,
    pub height: usize,
    pub rotate90: bool,
}

/// Integer square root by bisection.
pub fn isqrt(n: u64) -> (r: u64)
    requires
        n <= 0xFFFF_FFFF_FFFF,
    ensures
        is_isqrt(n as int, r as int),
        r == spec_isqrt(n as int),
{
    let mut lo: u64 = 0;
    let mut hi: u64 = 0x100_0000;
    proof {
        assert((0x100_0000 as int) * (0x100_0000 as int) > n as int) by (nonlinear_arith)
            requires
                n <= 0xFFFF_FFFF_FFFF,
        ;
    }
    while lo + 1 < hi
        invariant
            lo < hi <= 0x100_0000,
            (lo as int) * (lo as int) <= n as int,
            (hi as int) * (hi as int) > n as int,
        decreases hi - lo,
    {
        let mid = lo + (hi - lo) / 2;
        proof {
            assert(mid * mid <= 0x1_0000_0000_0000) by (nonlinear_arith)
                requires
                    mid <= 0x100_0000,
            ;
        }
        if mid * mid <= n {
            lo = mid;
        } else {
            hi = mid;
        }
    }
    proof {
        lemma_isqrt_of(n as int, lo as int);
    }
    lo
}

/// Distance between two in-range points, as the floor of the Euclidean
/// length, together with its exact squared length.
fn edge_len_sq(p: &Point, q: &Point) -> (d: u64)
    requires
        p.in_warp_range(),
        q.in_warp_range(),
    ensures
        d == dist_sq(*p, *q),
        d <= 0x8000_0000,
{
    let dx: i64 = p.x - q.x;
    let dy: i64 = p.y - q.y;
    proof {
        assert(0 <= dx * dx <= 0x4000_0000 && 0 <= dy * dy <= 0x4000_0000) by (nonlinear_arith)
            requires
                -0x8000 <= dx <= 0x8000,
                -0x8000 <= dy <= 0x8000,
        ;
    }
    let sx: i64 = dx * dx;
    let sy: i64 = dy * dy;
    (sx + sy) as u64
}

/// Derives the rectification for one candidate.
///
/// Measures the top and bottom edges and keeps the longer as the target
/// width, likewise the left and right edges for the target height; this
/// tolerates perspective foreshortening of one edge of a parallel pair.
/// The expansion policy is applied to the corners before measuring.  The
/// result records that the crop must be rotated a quarter turn exactly
/// when the measured height exceeds the measured width.
///
/// Fails with a geometry error exactly when a corner is out of range
/// before or after expansion, a measured side collapses to zero, or the
/// perspective transform is unsolvable.
pub fn derive_rectification(quad: &Quadrilateral, expansion: ExpansionPolicy) -> (r: Result<
    Rectification,
    Exception,
>)
    ensures
        r is Ok <==> rectification_ok(*quad, expansion),
        r matches Ok(rect) ==> {
            let ex = spec_expanded(*quad, expansion);
            &&& rect.src == ex
            &&& rect.width == spec_isqrt(spec_width_sq(ex))
            &&& rect.height == spec_isqrt(spec_height_sq(ex))
            &&& is_isqrt(spec_width_sq(ex), rect.width as int)
            &&& is_isqrt(spec_height_sq(ex), rect.height as int)
            &&& 1 <= rect.width <= 0xB504
            &&& 1 <= rect.height <= 0xB504
            &&& (rect.rotate90 <==> rect.height > rect.width)
        },
        r matches Err(e) ==> e.code == CODE_GEOMETRY,
{
    if !point_in_warp_range(&quad.p0) || !point_in_warp_range(&quad.p1) || !point_in_warp_range(
        &quad.p2,
    ) || !point_in_warp_range(&quad.p3) {
        return Err(
            Exception::new(CODE_GEOMETRY, "candidate corner outside the accepted coordinate space"),
        );
    }
    let ex = expand_quad(quad, expansion);
    if !point_in_warp_range(&ex.p0) || !point_in_warp_range(&ex.p1) || !point_in_warp_range(&ex.p2)
        || !point_in_warp_range(&ex.p3) {
        return Err(Exception::new(CODE_GEOMETRY, "expanded corner outside the resampling space"));
    }
    let d1x: i64 = ex.p1.x - ex.p2.x;
    let d1y: i64 = ex.p1.y - ex.p2.y;
    let d2x: i64 = ex.p3.x - ex.p2.x;
    let d2y: i64 = ex.p3.y - ex.p2.y;
    proof {
        assert(-0x4000_0000 <= d1x * d2y <= 0x4000_0000 && -0x4000_0000 <= d2x * d1y
            <= 0x4000_0000) by (nonlinear_arith)
            requires
                -0x8000 <= d1x <= 0x8000,
                -0x8000 <= d1y <= 0x8000,
                -0x8000 <= d2x <= 0x8000,
                -0x8000 <= d2y <= 0x8000,
        ;
    }
    let delta: i64 = d1x * d2y - d2x * d1y;
    if delta == 0 {
        return Err(Exception::new(CODE_GEOMETRY, "perspective transform unsolvable"));
    }
    let wsq_a = edge_len_sq(&ex.p0, &ex.p1);
    let wsq_b = edge_len_sq(&ex.p3, &ex.p2);
    let wsq = if wsq_a >= wsq_b {
        wsq_a
    } else {
        wsq_b
    };
    let hsq_a = edge_len_sq(&ex.p0, &ex.p3);
    let hsq_b = edge_len_sq(&ex.p1, &ex.p2);
    let hsq = if hsq_a >= hsq_b {
        hsq_a
    } else {
        hsq_b
    };
    if wsq == 0 || hsq == 0 {
        return Err(Exception::new(CODE_GEOMETRY, "candidate region has a zero-length side"));
    }
    let width = isqrt(wsq);
    let height = isqrt(hsq);
    proof {
        assert(1 <= width <= 0xB504 && 1 <= height <= 0xB504) by (nonlinear_arith)
            requires
                is_isqrt(wsq as int, width as int),
                is_isqrt(hsq as int, height as int),
                0 < wsq <= 0x8000_0000,
                0 < hsq <= 0x8000_0000,
        ;
    }
    Ok(Rectification {
        src: ex,
        width: width as usize,
        height: height as usize,
        rotate90: height > width,
    })
}

/// Whether a point lies in the space that resampling accepts.
fn point_in_warp_range(p: &Point) -> (b: bool)
    ensures
        b == p.in_warp_range(),
{
    -COORD_LIMIT <= p.x && p.x <= COORD_LIMIT && -COORD_LIMIT <= p.y && p.y <= COORD_LIMIT
}

/// Floor of `s / 4`, matching the specification's Euclidean division.
fn floor_quarter(s: i64) -> (r: i64)
    requires
        -0x20000 <= s <= 0x20000,
    ensures
        r == (s as int) / 4,
{
    if s >= 0 {
        ((s as u64) / 4) as i64
    } else {
        let a: u64 = (-s) as u64;
        let m: i64 = ((a + 3) / 4) as i64;
        proof {
            let k = (a as int) / 4;
            let r0 = (a as int) % 4;
            lemma_fundamental_div_mod(a as int, 4);
            if r0 == 0 {
                lemma_fundamental_div_mod_converse(s as int, 4, -k, 0);
                lemma_fundamental_div_mod_converse(a as int + 3, 4, k, 3);
            } else {
                lemma_fundamental_div_mod_converse(s as int, 4, -(k + 1), 4 - r0);
                lemma_fundamental_div_mod_converse(a as int + 3, 4, k + 1, r0 - 1);
            }
        }
        -m
    }
}

/// Applies an expansion policy to a quadrilateral in the resampling
/// space.
fn expand_quad(q: &Quadrilateral, e: ExpansionPolicy) -> (r: Quadrilateral)
    requires
        q.in_warp_range(),
    ensures
        r == spec_expanded(*q, e),
{
    match e {
        ExpansionPolicy::AsIs => *q,
        ExpansionPolicy::ScaleFromCentroid(k) => {
            let cx: i64 = floor_quarter(q.p0.x + q.p1.x + q.p2.x + q.p3.x);
            let cy: i64 = floor_quarter(q.p0.y + q.p1.y + q.p2.y + q.p3.y);
            let c = Point { x: cx, y: cy };
            Quadrilateral {
                p0: expand_point(&c, &q.p0, k),
                p1: expand_point(&c, &q.p1, k),
                p2: expand_point(&c, &q.p2, k),
                p3: expand_point(&c, &q.p3, k),
            }
        },
    }
}

/// Moves one corner away from the centre by an integer factor.
fn expand_point(c: &Point, p: &Point, k: u32) -> (r: Point)
    requires
        c.in_warp_range(),
        p.in_warp_range(),
    ensures
        r == spec_expand_point(*c, *p, k as int),
{
    let f: i64 = k as i64;
    let dx: i64 = p.x - c.x;
    let dy: i64 = p.y - c.y;
    proof {
        assert(-0x8000_0000_0000 <= f * dx <= 0x8000_0000_0000 && -0x8000_0000_0000 <= f * dy
            <= 0x8000_0000_0000) by (nonlinear_arith)
            requires
                0 <= f <= 0x1_0000_0000,
                -0x8000 <= dx <= 0x8000,
                -0x8000 <= dy <= 0x8000,
        ;
    }
    Point { x: c.x + f * dx, y: c.y + f * dy }
}

/// Expansion about an exactly representable centre keeps the centre:
/// when the four-corner coordinate sums are divisible by four, the
/// expanded quadrilateral's centroid equals the original's, for every
/// factor.
pub proof fn lemma_expansion_preserves_centroid(q: Quadrilateral, k: u32)
    requires
        q.in_warp_range(),
        (q.p0.x + q.p1.x + q.p2.x + q.p3.x) % 4 == 0,
        (q.p0.y + q.p1.y + q.p2.y + q.p3.y) % 4 == 0,
    ensures
        spec_centroid(spec_expanded(q, ExpansionPolicy::ScaleFromCentroid(k))) == spec_centroid(q),
{
    let c = spec_centroid(q);
    let ex = spec_expanded(q, ExpansionPolicy::ScaleFromCentroid(k));
    let sx = q.p0.x + q.p1.x + q.p2.x + q.p3.x;
    let sy = q.p0.y + q.p1.y + q.p2.y + q.p3.y;
    lemma_fundamental_div_mod(sx, 4);
    lemma_fundamental_div_mod(sy, 4);
    assert(4 * c.x == sx && 4 * c.y == sy);
    let kk = k as int;
    let dx0 = q.p0.x - c.x;
    let dx1 = q.p1.x - c.x;
    let dx2 = q.p2.x - c.x;
    let dx3 = q.p3.x - c.x;
    let dy0 = q.p0.y - c.y;
    let dy1 = q.p1.y - c.y;
    let dy2 = q.p2.y - c.y;
    let dy3 = q.p3.y - c.y;
    assert(dx0 + dx1 + dx2 + dx3 == 0 && dy0 + dy1 + dy2 + dy3 == 0);
    assert(kk * dx0 + kk * dx1 + kk * dx2 + kk * dx3 == 0 && kk * dy0 + kk * dy1 + kk * dy2 + kk
        * dy3 == 0) by (nonlinear_arith)
        requires
            dx0 + dx1 + dx2 + dx3 == 0,
            dy0 + dy1 + dy2 + dy3 == 0,
    ;
    assert(-0x8000_0000_0000 <= kk * dx0 <= 0x8000_0000_0000 && -0x8000_0000_0000 <= kk * dx1
        <= 0x8000_0000_0000 && -0x8000_0000_0000 <= kk * dx2 <= 0x8000_0000_0000
        && -0x8000_0000_0000 <= kk * dx3 <= 0x8000_0000_0000 && -0x8000_0000_0000 <= kk * dy0
        <= 0x8000_0000_0000 && -0x8000_0000_0000 <= kk * dy1 <= 0x8000_0000_0000
        && -0x8000_0000_0000 <= kk * dy2 <= 0x8000_0000_0000 && -0x8000_0000_0000 <= kk * dy3
        <= 0x8000_0000_0000) by (nonlinear_arith)
        requires
            0 <= kk <= 0x1_0000_0000,
            -0x8000 <= dx0 <= 0x8000,
            -0x8000 <= dx1 <= 0x8000,
            -0x8000 <= dx2 <= 0x8000,
            -0x8000 <= dx3 <= 0x8000,
            -0x8000 <= dy0 <= 0x8000,
            -0x8000 <= dy1 <= 0x8000,
            -0x8000 <= dy2 <= 0x8000,
            -0x8000 <= dy3 <= 0x8000,
    ;
    assert(ex.p0.x == c.x + kk * dx0 && ex.p1.x == c.x + kk * dx1 && ex.p2.x == c.x + kk * dx2
        && ex.p3.x == c.x + kk * dx3);
    assert(ex.p0.y == c.y + kk * dy0 && ex.p1.y == c.y + kk * dy1 && ex.p2.y == c.y + kk * dy2
        && ex.p3.y == c.y + kk * dy3);
    assert(ex.p0.x + ex.p1.x + ex.p2.x + ex.p3.x == 4 * c.x);
    assert(ex.p0.y + ex.p1.y + ex.p2.y + ex.p3.y == 4 * c.y);
    lemma_fundamental_div_mod_converse(4 * c.x, 4, c.x as int, 0);
    lemma_fundamental_div_mod_converse(4 * c.y, 4, c.y as int, 0);
    assert(spec_centroid(ex) == c);
}

} // verus!
