//! Perspective resampling.
//!
//! For a rectification target this module evaluates, at every pixel of
//! the target rectangle, the projective map that carries the rectangle's
//! corners onto the candidate quadrilateral's corners, and samples the
//! source raster there with fixed-point bilinear interpolation.  All
//! arithmetic is exact integer arithmetic on the homogeneous form of the
//! transform; interpolation weights are quantized to 1/256.
//!
//! The map is the unique projective transform sending `(0,0)`, `(W,0)`,
//! `(W,H)` and `(0,H)` to the quadrilateral's four corners.  Writing it
//! as `(x, y) = ((a*u + b*v + c) / D, (e*u + f*v + g) / D)` with
//! `D = p*u + q*v + r`, clearing denominators turns the four corner
//! constraints into the closed-form integer coefficients below, scaled
//! by the target dimensions and the corner determinant.

use vstd::prelude::*;

use crate::geometry::Quadrilateral;
use crate::raster::Raster;

verus! {

/// Integer coefficients of the projective map from the target rectangle
/// to the source quadrilateral, with denominators cleared.
///
/// For a target pixel `(u, v)` of a `tw` by `th` rectangle, the source
/// point is `(nx / d, ny / d)` where
/// `nx = aw*u*th + bh*v*tw + cx*tw*th`,
/// `ny = ay*u*th + by*v*tw + cy*tw*th`, and
/// `d = gw*u*th + hh*v*tw + delta*tw*th`.
#[derive(Clone, Copy, Debug, PartialEq, Eq, Structural)]
pub struct Homography {
    pub aw: i128,
    pub bh: i128,
    pub cx: i128,
    pub ey: i128,
    pub fy: i128,
    pub cy: i128,
    pub gw: i128,
    pub hh: i128,
    pub delta: i128,
}

/// Alternating corner sum of the x coordinates; zero exactly when the
/// quadrilateral is a parallelogram.
pub open spec fn spec_sx(q: Quadrilateral) -> int {
    q.p0.x - q.p1.x + q.p2.x - q.p3.x
}

/// Alternating corner sum of the y coordinates.
pub open spec fn spec_sy(q: Quadrilateral) -> int {
    q.p0.y - q.p1.y + q.p2.y - q.p3.y
}

/// The corner determinant, shared with the geometry engine.
pub open spec fn spec_hdelta(q: Quadrilateral) -> int {
    crate::geometry::spec_delta(q)
}

/// Projective row coefficient attached to the `u` axis.
pub open spec fn spec_gw(q: Quadrilateral) -> int {
    spec_sx(q) * (q.p3.y - q.p2.y) - spec_sy(q) * (q.p3.x - q.p2.x)
}

/// Projective row coefficient attached to the `v` axis.
pub open spec fn spec_hh(q: Quadrilateral) -> int {
    (q.p1.x - q.p2.x) * spec_sy(q) - (q.p1.y - q.p2.y) * spec_sx(q)
}

/// Constant term of the x numerator.
pub open spec fn spec_cx(q: Quadrilateral) -> int {
    q.p0.x * spec_hdelta(q)
}

/// Constant term of the y numerator.
pub open spec fn spec_cy(q: Quadrilateral) -> int {
    q.p0.y * spec_hdelta(q)
}

/// `u` coefficient of the x numerator.
pub open spec fn spec_aw(q: Quadrilateral) -> int {
    q.p1.x * (spec_gw(q) + spec_hdelta(q)) - spec_cx(q)
}

/// `v` coefficient of the x numerator.
pub open spec fn spec_bh(q: Quadrilateral) -> int {
    q.p3.x * (spec_hh(q) + spec_hdelta(q)) - spec_cx(q)
}

/// `u` coefficient of the y numerator.
pub open spec fn spec_ay(q: Quadrilateral) -> int {
    q.p1.y * (spec_gw(q) + spec_hdelta(q)) - spec_cy(q)
}

/// `v` coefficient of the y numerator.
pub open spec fn spec_by(q: Quadrilateral) -> int {
    q.p3.y * (spec_hh(q) + spec_hdelta(q)) - spec_cy(q)
}

/// The coefficient bundle of a quadrilateral.
pub open spec fn spec_homography(q: Quadrilateral) -> Homography {
    Homography {
        aw: spec_aw(q) as i128,
        bh: spec_bh(q) as i128,
        cx: spec_cx(q) as i128,
        ey: spec_ay(q) as i128,
        fy: spec_by(q) as i128,
        cy: spec_cy(q) as i128,
        gw: spec_gw(q) as i128,
        hh: spec_hh(q) as i128,
        delta: spec_hdelta(q) as i128,
    }
}

/// Magnitude bounds on the coefficients of an in-range quadrilateral;
/// every later overflow argument rests on these.
pub open spec fn coeffs_bounded(h: Homography) -> bool {
    &&& -0x8000_0000_0000 <= h.aw <= 0x8000_0000_0000
    &&& -0x8000_0000_0000 <= h.bh <= 0x8000_0000_0000
    &&& -0x8000_0000_0000 <= h.ey <= 0x8000_0000_0000
    &&& -0x8000_0000_0000 <= h.fy <= 0x8000_0000_0000
    &&& -0x2000_0000_0000 <= h.cx <= 0x2000_0000_0000
    &&& -0x2000_0000_0000 <= h.cy <= 0x2000_0000_0000
    &&& -0x1_0000_0000 <= h.gw <= 0x1_0000_0000
    &&& -0x1_0000_0000 <= h.hh <= 0x1_0000_0000
    &&& -0x8000_0000 <= h.delta <= 0x8000_0000
}

/// The product of two bounded factors is bounded by the product of the
/// bounds.
pub proof fn lemma_mul_bound(a: int, b: int, aa: int, bb: int)
    by (nonlinear_arith)
    requires
        -aa <= a <= aa,
        -bb <= b <= bb,
        0 <= aa,
        0 <= bb,
    ensures
        -(aa * bb) <= a * b <= aa * bb,
{
}

/// The coefficients of an in-range quadrilateral observe the bounds of
/// `coeffs_bounded`.
pub proof fn lemma_coeff_bounds(q: Quadrilateral)
    requires
        q.in_warp_range(),
    ensures
        coeffs_bounded(spec_homography(q)),
        spec_homography(q).aw == spec_aw(q),
        spec_homography(q).bh == spec_bh(q),
        spec_homography(q).cx == spec_cx(q),
        spec_homography(q).ey == spec_ay(q),
        spec_homography(q).fy == spec_by(q),
        spec_homography(q).cy == spec_cy(q),
        spec_homography(q).gw == spec_gw(q),
        spec_homography(q).hh == spec_hh(q),
        spec_homography(q).delta == spec_hdelta(q),
{
    lemma_mul_bound(q.p1.x - q.p2.x, q.p3.y - q.p2.y, 0x8000, 0x8000);
    lemma_mul_bound(q.p3.x - q.p2.x, q.p1.y - q.p2.y, 0x8000, 0x8000);
    assert(-0x8000_0000 <= spec_hdelta(q) <= 0x8000_0000);
    lemma_mul_bound(spec_sx(q), q.p3.y - q.p2.y, 0x1_0000, 0x8000);
    lemma_mul_bound(spec_sy(q), q.p3.x - q.p2.x, 0x1_0000, 0x8000);
    assert(-0x1_0000_0000 <= spec_gw(q) <= 0x1_0000_0000);
    lemma_mul_bound(q.p1.x - q.p2.x, spec_sy(q), 0x8000, 0x1_0000);
    lemma_mul_bound(q.p1.y - q.p2.y, spec_sx(q), 0x8000, 0x1_0000);
    assert(-0x1_0000_0000 <= spec_hh(q) <= 0x1_0000_0000);
    lemma_mul_bound(q.p0.x as int, spec_hdelta(q), 0x4000, 0x8000_0000);
    lemma_mul_bound(q.p0.y as int, spec_hdelta(q), 0x4000, 0x8000_0000);
    assert(-0x2000_0000_0000 <= spec_cx(q) <= 0x2000_0000_0000);
    assert(-0x2000_0000_0000 <= spec_cy(q) <= 0x2000_0000_0000);
    lemma_mul_bound(q.p1.x as int, spec_gw(q) + spec_hdelta(q), 0x4000, 0x1_8000_0000);
    lemma_mul_bound(q.p1.y as int, spec_gw(q) + spec_hdelta(q), 0x4000, 0x1_8000_0000);
    lemma_mul_bound(q.p3.x as int, spec_hh(q) + spec_hdelta(q), 0x4000, 0x1_8000_0000);
    lemma_mul_bound(q.p3.y as int, spec_hh(q) + spec_hdelta(q), 0x4000, 0x1_8000_0000);
    assert(-0x8000_0000_0000 <= spec_aw(q) <= 0x8000_0000_0000);
    assert(-0x8000_0000_0000 <= spec_bh(q) <= 0x8000_0000_0000);
    assert(-0x8000_0000_0000 <= spec_ay(q) <= 0x8000_0000_0000);
    assert(-0x8000_0000_0000 <= spec_by(q) <= 0x8000_0000_0000);
}

/// Computes the coefficient bundle for an in-range quadrilateral.
pub fn compute_homography(q: &Quadrilateral) -> (h: Homography)
    requires
        q.in_warp_range(),
    ensures
        h == spec_homography(*q),
        coeffs_bounded(h),
{
    proof {
        lemma_coeff_bounds(*q);
    }
    let x0: i128 = q.p0.x as i128;
    let y0: i128 = q.p0.y as i128;
    let x1: i128 = q.p1.x as i128;
    let y1: i128 = q.p1.y as i128;
    let x2: i128 = q.p2.x as i128;
    let y2: i128 = q.p2.y as i128;
    let x3: i128 = q.p3.x as i128;
    let y3: i128 = q.p3.y as i128;
    let sx: i128 = x0 - x1 + x2 - x3;
    let sy: i128 = y0 - y1 + y2 - y3;
    proof {
        lemma_mul_bound(x1 - x2, y3 - y2, 0x8000, 0x8000);
        lemma_mul_bound(x3 - x2, y1 - y2, 0x8000, 0x8000);
    }
    let delta: i128 = (x1 - x2) * (y3 - y2) - (x3 - x2) * (y1 - y2);
    proof {
        lemma_mul_bound(sx as int, y3 - y2, 0x1_0000, 0x8000);
        lemma_mul_bound(sy as int, x3 - x2, 0x1_0000, 0x8000);
        lemma_mul_bound(x1 - x2, sy as int, 0x8000, 0x1_0000);
        lemma_mul_bound(y1 - y2, sx as int, 0x8000, 0x1_0000);
    }
    let gw: i128 = sx * (y3 - y2) - sy * (x3 - x2);
    let hh: i128 = (x1 - x2) * sy - (y1 - y2) * sx;
    proof {
        lemma_mul_bound(x0 as int, delta as int, 0x4000, 0x8000_0000);
        lemma_mul_bound(y0 as int, delta as int, 0x4000, 0x8000_0000);
        lemma_mul_bound(x1 as int, gw + delta, 0x4000, 0x1_8000_0000);
        lemma_mul_bound(y1 as int, gw + delta, 0x4000, 0x1_8000_0000);
        lemma_mul_bound(x3 as int, hh + delta, 0x4000, 0x1_8000_0000);
        lemma_mul_bound(y3 as int, hh + delta, 0x4000, 0x1_8000_0000);
    }
    let cx: i128 = x0 * delta;
    let cy: i128 = y0 * delta;
    let aw: i128 = x1 * (gw + delta) - cx;
    let ey: i128 = y1 * (gw + delta) - cy;
    let bh: i128 = x3 * (hh + delta) - cx;
    let fy: i128 = y3 * (hh + delta) - cy;
    Homography { aw, bh, cx, ey, fy, cy, gw, hh, delta }
}

/// The sample the rectified image holds at target pixel `(u, v)` of a
/// `tw` by `th` target rectangle: the source point of `(u, v)` under the
/// projective map, read with 1/256-quantized bilinear interpolation,
/// black when the point falls outside the source grid or the map's
/// denominator vanishes there.
pub open spec fn spec_sample(src: Raster, h: Homography, tw: int, th: int, u: int, v: int) -> u8 {
    let nx = h.aw * u * th + h.bh * v * tw + h.cx * tw * th;
    let ny = h.ey * u * th + h.fy * v * tw + h.cy * tw * th;
    let d = h.gw * u * th + h.hh * v * tw + h.delta * tw * th;
    if d == 0 {
        0
    } else {
        let nxp = if d < 0 {
            -nx
        } else {
            nx
        };
        let nyp = if d < 0 {
            -ny
        } else {
            ny
        };
        let dp = if d < 0 {
            -d
        } else {
            d
        };
        if nxp < 0 || nyp < 0 || nxp > (src.width - 1) * dp || nyp > (src.height - 1) * dp {
            0
        } else {
            let xf = nxp / dp;
            let yf = nyp / dp;
            let fx8 = ((nxp % dp) * 256) / dp;
            let fy8 = ((nyp % dp) * 256) / dp;
            let w00 = (256 - fx8) * (256 - fy8);
            let w10 = fx8 * (256 - fy8);
            let w01 = (256 - fx8) * fy8;
            let w11 = fx8 * fy8;
            let p00 = src.pix_or_zero(xf, yf) as int;
            let p10 = src.pix_or_zero(xf + 1, yf) as int;
            let p01 = src.pix_or_zero(xf, yf + 1) as int;
            let p11 = src.pix_or_zero(xf + 1, yf + 1) as int;
            (((w00 * p00 + w10 * p10 + w01 * p01 + w11 * p11 + 32768) / 65536)) as u8
        }
    }
}

/// Division by a positive divisor is monotone in the dividend.
proof fn lemma_div_bound(a: int, b: int, d: int)
    by (nonlinear_arith)
    requires
        0 <= a,
        0 < d,
        a <= b * d,
    ensures
        0 <= a / d <= b,
{
}

/// A remainder scaled by 256 and divided by the divisor stays below 256.
proof fn lemma_frac_bound(r: int, d: int)
    by (nonlinear_arith)
    requires
        0 <= r < d,
    ensures
        0 <= (r * 256) / d <= 255,
{
}

/// The four quantized bilinear weights sum to 65536.
proof fn lemma_weight_sum(fx8: int, fy8: int)
    by (nonlinear_arith)
    requires
        0 <= fx8 <= 255,
        0 <= fy8 <= 255,
    ensures
        (256 - fx8) * (256 - fy8) + fx8 * (256 - fy8) + (256 - fx8) * fy8 + fx8 * fy8 == 65536,
{
}

/// A convex combination of byte values, scaled by 65536, stays within
/// 65536 times a byte.
proof fn lemma_acc_bound(w00: int, w10: int, w01: int, w11: int, p00: int, p10: int, p01: int, p11: int)
    by (nonlinear_arith)
    requires
        0 <= w00,
        0 <= w10,
        0 <= w01,
        0 <= w11,
        w00 + w10 + w01 + w11 == 65536,
        0 <= p00 <= 255,
        0 <= p10 <= 255,
        0 <= p01 <= 255,
        0 <= p11 <= 255,
    ensures
        0 <= w00 * p00 + w10 * p10 + w01 * p01 + w11 * p11 <= 65536 * 255,
        0 <= w00 * p00 <= 65536 * 255,
        0 <= w10 * p10 <= 65536 * 255,
        0 <= w01 * p01 <= 65536 * 255,
        0 <= w11 * p11 <= 65536 * 255,
{
}

/// Evaluates one rectified sample.
pub fn sample(src: &Raster, h: &Homography, tw: usize, th: usize, u: usize, v: usize) -> (p: u8)
    requires
        src.wf(),
        src.width <= 0x4000,
        src.height <= 0x4000,
        coeffs_bounded(*h),
        1 <= tw <= 0xB504,
        1 <= th <= 0xB504,
        u < tw,
        v < th,
    ensures
        p == spec_sample(*src, *h, tw as int, th as int, u as int, v as int),
{
    let ui: i128 = u as i128;
    let vi: i128 = v as i128;
    let twi: i128 = tw as i128;
    let thi: i128 = th as i128;
    proof {
        lemma_mul_bound(h.aw as int, ui as int, 0x8000_0000_0000, 0xB504);
        lemma_mul_bound(h.aw * ui, thi as int, (0x8000_0000_0000 * 0xB504) as int, 0xB504);
        lemma_mul_bound(h.bh as int, vi as int, 0x8000_0000_0000, 0xB504);
        lemma_mul_bound(h.bh * vi, twi as int, (0x8000_0000_0000 * 0xB504) as int, 0xB504);
        lemma_mul_bound(h.cx as int, twi as int, 0x2000_0000_0000, 0xB504);
        lemma_mul_bound(h.cx * twi, thi as int, (0x2000_0000_0000 * 0xB504) as int, 0xB504);
        lemma_mul_bound(h.ey as int, ui as int, 0x8000_0000_0000, 0xB504);
        lemma_mul_bound(h.ey * ui, thi as int, (0x8000_0000_0000 * 0xB504) as int, 0xB504);
        lemma_mul_bound(h.fy as int, vi as int, 0x8000_0000_0000, 0xB504);
        lemma_mul_bound(h.fy * vi, twi as int, (0x8000_0000_0000 * 0xB504) as int, 0xB504);
        lemma_mul_bound(h.cy as int, twi as int, 0x2000_0000_0000, 0xB504);
        lemma_mul_bound(h.cy * twi, thi as int, (0x2000_0000_0000 * 0xB504) as int, 0xB504);
        lemma_mul_bound(h.gw as int, ui as int, 0x1_0000_0000, 0xB504);
        lemma_mul_bound(h.gw * ui, thi as int, (0x1_0000_0000 * 0xB504) as int, 0xB504);
        lemma_mul_bound(h.hh as int, vi as int, 0x1_0000_0000, 0xB504);
        lemma_mul_bound(h.hh * vi, twi as int, (0x1_0000_0000 * 0xB504) as int, 0xB504);
        lemma_mul_bound(h.delta as int, twi as int, 0x8000_0000, 0xB504);
        lemma_mul_bound(h.delta * twi, thi as int, (0x8000_0000 * 0xB504) as int, 0xB504);
    }
    let nx: i128 = h.aw * ui * thi + h.bh * vi * twi + h.cx * twi * thi;
    let ny: i128 = h.ey * ui * thi + h.fy * vi * twi + h.cy * twi * thi;
    let d: i128 = h.gw * ui * thi + h.hh * vi * twi + h.delta * twi * thi;
    if d == 0 {
        return 0;
    }
    let nxp: i128 = if d < 0 {
        -nx
    } else {
        nx
    };
    let nyp: i128 = if d < 0 {
        -ny
    } else {
        ny
    };
    let dp: i128 = if d < 0 {
        -d
    } else {
        d
    };
    if nxp < 0 || nyp < 0 {
        return 0;
    }
    let wm1: i128 = src.width as i128 - 1;
    let hm1: i128 = src.height as i128 - 1;
    proof {
        lemma_mul_bound(wm1 as int, dp as int, 0x4000, 0x2000_0000_0000_0000_0000);
        lemma_mul_bound(hm1 as int, dp as int, 0x4000, 0x2000_0000_0000_0000_0000);
    }
    let bndx: i128 = wm1 * dp;
    let bndy: i128 = hm1 * dp;
    if nxp > bndx || nyp > bndy {
        return 0;
    }
    let nxu: u128 = nxp as u128;
    let nyu: u128 = nyp as u128;
    let dpu: u128 = dp as u128;
    proof {
        lemma_div_bound(nxu as int, wm1 as int, dpu as int);
        lemma_div_bound(nyu as int, hm1 as int, dpu as int);
    }
    let xfu: u128 = nxu / dpu;
    let yfu: u128 = nyu / dpu;
    let fxr: u128 = nxu % dpu;
    let fyr: u128 = nyu % dpu;
    proof {
        lemma_frac_bound(fxr as int, dpu as int);
        lemma_frac_bound(fyr as int, dpu as int);
    }
    let fx8: u32 = ((fxr * 256) / dpu) as u32;
    let fy8: u32 = ((fyr * 256) / dpu) as u32;
    proof {
        assert(0 <= (256 - fx8) * (256 - fy8) <= 65536 && 0 <= fx8 * (256 - fy8) <= 65536 && 0 <= (
        256 - fx8) * fy8 <= 65536 && 0 <= fx8 * fy8 <= 65536) by (nonlinear_arith)
            requires
                0 <= fx8 <= 255,
                0 <= fy8 <= 255,
        ;
    }
    let xf: i64 = xfu as i64;
    let yf: i64 = yfu as i64;
    let p00 = src.get_or_zero(xf, yf) as u32;
    let p10 = src.get_or_zero(xf + 1, yf) as u32;
    let p01 = src.get_or_zero(xf, yf + 1) as u32;
    let p11 = src.get_or_zero(xf + 1, yf + 1) as u32;
    let w00: u32 = (256 - fx8) * (256 - fy8);
    let w10: u32 = fx8 * (256 - fy8);
    let w01: u32 = (256 - fx8) * fy8;
    let w11: u32 = fx8 * fy8;
    proof {
        lemma_weight_sum(fx8 as int, fy8 as int);
        lemma_acc_bound(
            w00 as int,
            w10 as int,
            w01 as int,
            w11 as int,
            p00 as int,
            p10 as int,
            p01 as int,
            p11 as int,
        );
    }
    let acc: u32 = w00 * p00 + w10 * p10 + w01 * p01 + w11 * p11;
    let val: u32 = (acc + 32768) / 65536;
    val as u8
}

/// Resamples the source raster into the target rectangle through the
/// projective map.
pub fn warp(src: &Raster, h: &Homography, tw: usize, th: usize) -> (out: Raster)
    requires
        src.wf(),
        src.width <= 0x4000,
        src.height <= 0x4000,
        coeffs_bounded(*h),
        1 <= tw <= 0xB504,
        1 <= th <= 0xB504,
    ensures
        out.wf(),
        out.width == tw,
        out.height == th,
        forall|x: int, y: int|
            0 <= x < tw && 0 <= y < th ==> out.pix(x, y) == spec_sample(
                *src,
                *h,
                tw as int,
                th as int,
                x,
                y,
            ),
{
    let mut data: Vec<u8> = Vec::new();
    let mut v: usize = 0;
    while v < th
        invariant
            src.wf(),
            src.width <= 0x4000,
            src.height <= 0x4000,
            coeffs_bounded(*h),
            1 <= tw <= 0xB504,
            1 <= th <= 0xB504,
            v <= th,
            data@.len() == v * tw,
            forall|x: int, y: int|
                0 <= x < tw && 0 <= y < v ==> #[trigger] crate::raster::pix_at(data@, tw as int, x, y)
                    == spec_sample(*src, *h, tw as int, th as int, x, y),
        decreases th - v,
    {
        let mut u: usize = 0;
        while u < tw
            invariant
                src.wf(),
                src.width <= 0x4000,
                src.height <= 0x4000,
                coeffs_bounded(*h),
                1 <= tw <= 0xB504,
                1 <= th <= 0xB504,
                v < th,
                u <= tw,
                data@.len() == v * tw + u,
                forall|x: int, y: int|
                    0 <= x < tw && 0 <= y < v ==> #[trigger] crate::raster::pix_at(
                        data@,
                        tw as int,
                        x,
                        y,
                    ) == spec_sample(*src, *h, tw as int, th as int, x, y),
                forall|x: int|
                    0 <= x < u ==> #[trigger] crate::raster::pix_at(data@, tw as int, x, v as int)
                        == spec_sample(*src, *h, tw as int, th as int, x, v as int),
            decreases tw - u,
        {
            let p = sample(src, h, tw, th, u, v);
            let ghost prev = data@;
            let ghost up = u as int;
            data.push(p);
            u = u + 1;
            proof {
                assert forall|x: int, y: int|
                    0 <= x < tw && 0 <= y < v implies #[trigger] crate::raster::pix_at(
                    data@,
                    tw as int,
                    x,
                    y,
                ) == spec_sample(*src, *h, tw as int, th as int, x, y) by {
                    assert(0 <= y * tw + x < v * tw) by (nonlinear_arith)
                        requires
                            0 <= x < tw,
                            0 <= y < v,
                    ;
                    assert(crate::raster::pix_at(data@, tw as int, x, y) == crate::raster::pix_at(
                        prev,
                        tw as int,
                        x,
                        y,
                    ));
                }
                assert forall|x: int|
                    0 <= x < u implies #[trigger] crate::raster::pix_at(data@, tw as int, x, v as int)
                    == spec_sample(*src, *h, tw as int, th as int, x, v as int) by {
                    if x < up {
                        assert(crate::raster::pix_at(data@, tw as int, x, v as int)
                            == crate::raster::pix_at(prev, tw as int, x, v as int));
                    } else {
                        assert((v as int) * tw + x == prev.len());
                        assert(crate::raster::pix_at(data@, tw as int, x, v as int) == p);
                    }
                }
            }
        }
        v = v + 1;
        proof {
            assert(v * tw == (v - 1) * tw + tw) by (nonlinear_arith);
        }
    }
    let out = Raster { width: tw, height: th, data };
    proof {
        assert(out.data@.len() == out.width * out.height) by (nonlinear_arith)
            requires
                out.data@.len() == th * tw,
                out.width == tw,
                out.height == th,
        ;
        assert forall|x: int, y: int|
            0 <= x < tw && 0 <= y < th implies out.pix(x, y) == spec_sample(
            *src,
            *h,
            tw as int,
            th as int,
            x,
            y,
        ) by {
            assert(out.pix(x, y) == crate::raster::pix_at(data@, tw as int, x, y));
        }
    }
    out
}

} // verus!
