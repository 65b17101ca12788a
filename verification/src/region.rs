//! Region extractor: rectified crops of candidate regions.
//!
//! Combines the geometry engine with the perspective resampler: derive
//! the rectification for a candidate, resample the source through it,
//! and rotate the crop a quarter turn when the target is taller than
//! wide, so that downstream stages always receive a raster in normal
//! barcode orientation.

use vstd::prelude::*;

use crate::error::Exception;
use crate::geometry::{
    is_isqrt, lemma_isqrt_unique, rectification_ok, spec_expanded, spec_height_sq, spec_isqrt,
    spec_width_sq, derive_rectification, ExpansionPolicy, Point, Quadrilateral,
};
use crate::raster::Raster;
use crate::warp::{
    compute_homography, lemma_coeff_bounds, spec_homography, spec_sample, warp,
};

verus! {

/// What `extract` returns on success: the crop has the derived target
/// dimensions (swapped when the quarter-turn fires), and every sample is
/// the rectified sample of its position, read through the rotation when
/// it fires.
pub open spec fn extract_post(
    src: Raster,
    q: Quadrilateral,
    e: ExpansionPolicy,
    out: Raster,
) -> bool {
    let ex = spec_expanded(q, e);
    let h = spec_homography(ex);
    let tw = spec_isqrt(spec_width_sq(ex));
    let th = spec_isqrt(spec_height_sq(ex));
    &&& out.wf()
    &&& out.width == (if th > tw {
        th
    } else {
        tw
    })
    &&& out.height == (if th > tw {
        tw
    } else {
        th
    })
    &&& (forall|x: int, y: int|
        0 <= x < out.width && 0 <= y < out.height ==> out.pix(x, y) == (if th > tw {
            spec_sample(src, h, tw, th, y, th - 1 - x)
        } else {
            spec_sample(src, h, tw, th, x, y)
        }))
}

/// Width of the rectified crop, after the quarter-turn when it fires.
pub open spec fn extract_width(q: Quadrilateral, e: ExpansionPolicy) -> int {
    let ex = spec_expanded(q, e);
    let tw = spec_isqrt(spec_width_sq(ex));
    let th = spec_isqrt(spec_height_sq(ex));
    if th > tw {
        th
    } else {
        tw
    }
}

/// Height of the rectified crop, after the quarter-turn when it fires.
pub open spec fn extract_height(q: Quadrilateral, e: ExpansionPolicy) -> int {
    let ex = spec_expanded(q, e);
    let tw = spec_isqrt(spec_width_sq(ex));
    let th = spec_isqrt(spec_height_sq(ex));
    if th > tw {
        tw
    } else {
        th
    }
}

/// The rectified crop's samples, row-major.
pub open spec fn extracted_seq(src: Raster, q: Quadrilateral, e: ExpansionPolicy) -> Seq<u8> {
    let ex = spec_expanded(q, e);
    let hom = spec_homography(ex);
    let tw = spec_isqrt(spec_width_sq(ex));
    let th = spec_isqrt(spec_height_sq(ex));
    if th > tw {
        Seq::new(
            (th * tw) as nat,
            |i: int| spec_sample(src, hom, tw, th, i / th, th - 1 - i % th),
        )
    } else {
        Seq::new((tw * th) as nat, |i: int| spec_sample(src, hom, tw, th, i % tw, i / tw))
    }
}

/// Rectifies one candidate region out of the source raster.
///
/// Succeeds exactly when the candidate admits a rectification; the
/// result then satisfies `extract_post` and holds exactly the samples
/// of `extracted_seq`.  A degenerate candidate is rejected with a
/// geometry error rather than yielding a zero-sized raster.
pub fn extract(source: &Raster, quad: &Quadrilateral, expansion: ExpansionPolicy) -> (r: Result<
    Raster,
    Exception,
>)
    requires
        source.wf(),
        source.width <= 0x4000,
        source.height <= 0x4000,
    ensures
        r is Ok <==> rectification_ok(*quad, expansion),
        r matches Ok(out) ==> extract_post(*source, *quad, expansion, out),
        r matches Ok(out) ==> {
            &&& out.width == extract_width(*quad, expansion)
            &&& out.height == extract_height(*quad, expansion)
            &&& 1 <= out.width <= 0xB504
            &&& 1 <= out.height <= 0xB504
            &&& out.data@ == extracted_seq(*source, *quad, expansion)
        },
        r matches Err(e) ==> e.code == crate::error::CODE_GEOMETRY,
{
    match derive_rectification(quad, expansion) {
        Err(e) => Err(e),
        Ok(rect) => {
            let h = compute_homography(&rect.src);
            let warped = warp(source, &h, rect.width, rect.height);
            let out = if rect.rotate90 {
                warped.rotate90_cw()
            } else {
                warped
            };
            proof {
                let target = extracted_seq(*source, *quad, expansion);
                assert(out.data@.len() == out.width * out.height) by (nonlinear_arith)
                    requires
                        out.wf(),
                ;
                assert forall|i: int| 0 <= i < out.data@.len() implies out.data@[i] == target[i] by {
                    crate::raster::lemma_grid_index(out.width as int, out.height as int, i);
                    assert(out.pix(i % (out.width as int), i / (out.width as int))
                        == out.data@[i]);
                }
                assert(out.data@ =~= target);
            }
            Ok(out)
        },
    }
}


/// The axis-aligned quadrilateral whose corners frame a whole raster
/// of the given dimensions.
pub open spec fn full_frame_quad(w: int, h: int) -> Quadrilateral {
    Quadrilateral {
        p0: Point { x: 0, y: 0 },
        p1: Point { x: w as i64, y: 0 },
        p2: Point { x: w as i64, y: h as i64 },
        p3: Point { x: 0, y: h as i64 },
    }
}

/// Round trip: extracting a region through the axis-aligned
/// quadrilateral that frames the whole image, without expansion,
/// admits a rectification whose target has the image's own dimensions,
/// and reproduces the image's samples exactly.  The law is stated for
/// images at least as wide as tall; on a taller-than-wide image the
/// quarter-turn policy would rotate the result.
pub proof fn lemma_extract_whole_frame_identity(src: Raster)
    requires
        src.wf(),
        1 <= src.height <= src.width,
        src.width <= 0x4000,
    ensures
        rectification_ok(
            full_frame_quad(src.width as int, src.height as int),
            ExpansionPolicy::AsIs,
        ),
        extract_width(full_frame_quad(src.width as int, src.height as int), ExpansionPolicy::AsIs)
            == src.width,
        extract_height(full_frame_quad(src.width as int, src.height as int), ExpansionPolicy::AsIs)
            == src.height,
        extracted_seq(src, full_frame_quad(src.width as int, src.height as int),
            ExpansionPolicy::AsIs) == src.data@,
{
    let wd = src.width as int;
    let hd = src.height as int;
    let q = full_frame_quad(wd, hd);
    let ex = spec_expanded(q, ExpansionPolicy::AsIs);
    assert(ex == q);
    assert(q.in_warp_range());
    assert(q.p1.x - q.p2.x == 0 && q.p3.y - q.p2.y == 0 && q.p3.x - q.p2.x == -wd && q.p1.y - q.p2.y
        == -hd);
    assert(crate::geometry::spec_delta(q) == -(wd * hd)) by (nonlinear_arith)
        requires
            q.p1.x - q.p2.x == 0,
            q.p3.y - q.p2.y == 0,
            q.p3.x - q.p2.x == -wd,
            q.p1.y - q.p2.y == -hd,
            crate::geometry::spec_delta(q) == (q.p1.x - q.p2.x) * (q.p3.y - q.p2.y) - (q.p3.x
                - q.p2.x) * (q.p1.y - q.p2.y),
    ;
    assert(wd * hd >= 1) by (nonlinear_arith)
        requires
            wd >= 1,
            hd >= 1,
    ;
    assert(crate::geometry::dist_sq(q.p0, q.p1) == wd * wd && crate::geometry::dist_sq(q.p3, q.p2)
        == wd * wd && crate::geometry::dist_sq(q.p0, q.p3) == hd * hd && crate::geometry::dist_sq(
        q.p1,
        q.p2,
    ) == hd * hd) by (nonlinear_arith)
        requires
            q.p0.x == 0,
            q.p0.y == 0,
            q.p1.x == wd,
            q.p1.y == 0,
            q.p2.x == wd,
            q.p2.y == hd,
            q.p3.x == 0,
            q.p3.y == hd,
            crate::geometry::dist_sq(q.p0, q.p1) == crate::geometry::sq(q.p0.x - q.p1.x)
                + crate::geometry::sq(q.p0.y - q.p1.y),
            crate::geometry::dist_sq(q.p3, q.p2) == crate::geometry::sq(q.p3.x - q.p2.x)
                + crate::geometry::sq(q.p3.y - q.p2.y),
            crate::geometry::dist_sq(q.p0, q.p3) == crate::geometry::sq(q.p0.x - q.p3.x)
                + crate::geometry::sq(q.p0.y - q.p3.y),
            crate::geometry::dist_sq(q.p1, q.p2) == crate::geometry::sq(q.p1.x - q.p2.x)
                + crate::geometry::sq(q.p1.y - q.p2.y),
            forall|n: int| crate::geometry::sq(n) == n * n,
    ;
    assert(spec_width_sq(q) == wd * wd && spec_height_sq(q) == hd * hd);
    assert(wd * wd >= 1 && hd * hd >= 1) by (nonlinear_arith)
        requires
            wd >= 1,
            hd >= 1,
    ;
    assert(rectification_ok(q, ExpansionPolicy::AsIs));
    assert(is_isqrt(wd * wd, wd) && is_isqrt(hd * hd, hd)) by (nonlinear_arith)
        requires
            wd >= 1,
            hd >= 1,
    ;
    crate::geometry::lemma_isqrt_of(wd * wd, wd);
    crate::geometry::lemma_isqrt_of(hd * hd, hd);
    let tw = spec_isqrt(spec_width_sq(q));
    let th = spec_isqrt(spec_height_sq(q));
    assert(tw == wd && th == hd);
    assert(extract_width(q, ExpansionPolicy::AsIs) == wd);
    assert(extract_height(q, ExpansionPolicy::AsIs) == hd);
    lemma_coeff_bounds(q);
    let hom = spec_homography(q);
    let dl = crate::warp::spec_hdelta(q);
    assert(crate::warp::spec_sx(q) == 0 && crate::warp::spec_sy(q) == 0);
    assert(crate::warp::spec_gw(q) == 0 && crate::warp::spec_hh(q) == 0) by (nonlinear_arith)
        requires
            crate::warp::spec_sx(q) == 0,
            crate::warp::spec_sy(q) == 0,
            crate::warp::spec_gw(q) == crate::warp::spec_sx(q) * (q.p3.y - q.p2.y)
                - crate::warp::spec_sy(q) * (q.p3.x - q.p2.x),
            crate::warp::spec_hh(q) == (q.p1.x - q.p2.x) * crate::warp::spec_sy(q) - (q.p1.y
                - q.p2.y) * crate::warp::spec_sx(q),
    ;
    assert(crate::warp::spec_cx(q) == 0 && crate::warp::spec_cy(q) == 0) by (nonlinear_arith)
        requires
            q.p0.x == 0,
            q.p0.y == 0,
            crate::warp::spec_cx(q) == q.p0.x * crate::warp::spec_hdelta(q),
            crate::warp::spec_cy(q) == q.p0.y * crate::warp::spec_hdelta(q),
    ;
    let gg = wd * hd;
    assert(crate::warp::spec_aw(q) == -(wd * gg) && crate::warp::spec_bh(q) == 0
        && crate::warp::spec_ay(q) == 0 && crate::warp::spec_by(q) == -(hd
        * gg)) by (nonlinear_arith)
        requires
            gg == wd * hd,
            dl == -gg,
            q.p1.x == wd,
            q.p1.y == 0,
            q.p3.x == 0,
            q.p3.y == hd,
            crate::warp::spec_gw(q) == 0,
            crate::warp::spec_hh(q) == 0,
            crate::warp::spec_cx(q) == 0,
            crate::warp::spec_cy(q) == 0,
            crate::warp::spec_aw(q) == q.p1.x * (crate::warp::spec_gw(q)
                + crate::warp::spec_hdelta(q)) - crate::warp::spec_cx(q),
            crate::warp::spec_bh(q) == q.p3.x * (crate::warp::spec_hh(q)
                + crate::warp::spec_hdelta(q)) - crate::warp::spec_cx(q),
            crate::warp::spec_ay(q) == q.p1.y * (crate::warp::spec_gw(q)
                + crate::warp::spec_hdelta(q)) - crate::warp::spec_cy(q),
            crate::warp::spec_by(q) == q.p3.y * (crate::warp::spec_hh(q)
                + crate::warp::spec_hdelta(q)) - crate::warp::spec_cy(q),
            crate::warp::spec_hdelta(q) == dl,
    ;
    let target = extracted_seq(src, q, ExpansionPolicy::AsIs);
    assert(target.len() == wd * hd);
    assert forall|i: int| 0 <= i < src.data@.len() implies target[i] == src.data@[i] by {
        crate::raster::lemma_grid_index(wd, hd, i);
        let u = i % wd;
        let v = i / wd;
        assert(target[i] == spec_sample(src, hom, wd, hd, u, v));
        let nx = hom.aw * u * hd + hom.bh * v * wd + hom.cx * wd * hd;
        let ny = hom.ey * u * hd + hom.fy * v * wd + hom.cy * wd * hd;
        let dv = hom.gw * u * hd + hom.hh * v * wd + hom.delta * wd * hd;
        assert(nx == -((gg * gg) * u) && ny == -((gg * gg) * v) && dv == -(gg
            * gg)) by (nonlinear_arith)
            requires
                nx == hom.aw * u * hd + hom.bh * v * wd + hom.cx * wd * hd,
                ny == hom.ey * u * hd + hom.fy * v * wd + hom.cy * wd * hd,
                dv == hom.gw * u * hd + hom.hh * v * wd + hom.delta * wd * hd,
                hom.aw == -(wd * gg),
                hom.bh == 0,
                hom.cx == 0,
                hom.ey == 0,
                hom.fy == -(hd * gg),
                hom.cy == 0,
                hom.gw == 0,
                hom.hh == 0,
                hom.delta == -gg,
                gg == wd * hd,
        ;
        assert(gg * gg >= 1 && (gg * gg) * u >= 0 && (gg * gg) * v >= 0) by (nonlinear_arith)
            requires
                gg >= 1,
                u >= 0,
                v >= 0,
        ;
        let dp = gg * gg;
        assert(dv < 0);
        assert(dp * u <= (wd - 1) * dp && dp * v <= (hd - 1) * dp) by (nonlinear_arith)
            requires
                dp >= 1,
                0 <= u <= wd - 1,
                0 <= v <= hd - 1,
        ;
        assert((dp * u) / dp == u && (dp * u) % dp == 0 && (dp * v) / dp == v && (dp * v) % dp == 0
            && 0int / dp == 0) by (nonlinear_arith)
            requires
                dp >= 1,
                u >= 0,
                v >= 0,
        ;
        assert(src.pix_or_zero(u, v) == src.data@[i]);
        let p00 = src.pix_or_zero(u, v) as int;
        let p10 = src.pix_or_zero(u + 1, v) as int;
        let p01 = src.pix_or_zero(u, v + 1) as int;
        let p11 = src.pix_or_zero(u + 1, v + 1) as int;
        assert((256 - 0) * (256 - 0) * p00 + 0 * (256 - 0) * p10 + (256 - 0) * 0 * p01 + 0 * 0 * p11
            == 65536 * p00) by (nonlinear_arith);
        assert((65536 * p00 + 32768) / 65536 == p00) by (nonlinear_arith)
            requires
                0 <= p00 <= 255,
        ;
        assert(spec_sample(src, hom, wd, hd, u, v) == src.data@[i]);
    }
    assert(extracted_seq(src, q, ExpansionPolicy::AsIs) =~= src.data@);
}

} // verus!\n