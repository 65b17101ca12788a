//! Enhancement strategy set: interchangeable raster-to-raster transforms
//! that improve a rectified crop's suitability for symbol decoding.
//!
//! Every strategy is a pure function: the input raster is read only, and
//! a freshly allocated raster of the same dimensions is returned.  The
//! family is selected by an `EnhancementConfig` value chosen once per
//! pipeline run:
//!
//! - `GlobalContrast`: plain histogram equalization.
//! - `AdaptiveLocalContrast`: histogram equalization local to horizontal
//!   bands with a clip limit, followed by a light binomial denoising
//!   blur; the band shape keeps the equalization local while following
//!   the row structure of upright barcodes.
//! - `GradientEmphasis`: central-difference gradient magnitude, either
//!   thresholded directly or blended with the equalized base.
//! - `MorphologicalClose`: dilation followed by erosion with an
//!   elongated rectangular structuring element, bridging small gaps in
//!   bar edges.
//! - `ScaleEnhanceRescale`: replicate-upscale by an integer factor, run
//!   one of the strategies above at the larger size, then box-average
//!   back down to the original size.

use vstd::arithmetic::div_mod::{lemma_fundamental_div_mod, lemma_fundamental_div_mod_converse};
use vstd::prelude::*;

use crate::raster::Raster;

verus! {

/// A clip limit so large that no histogram bin ever reaches it: with
/// this limit, clipped equalization is plain equalization.
pub const CLIP_NONE: u64 = 0xFFFF_FFFF_FFFF_FFFF;

/// How `GradientEmphasis` turns a gradient magnitude into a sample.
#[derive(Clone, Copy, Debug, PartialEq, Eq, Structural)]
pub enum GradientMode {
    /// Samples with magnitude at least the bound become white, the rest
    /// black.
    Threshold(u8),
    /// Blend `weight/255` of the magnitude with the equalized base.
    Blend(u8),
}

/// One enhancement transform.
#[derive(Clone, Copy, Debug, PartialEq, Eq, Structural)]
pub enum BaseStrategy {
    /// Histogram equalization of the whole raster.
    GlobalContrast,
    /// Band-local clipped equalization followed by a denoising blur.
    AdaptiveLocalContrast { band: usize, clip_limit: u64 },
    /// Gradient extraction, thresholded or blended back.
    GradientEmphasis { combine_axes: bool, mode: GradientMode },
    /// Closing with a `kernel_w` by `kernel_h` structuring element.
    MorphologicalClose { kernel_w: usize, kernel_h: usize },
}

/// The strategy applied per pipeline run: one of the base strategies,
/// possibly wrapped in an upscale/enhance/downscale round trip.
#[derive(Clone, Copy, Debug, PartialEq, Eq, Structural)]
pub enum EnhancementConfig {
    Single(BaseStrategy),
    ScaleEnhanceRescale { factor: usize, inner: BaseStrategy },
}

impl BaseStrategy {
    /// The numeric parameters make sense and are small enough for the
    /// arithmetic below.
    pub open spec fn valid(self) -> bool {
        match self {
            BaseStrategy::GlobalContrast => true,
            BaseStrategy::AdaptiveLocalContrast { band, clip_limit } => 1 <= band
                && 1 <= clip_limit,
            BaseStrategy::GradientEmphasis { .. } => true,
            BaseStrategy::MorphologicalClose { kernel_w, kernel_h } => 1 <= kernel_w <= 0x4000
                && 1 <= kernel_h <= 0x4000,
        }
    }
}

impl EnhancementConfig {
    /// The configuration's parameters make sense.
    pub open spec fn valid(self) -> bool {
        match self {
            EnhancementConfig::Single(b) => b.valid(),
            EnhancementConfig::ScaleEnhanceRescale { factor, inner } => 1 <= factor <= 16
                && inner.valid(),
        }
    }

    /// The configuration can be applied to a raster of the given
    /// dimensions without the intermediate rasters outgrowing the
    /// supported sample count.
    pub open spec fn fits(self, w: int, h: int) -> bool {
        match self {
            EnhancementConfig::Single(_) => w * h <= 0xFFFF_FFFF && w <= 0x1000_0000 && h
                <= 0x1000_0000,
            EnhancementConfig::ScaleEnhanceRescale { factor, inner } => (w * factor) * (h * factor)
                <= 0xFFFF_FFFF && w * factor <= 0x1000_0000 && h * factor <= 0x1000_0000,
        }
    }
}

/// How many samples of `s` hold the value `v`.
pub open spec fn count_val(s: Seq<u8>, v: u8) -> int
    decreases s.len(),
{
    if s.len() == 0 {
        0
    } else {
        count_val(s.drop_last(), v) + if s.last() == v {
            1int
        } else {
            0
        }
    }
}

/// Appending one sample raises exactly that sample's count by one.
pub proof fn lemma_count_push(s: Seq<u8>, p: u8, v: u8)
    ensures
        count_val(s.push(p), v) == count_val(s, v) + if p == v {
            1int
        } else {
            0
        },
{
    let t = s.push(p);
    assert(t.drop_last() =~= s);
    assert(t.last() == p);
}

/// A value's count never exceeds the sample count.
pub proof fn lemma_count_le_len(s: Seq<u8>, v: u8)
    ensures
        0 <= count_val(s, v) <= s.len(),
    decreases s.len(),
{
    if s.len() != 0 {
        lemma_count_le_len(s.drop_last(), v);
    }
}

/// The clipped cumulative histogram of `s` up to value `v`: for each
/// value not above `v`, its count capped at `clip`, summed.
pub open spec fn cum(s: Seq<u8>, v: int, clip: int) -> int
    decreases v + 1,
{
    if v < 0 {
        0
    } else {
        let c = count_val(s, v as u8);
        cum(s, v - 1, clip) + if c < clip {
            c
        } else {
            clip
        }
    }
}

/// The clipped cumulative histogram is nonnegative.
pub proof fn lemma_cum_nonneg(s: Seq<u8>, clip: int, v: int)
    requires
        clip >= 0,
    ensures
        0 <= cum(s, v, clip),
    decreases (if v < 0 {
        0int
    } else {
        v + 1
    }),
{
    if v >= 0 {
        lemma_cum_nonneg(s, clip, v - 1);
        lemma_count_le_len(s, v as u8);
    }
}

/// The clipped cumulative histogram is nonnegative and nondecreasing.
pub proof fn lemma_cum_mono(s: Seq<u8>, clip: int, v1: int, v2: int)
    requires
        clip >= 0,
        v1 <= v2,
    ensures
        0 <= cum(s, v1, clip) <= cum(s, v2, clip),
    decreases (if v2 < 0 {
        0int
    } else {
        v2 + 1
    }),
{
    if v2 < 0 {
    } else if v1 == v2 {
        lemma_cum_nonneg(s, clip, v1);
    } else {
        lemma_cum_mono(s, clip, v1, v2 - 1);
        lemma_count_le_len(s, v2 as u8);
    }
}

/// The smallest sample value present in `s` from `lo` upward, or 255.
pub open spec fn minv_from(s: Seq<u8>, lo: int) -> int
    decreases 256 - lo,
{
    if lo >= 255 {
        255
    } else if count_val(s, lo as u8) > 0 {
        lo
    } else {
        minv_from(s, lo + 1)
    }
}

/// The smallest sample value present in `s`, or 255 for an empty `s`.
pub open spec fn minv(s: Seq<u8>) -> int {
    minv_from(s, 0)
}

/// Scanning past absent values does not change the minimum.
pub proof fn lemma_minv_skip(s: Seq<u8>, lo: int)
    requires
        0 <= lo <= 255,
        forall|w: u8| (w as int) < lo ==> count_val(s, w) == 0,
    ensures
        minv(s) == minv_from(s, lo),
    decreases lo,
{
    if lo > 0 {
        lemma_minv_skip(s, lo - 1);
    }
}

/// Below the first present value the cumulative histogram is zero.
pub proof fn lemma_cum_zero(s: Seq<u8>, clip: int, v: int)
    requires
        clip >= 1,
        forall|w: u8| (w as int) <= v ==> count_val(s, w) == 0,
    ensures
        cum(s, v, clip) == 0,
    decreases v + 1,
{
    if v >= 0 {
        lemma_cum_zero(s, clip, v - 1);
    }
}

/// The clipped equalization map of `s`: the value a sample `v` is
/// replaced with.  `t` is the clipped total, `m` the clipped mass at
/// the smallest present value; when the two are equal (flat or empty
/// input) the map is the identity.
pub open spec fn eq_map_val(s: Seq<u8>, clip: int, v: int) -> int {
    let t = cum(s, 255, clip);
    let m = cum(s, minv(s), clip);
    if t > m {
        if cum(s, v, clip) <= m {
            0
        } else {
            ((cum(s, v, clip) - m) * 255) / (t - m)
        }
    } else {
        v
    }
}

/// A scaled ratio of a part to the whole stays below the scale.
proof fn lemma_ratio_le(a: int, b: int, d: int)
    by (nonlinear_arith)
    requires
        0 <= a <= b,
        0 < d,
        b <= d,
    ensures
        0 <= (a * 255) / d <= 255,
{
}

/// The equalization map sends byte values to byte values.
pub proof fn lemma_eq_map_range(s: Seq<u8>, clip: int, v: int)
    requires
        clip >= 1,
        0 <= v <= 255,
    ensures
        0 <= eq_map_val(s, clip, v) <= 255,
{
    let t = cum(s, 255, clip);
    let m = cum(s, minv(s), clip);
    if t > m {
        let c = cum(s, v, clip);
        if c > m {
            lemma_cum_mono(s, clip, v, 255);
            lemma_ratio_le(c - m, t - m, t - m);
        }
    }
}

/// The whole raster equalized: each sample replaced by its map value.
pub open spec fn equalized_seq(s: Seq<u8>, clip: int) -> Seq<u8> {
    Seq::new(s.len(), |i: int| eq_map_val(s, clip, s[i] as int) as u8)
}

/// Counts how often each sample value occurs in `data[lo..hi]`.
fn histogram_range(data: &Vec<u8>, lo: usize, hi: usize) -> (hist: Vec<u64>)
    requires
        lo <= hi <= data@.len(),
        hi - lo <= 0xFFFF_FFFF,
    ensures
        hist@.len() == 256,
        forall|v: int|
            0 <= v < 256 ==> hist@[v] == count_val(data@.subrange(lo as int, hi as int), v as u8),
{
    let mut hist: Vec<u64> = Vec::new();
    let mut k: usize = 0;
    while k < 256
        invariant
            k <= 256,
            hist@.len() == k,
            forall|v: int| 0 <= v < k ==> hist@[v] == 0,
        decreases 256 - k,
    {
        hist.push(0);
        k = k + 1;
    }
    proof {
        assert forall|v: int|
            0 <= v < 256 implies hist@[v] == count_val(
            data@.subrange(lo as int, lo as int),
            v as u8,
        ) by {
            assert(data@.subrange(lo as int, lo as int) =~= Seq::<u8>::empty());
        }
    }
    let mut i: usize = lo;
    while i < hi
        invariant
            lo <= i <= hi <= data@.len(),
            hi - lo <= 0xFFFF_FFFF,
            hist@.len() == 256,
            forall|v: int|
                0 <= v < 256 ==> hist@[v] == count_val(data@.subrange(lo as int, i as int), v as u8),
            forall|v: int| 0 <= v < 256 ==> hist@[v] <= i - lo,
        decreases hi - i,
    {
        let p = data[i];
        let old_count = hist[p as usize];
        hist.set(p as usize, old_count + 1);
        proof {
            let pre = data@.subrange(lo as int, i as int);
            let post = data@.subrange(lo as int, i + 1);
            assert(post =~= pre.push(data@[i as int]));
            assert forall|v: int| 0 <= v < 256 implies hist@[v] == count_val(post, v as u8) by {
                lemma_count_push(pre, data@[i as int], v as u8);
            }
        }
        i = i + 1;
    }
    hist
}

/// Counts how often each sample value occurs.
fn histogram(data: &Vec<u8>) -> (hist: Vec<u64>)
    requires
        data@.len() <= 0xFFFF_FFFF,
    ensures
        hist@.len() == 256,
        forall|v: int| 0 <= v < 256 ==> hist@[v] == count_val(data@, v as u8),
{
    let n = data.len();
    let hist = histogram_range(data, 0, n);
    proof {
        assert(data@.subrange(0, n as int) =~= data@);
    }
    hist
}

/// Builds the 256-entry clipped equalization lookup table.
fn build_eq_map(hist: &Vec<u64>, clip: u64, Ghost(s): Ghost<Seq<u8>>) -> (map: Vec<u8>)
    requires
        hist@.len() == 256,
        forall|v: int| 0 <= v < 256 ==> hist@[v] == count_val(s, v as u8),
        forall|v: int| 0 <= v < 256 ==> hist@[v] <= 0xFFFF_FFFF,
        clip >= 1,
    ensures
        map@.len() == 256,
        forall|v: int| 0 <= v < 256 ==> map@[v] == eq_map_val(s, clip as int, v) as u8,
{
    let mut t: u64 = 0;
    let mut v: usize = 0;
    while v < 256
        invariant
            hist@.len() == 256,
            forall|w: int| 0 <= w < 256 ==> hist@[w] == count_val(s, w as u8),
            forall|w: int| 0 <= w < 256 ==> hist@[w] <= 0xFFFF_FFFF,
            v <= 256,
            t == cum(s, v as int - 1, clip as int),
            t <= (v as int) * 0xFFFF_FFFF,
        decreases 256 - v,
    {
        let c = hist[v];
        let term = if c < clip {
            c
        } else {
            clip
        };
        t = t + term;
        v = v + 1;
    }
    let mut mv: usize = 0;
    while mv < 255 && hist[mv] == 0
        invariant
            hist@.len() == 256,
            forall|w: int| 0 <= w < 256 ==> hist@[w] == count_val(s, w as u8),
            mv <= 255,
            forall|w: u8| (w as int) < mv ==> count_val(s, w) == 0,
        decreases 255 - mv,
    {
        mv = mv + 1;
    }
    proof {
        lemma_minv_skip(s, mv as int);
        assert(minv(s) == mv as int);
        if mv > 0 {
            lemma_cum_zero(s, clip as int, mv as int - 1);
        } else {
            assert(cum(s, -1, clip as int) == 0);
        }
    }
    let cmv = hist[mv];
    let m: u64 = if cmv < clip {
        cmv
    } else {
        clip
    };
    proof {
        assert(m == cum(s, minv(s), clip as int));
        lemma_cum_mono(s, clip as int, minv(s), 255);
    }
    let mut map: Vec<u8> = Vec::new();
    let mut c: u64 = 0;
    let mut v2: usize = 0;
    while v2 < 256
        invariant
            hist@.len() == 256,
            forall|w: int| 0 <= w < 256 ==> hist@[w] == count_val(s, w as u8),
            forall|w: int| 0 <= w < 256 ==> hist@[w] <= 0xFFFF_FFFF,
            clip >= 1,
            v2 <= 256,
            c == cum(s, v2 as int - 1, clip as int),
            c <= (v2 as int) * 0xFFFF_FFFF,
            t == cum(s, 255, clip as int),
            m == cum(s, minv(s), clip as int),
            m <= t,
            map@.len() == v2,
            forall|w: int| 0 <= w < v2 ==> map@[w] == eq_map_val(s, clip as int, w) as u8,
        decreases 256 - v2,
    {
        let cc = hist[v2];
        let term = if cc < clip {
            cc
        } else {
            clip
        };
        c = c + term;
        proof {
            lemma_cum_mono(s, clip as int, v2 as int, 255);
        }
        let entry: u8 = if t > m {
            if c <= m {
                0
            } else {
                proof {
                    lemma_ratio_le(c as int - m, t as int - m, t as int - m);
                }
                (((c - m) * 255) / (t - m)) as u8
            }
        } else {
            v2 as u8
        };
        map.push(entry);
        v2 = v2 + 1;
    }
    map
}

/// Replaces each sample by its lookup-table value.
fn map_values(data: &Vec<u8>, map: &Vec<u8>) -> (out: Vec<u8>)
    requires
        map@.len() == 256,
    ensures
        out@.len() == data@.len(),
        forall|i: int| 0 <= i < data@.len() ==> out@[i] == map@[data@[i] as int],
{
    let n = data.len();
    let mut out: Vec<u8> = Vec::new();
    let mut i: usize = 0;
    while i < n
        invariant
            n == data@.len(),
            map@.len() == 256,
            i <= n,
            out@.len() == i,
            forall|k: int| 0 <= k < i ==> out@[k] == map@[data@[k] as int],
        decreases n - i,
    {
        out.push(map[data[i] as usize]);
        i = i + 1;
    }
    out
}

/// An index clamped into `[0, n)`.
pub open spec fn clampi(i: int, n: int) -> int {
    if i < 0 {
        0
    } else if i >= n {
        n - 1
    } else {
        i
    }
}

/// The sample at column `x` of row `y` of a row-major grid of width `w`.
pub open spec fn pix_at(s: Seq<u8>, w: int, x: int, y: int) -> u8 {
    crate::raster::pix_at(s, w, x, y)
}

/// The magnitude of `n`.
pub open spec fn absi(n: int) -> int {
    if n < 0 {
        -n
    } else {
        n
    }
}

/// Central-difference gradient magnitude at `(x, y)`, with border
/// samples replicated; the horizontal and vertical differences are
/// summed and capped at 255 when both axes are combined.
pub open spec fn grad_mag(s: Seq<u8>, w: int, h: int, combine: bool, x: int, y: int) -> int {
    let gx = absi(pix_at(s, w, clampi(x + 1, w), y) - pix_at(s, w, clampi(x - 1, w), y));
    let gy = absi(pix_at(s, w, x, clampi(y + 1, h)) - pix_at(s, w, x, clampi(y - 1, h)));
    if combine {
        if gx + gy > 255 {
            255
        } else {
            gx + gy
        }
    } else {
        gx
    }
}

/// One `GradientEmphasis` output sample.
pub open spec fn grad_pix(
    s: Seq<u8>,
    w: int,
    h: int,
    combine: bool,
    mode: GradientMode,
    x: int,
    y: int,
) -> u8 {
    let g = grad_mag(s, w, h, combine, x, y);
    match mode {
        GradientMode::Threshold(t) => if g >= t {
            255
        } else {
            0
        },
        GradientMode::Blend(wgt) => ((wgt * g + (255 - wgt) * eq_map_val(
            s,
            CLIP_NONE as int,
            pix_at(s, w, x, y) as int,
        )) / 255) as u8,
    }
}

/// The whole raster under `GradientEmphasis`.
pub open spec fn gradient_seq(s: Seq<u8>, w: int, h: int, combine: bool, mode: GradientMode) -> Seq<
    u8,
> {
    Seq::new(s.len(), |i: int| grad_pix(s, w, h, combine, mode, i % w, i / w))
}

/// One sample of the 3-by-3 binomial denoising blur, with border samples
/// replicated.
pub open spec fn blur_pix(s: Seq<u8>, w: int, h: int, x: int, y: int) -> u8 {
    let xl = clampi(x - 1, w);
    let xr = clampi(x + 1, w);
    let yu = clampi(y - 1, h);
    let yd = clampi(y + 1, h);
    let total = pix_at(s, w, xl, yu) + 2 * pix_at(s, w, x, yu) + pix_at(s, w, xr, yu) + 2 * pix_at(
        s,
        w,
        xl,
        y,
    ) + 4 * pix_at(s, w, x, y) + 2 * pix_at(s, w, xr, y) + pix_at(s, w, xl, yd) + 2 * pix_at(
        s,
        w,
        x,
        yd,
    ) + pix_at(s, w, xr, yd);
    ((total + 8) / 16) as u8
}

/// The whole raster blurred.
pub open spec fn blurred_seq(s: Seq<u8>, w: int, h: int) -> Seq<u8> {
    Seq::new(s.len(), |i: int| blur_pix(s, w, h, i % w, i / w))
}

/// Clamps `c + 1` into the grid.
fn clamp_up(c: usize, n: usize) -> (r: usize)
    requires
        c < n,
    ensures
        r == clampi(c as int + 1, n as int),
{
    if c + 1 >= n {
        n - 1
    } else {
        c + 1
    }
}

/// Clamps `c - 1` into the grid.
fn clamp_down(c: usize, n: usize) -> (r: usize)
    requires
        c < n,
    ensures
        r == clampi(c as int - 1, n as int),
{
    if c == 0 {
        0
    } else {
        c - 1
    }
}

/// Gradient extraction with thresholding or blending.
pub fn gradient_emphasis(r: &Raster, combine_axes: bool, mode: GradientMode) -> (out: Raster)
    requires
        r.wf(),
        r.width * r.height <= 0xFFFF_FFFF,
    ensures
        out.wf(),
        out.width == r.width,
        out.height == r.height,
        out.data@ == gradient_seq(r.data@, r.width as int, r.height as int, combine_axes, mode),
{
    let w = r.width;
    let h = r.height;
    let hist = histogram(&r.data);
    proof {
        assert forall|v: int| 0 <= v < 256 implies hist@[v] <= 0xFFFF_FFFF by {
            lemma_count_le_len(r.data@, v as u8);
        }
    }
    let map = build_eq_map(&hist, CLIP_NONE, Ghost(r.data@));
    let ghost target = gradient_seq(r.data@, w as int, h as int, combine_axes, mode);
    let mut data: Vec<u8> = Vec::new();
    let mut y: usize = 0;
    while y < h
        invariant
            r.wf(),
            w == r.width,
            h == r.height,
            w * h <= 0xFFFF_FFFF,
            map@.len() == 256,
            forall|v: int| 0 <= v < 256 ==> map@[v] == eq_map_val(r.data@, CLIP_NONE as int, v) as u8,
            target == gradient_seq(r.data@, w as int, h as int, combine_axes, mode),
            y <= h,
            data@.len() == y * w,
            forall|k: int| 0 <= k < data@.len() ==> data@[k] == target[k],
        decreases h - y,
    {
        let mut x: usize = 0;
        while x < w
            invariant
                r.wf(),
                w == r.width,
                h == r.height,
                w * h <= 0xFFFF_FFFF,
                map@.len() == 256,
                forall|v: int|
                    0 <= v < 256 ==> map@[v] == eq_map_val(r.data@, CLIP_NONE as int, v) as u8,
                target == gradient_seq(r.data@, w as int, h as int, combine_axes, mode),
                y < h,
                x <= w,
                data@.len() == y * w + x,
                forall|k: int| 0 <= k < data@.len() ==> data@[k] == target[k],
            decreases w - x,
        {
            proof {
                assert(y * w + x < w * h) by (nonlinear_arith)
                    requires
                        0 <= x < w,
                        0 <= y < h,
                ;
                assert(y * w + w <= w * h) by (nonlinear_arith)
                    requires
                        0 <= y < h,
                ;
            }
            let pl = r.get(clamp_down(x, w), y);
            let pr = r.get(clamp_up(x, w), y);
            let pu = r.get(x, clamp_down(y, h));
            let pd = r.get(x, clamp_up(y, h));
            let gx: u32 = if pr >= pl {
                (pr - pl) as u32
            } else {
                (pl - pr) as u32
            };
            let gy: u32 = if pd >= pu {
                (pd - pu) as u32
            } else {
                (pu - pd) as u32
            };
            let g: u32 = if combine_axes {
                if gx + gy > 255 {
                    255
                } else {
                    gx + gy
                }
            } else {
                gx
            };
            let entry: u8 = match mode {
                GradientMode::Threshold(t) => {
                    if g >= t as u32 {
                        255
                    } else {
                        0
                    }
                },
                GradientMode::Blend(wgt) => {
                    let e = map[r.get(x, y) as usize] as u32;
                    proof {
                        lemma_eq_map_range(
                            r.data@,
                            CLIP_NONE as int,
                            r.pix(x as int, y as int) as int,
                        );
                        assert((wgt as int) * g + (255 - wgt as int) * e <= 255 * 255)
                            by (nonlinear_arith)
                            requires
                                0 <= g <= 255,
                                0 <= e <= 255,
                                0 <= (wgt as int) <= 255,
                        ;
                        assert((wgt as int) * g + (255 - wgt as int) * e >= 0) by (nonlinear_arith)
                            requires
                                0 <= g,
                                0 <= e,
                                0 <= (wgt as int) <= 255,
                        ;
                    }
                    (((wgt as u32) * g + (255 - wgt as u32) * e) / 255) as u8
                },
            };
            let ghost k = data@.len() as int;
            data.push(entry);
            proof {
                lemma_fundamental_div_mod_converse(k, w as int, y as int, x as int);
                assert(entry == target[k]);
            }
            x = x + 1;
        }
        y = y + 1;
        proof {
            assert(y * w == (y - 1) * w + w) by (nonlinear_arith);
        }
    }
    proof {
        assert(data@.len() == h * w);
        assert(h * w == w * h) by (nonlinear_arith);
    }
    let out = Raster { width: w, height: h, data };
    proof {
        assert(out.data@ =~= gradient_seq(r.data@, w as int, h as int, combine_axes, mode));
    }
    out
}

/// The 3-by-3 binomial denoising blur.
pub fn blur3(r: &Raster) -> (out: Raster)
    requires
        r.wf(),
        r.width * r.height <= 0xFFFF_FFFF,
    ensures
        out.wf(),
        out.width == r.width,
        out.height == r.height,
        out.data@ == blurred_seq(r.data@, r.width as int, r.height as int),
{
    let w = r.width;
    let h = r.height;
    let ghost target = blurred_seq(r.data@, w as int, h as int);
    let mut data: Vec<u8> = Vec::new();
    let mut y: usize = 0;
    while y < h
        invariant
            r.wf(),
            w == r.width,
            h == r.height,
            w * h <= 0xFFFF_FFFF,
            target == blurred_seq(r.data@, w as int, h as int),
            y <= h,
            data@.len() == y * w,
            forall|k: int| 0 <= k < data@.len() ==> data@[k] == target[k],
        decreases h - y,
    {
        let mut x: usize = 0;
        while x < w
            invariant
                r.wf(),
                w == r.width,
                h == r.height,
                w * h <= 0xFFFF_FFFF,
                target == blurred_seq(r.data@, w as int, h as int),
                y < h,
                x <= w,
                data@.len() == y * w + x,
                forall|k: int| 0 <= k < data@.len() ==> data@[k] == target[k],
            decreases w - x,
        {
            proof {
                assert(y * w + x < w * h) by (nonlinear_arith)
                    requires
                        0 <= x < w,
                        0 <= y < h,
                ;
                assert(y * w + w <= w * h) by (nonlinear_arith)
                    requires
                        0 <= y < h,
                ;
            }
            let xl = clamp_down(x, w);
            let xr = clamp_up(x, w);
            let yu = clamp_down(y, h);
            let yd = clamp_up(y, h);
            let total: u32 = r.get(xl, yu) as u32 + 2 * r.get(x, yu) as u32 + r.get(xr, yu) as u32
                + 2 * r.get(xl, y) as u32 + 4 * r.get(x, y) as u32 + 2 * r.get(xr, y) as u32
                + r.get(xl, yd) as u32 + 2 * r.get(x, yd) as u32 + r.get(xr, yd) as u32;
            let entry: u8 = ((total + 8) / 16) as u8;
            let ghost k = data@.len() as int;
            data.push(entry);
            proof {
                lemma_fundamental_div_mod_converse(k, w as int, y as int, x as int);
                assert(entry == target[k]);
            }
            x = x + 1;
        }
        y = y + 1;
        proof {
            assert(y * w == (y - 1) * w + w) by (nonlinear_arith);
        }
    }
    proof {
        assert(h * w == w * h) by (nonlinear_arith);
    }
    let out = Raster { width: w, height: h, data };
    proof {
        assert(out.data@ =~= blurred_seq(r.data@, w as int, h as int));
    }
    out
}

/// Histogram equalization of the whole raster.
pub fn global_contrast(r: &Raster) -> (out: Raster)
    requires
        r.wf(),
        r.width * r.height <= 0xFFFF_FFFF,
    ensures
        out.wf(),
        out.width == r.width,
        out.height == r.height,
        out.data@ == equalized_seq(r.data@, CLIP_NONE as int),
{
    let hist = histogram(&r.data);
    proof {
        assert forall|v: int| 0 <= v < 256 implies hist@[v] <= 0xFFFF_FFFF by {
            lemma_count_le_len(r.data@, v as u8);
        }
    }
    let map = build_eq_map(&hist, CLIP_NONE, Ghost(r.data@));
    let data = map_values(&r.data, &map);
    let out = Raster { width: r.width, height: r.height, data };
    proof {
        assert(out.data@ =~= equalized_seq(r.data@, CLIP_NONE as int));
    }
    out
}

/// The larger of two samples.
pub open spec fn max8(a: u8, b: u8) -> u8 {
    if a >= b {
        a
    } else {
        b
    }
}

/// The smaller of two samples.
pub open spec fn min8(a: u8, b: u8) -> u8 {
    if a >= b {
        b
    } else {
        a
    }
}

/// First column of the structuring-element window centred at `c`.
pub open spec fn wlo(c: int, k: int) -> int {
    if c - k / 2 < 0 {
        0
    } else {
        c - k / 2
    }
}

/// Last column of the structuring-element window centred at `c`.
pub open spec fn whi(c: int, k: int, n: int) -> int {
    if c - k / 2 + k - 1 >= n {
        n - 1
    } else {
        c - k / 2 + k - 1
    }
}

/// Largest sample in columns `lo..=hi` of row `y`.
pub open spec fn seg_max(s: Seq<u8>, w: int, y: int, lo: int, hi: int) -> u8
    decreases hi - lo,
{
    if hi <= lo {
        pix_at(s, w, lo, y)
    } else {
        max8(seg_max(s, w, y, lo, hi - 1), pix_at(s, w, hi, y))
    }
}

/// Largest sample in the rectangle `xlo..=xhi` by `ylo..=yhi`.
pub open spec fn win_max(s: Seq<u8>, w: int, xlo: int, xhi: int, ylo: int, yhi: int) -> u8
    decreases yhi - ylo,
{
    if yhi <= ylo {
        seg_max(s, w, ylo, xlo, xhi)
    } else {
        max8(win_max(s, w, xlo, xhi, ylo, yhi - 1), seg_max(s, w, yhi, xlo, xhi))
    }
}

/// Smallest sample in columns `lo..=hi` of row `y`.
pub open spec fn seg_min(s: Seq<u8>, w: int, y: int, lo: int, hi: int) -> u8
    decreases hi - lo,
{
    if hi <= lo {
        pix_at(s, w, lo, y)
    } else {
        min8(seg_min(s, w, y, lo, hi - 1), pix_at(s, w, hi, y))
    }
}

/// Smallest sample in the rectangle `xlo..=xhi` by `ylo..=yhi`.
pub open spec fn win_min(s: Seq<u8>, w: int, xlo: int, xhi: int, ylo: int, yhi: int) -> u8
    decreases yhi - ylo,
{
    if yhi <= ylo {
        seg_min(s, w, ylo, xlo, xhi)
    } else {
        min8(win_min(s, w, xlo, xhi, ylo, yhi - 1), seg_min(s, w, yhi, xlo, xhi))
    }
}

/// The raster dilated by a `kw` by `kh` structuring element: each
/// sample replaced by the largest sample in its window.
pub open spec fn dilated_seq(s: Seq<u8>, w: int, h: int, kw: int, kh: int) -> Seq<u8> {
    Seq::new(
        s.len(),
        |i: int|
            win_max(s, w, wlo(i % w, kw), whi(i % w, kw, w), wlo(i / w, kh), whi(i / w, kh, h)),
    )
}

/// The raster eroded by a `kw` by `kh` structuring element.
pub open spec fn eroded_seq(s: Seq<u8>, w: int, h: int, kw: int, kh: int) -> Seq<u8> {
    Seq::new(
        s.len(),
        |i: int|
            win_min(s, w, wlo(i % w, kw), whi(i % w, kw, w), wlo(i / w, kh), whi(i / w, kh, h)),
    )
}

/// The morphological closing: dilation followed by erosion.
pub open spec fn closed_seq(s: Seq<u8>, w: int, h: int, kw: int, kh: int) -> Seq<u8> {
    eroded_seq(dilated_seq(s, w, h, kw, kh), w, h, kw, kh)
}

/// Window columns for a grid position.
fn window_cols(c: usize, k: usize, n: usize) -> (r: (usize, usize))
    requires
        c < n,
        1 <= k <= 0x4000,
        n <= 0x1000_0000,
    ensures
        r.0 == wlo(c as int, k as int),
        r.1 == whi(c as int, k as int, n as int),
        r.0 <= c <= r.1 < n,
{
    let half = k / 2;
    proof {
        assert(half <= k - 1);
    }
    let lo = if half > c {
        0
    } else {
        c - half
    };
    let hi0 = c + (k - 1 - half);
    let hi = if hi0 >= n {
        n - 1
    } else {
        hi0
    };
    (lo, hi)
}

/// One dilation window evaluated by scanning rows.
fn window_max(r: &Raster, xlo: usize, xhi: usize, ylo: usize, yhi: usize) -> (m: u8)
    requires
        r.wf(),
        xlo <= xhi < r.width,
        ylo <= yhi < r.height,
    ensures
        m == win_max(r.data@, r.width as int, xlo as int, xhi as int, ylo as int, yhi as int),
{
    let mut acc: u8 = r.get(xlo, ylo);
    let mut xx: usize = xlo + 1;
    while xx <= xhi
        invariant
            r.wf(),
            xlo <= xhi < r.width,
            ylo <= yhi < r.height,
            xlo < xx <= xhi + 1,
            acc == seg_max(r.data@, r.width as int, ylo as int, xlo as int, xx - 1),
        decreases xhi + 1 - xx,
    {
        let p = r.get(xx, ylo);
        acc = if acc >= p {
            acc
        } else {
            p
        };
        xx = xx + 1;
    }
    let mut yy: usize = ylo + 1;
    while yy <= yhi
        invariant
            r.wf(),
            xlo <= xhi < r.width,
            ylo <= yhi < r.height,
            ylo < yy <= yhi + 1,
            acc == win_max(r.data@, r.width as int, xlo as int, xhi as int, ylo as int, yy - 1),
        decreases yhi + 1 - yy,
    {
        let mut racc: u8 = r.get(xlo, yy);
        let mut xx2: usize = xlo + 1;
        while xx2 <= xhi
            invariant
                r.wf(),
                xlo <= xhi < r.width,
                ylo <= yhi < r.height,
                ylo < yy <= yhi,
                xlo < xx2 <= xhi + 1,
                racc == seg_max(r.data@, r.width as int, yy as int, xlo as int, xx2 - 1),
            decreases xhi + 1 - xx2,
        {
            let p = r.get(xx2, yy);
            racc = if racc >= p {
                racc
            } else {
                p
            };
            xx2 = xx2 + 1;
        }
        acc = if acc >= racc {
            acc
        } else {
            racc
        };
        yy = yy + 1;
    }
    acc
}

/// One erosion window evaluated by scanning rows.
fn window_min(r: &Raster, xlo: usize, xhi: usize, ylo: usize, yhi: usize) -> (m: u8)
    requires
        r.wf(),
        xlo <= xhi < r.width,
        ylo <= yhi < r.height,
    ensures
        m == win_min(r.data@, r.width as int, xlo as int, xhi as int, ylo as int, yhi as int),
{
    let mut acc: u8 = r.get(xlo, ylo);
    let mut xx: usize = xlo + 1;
    while xx <= xhi
        invariant
            r.wf(),
            xlo <= xhi < r.width,
            ylo <= yhi < r.height,
            xlo < xx <= xhi + 1,
            acc == seg_min(r.data@, r.width as int, ylo as int, xlo as int, xx - 1),
        decreases xhi + 1 - xx,
    {
        let p = r.get(xx, ylo);
        acc = if acc >= p {
            p
        } else {
            acc
        };
        xx = xx + 1;
    }
    let mut yy: usize = ylo + 1;
    while yy <= yhi
        invariant
            r.wf(),
            xlo <= xhi < r.width,
            ylo <= yhi < r.height,
            ylo < yy <= yhi + 1,
            acc == win_min(r.data@, r.width as int, xlo as int, xhi as int, ylo as int, yy - 1),
        decreases yhi + 1 - yy,
    {
        let mut racc: u8 = r.get(xlo, yy);
        let mut xx2: usize = xlo + 1;
        while xx2 <= xhi
            invariant
                r.wf(),
                xlo <= xhi < r.width,
                ylo <= yhi < r.height,
                ylo < yy <= yhi,
                xlo < xx2 <= xhi + 1,
                racc == seg_min(r.data@, r.width as int, yy as int, xlo as int, xx2 - 1),
            decreases xhi + 1 - xx2,
        {
            let p = r.get(xx2, yy);
            racc = if racc >= p {
                p
            } else {
                racc
            };
            xx2 = xx2 + 1;
        }
        acc = if acc >= racc {
            racc
        } else {
            acc
        };
        yy = yy + 1;
    }
    acc
}

/// Dilation by a `kw` by `kh` structuring element.
pub fn dilate(r: &Raster, kw: usize, kh: usize) -> (out: Raster)
    requires
        r.wf(),
        r.width * r.height <= 0xFFFF_FFFF,
        r.width <= 0x1000_0000,
        r.height <= 0x1000_0000,
        1 <= kw <= 0x4000,
        1 <= kh <= 0x4000,
    ensures
        out.wf(),
        out.width == r.width,
        out.height == r.height,
        out.data@ == dilated_seq(r.data@, r.width as int, r.height as int, kw as int, kh as int),
{
    let w = r.width;
    let h = r.height;
    let ghost target = dilated_seq(r.data@, w as int, h as int, kw as int, kh as int);
    let mut data: Vec<u8> = Vec::new();
    let mut y: usize = 0;
    while y < h
        invariant
            r.wf(),
            w == r.width,
            h == r.height,
            w * h <= 0xFFFF_FFFF,
            w <= 0x1000_0000,
            h <= 0x1000_0000,
            1 <= kw <= 0x4000,
            1 <= kh <= 0x4000,
            target == dilated_seq(r.data@, w as int, h as int, kw as int, kh as int),
            y <= h,
            data@.len() == y * w,
            forall|k: int| 0 <= k < data@.len() ==> data@[k] == target[k],
        decreases h - y,
    {
        let mut x: usize = 0;
        while x < w
            invariant
                r.wf(),
                w == r.width,
                h == r.height,
                w * h <= 0xFFFF_FFFF,
                w <= 0x1000_0000,
                h <= 0x1000_0000,
                1 <= kw <= 0x4000,
                1 <= kh <= 0x4000,
                target == dilated_seq(r.data@, w as int, h as int, kw as int, kh as int),
                y < h,
                x <= w,
                data@.len() == y * w + x,
                forall|k: int| 0 <= k < data@.len() ==> data@[k] == target[k],
            decreases w - x,
        {
            proof {
                assert(y * w + x < w * h) by (nonlinear_arith)
                    requires
                        0 <= x < w,
                        0 <= y < h,
                ;
                assert(y * w + w <= w * h) by (nonlinear_arith)
                    requires
                        0 <= y < h,
                ;
                assert(w <= 0xFFFF_FFFF && h <= 0xFFFF_FFFF) by (nonlinear_arith)
                    requires
                        0 <= x < w,
                        0 <= y < h,
                        w * h <= 0xFFFF_FFFF,
                ;
            }
            let (xlo, xhi) = window_cols(x, kw, w);
            let (ylo, yhi) = window_cols(y, kh, h);
            let entry = window_max(r, xlo, xhi, ylo, yhi);
            let ghost k = data@.len() as int;
            data.push(entry);
            proof {
                lemma_fundamental_div_mod_converse(k, w as int, y as int, x as int);
                assert(entry == target[k]);
            }
            x = x + 1;
        }
        y = y + 1;
        proof {
            assert(y * w == (y - 1) * w + w) by (nonlinear_arith);
        }
    }
    proof {
        assert(h * w == w * h) by (nonlinear_arith);
    }
    let out = Raster { width: w, height: h, data };
    proof {
        assert(out.data@ =~= dilated_seq(r.data@, w as int, h as int, kw as int, kh as int));
    }
    out
}

/// Erosion by a `kw` by `kh` structuring element.
pub fn erode(r: &Raster, kw: usize, kh: usize) -> (out: Raster)
    requires
        r.wf(),
        r.width * r.height <= 0xFFFF_FFFF,
        r.width <= 0x1000_0000,
        r.height <= 0x1000_0000,
        1 <= kw <= 0x4000,
        1 <= kh <= 0x4000,
    ensures
        out.wf(),
        out.width == r.width,
        out.height == r.height,
        out.data@ == eroded_seq(r.data@, r.width as int, r.height as int, kw as int, kh as int),
{
    let w = r.width;
    let h = r.height;
    let ghost target = eroded_seq(r.data@, w as int, h as int, kw as int, kh as int);
    let mut data: Vec<u8> = Vec::new();
    let mut y: usize = 0;
    while y < h
        invariant
            r.wf(),
            w == r.width,
            h == r.height,
            w * h <= 0xFFFF_FFFF,
            w <= 0x1000_0000,
            h <= 0x1000_0000,
            1 <= kw <= 0x4000,
            1 <= kh <= 0x4000,
            target == eroded_seq(r.data@, w as int, h as int, kw as int, kh as int),
            y <= h,
            data@.len() == y * w,
            forall|k: int| 0 <= k < data@.len() ==> data@[k] == target[k],
        decreases h - y,
    {
        let mut x: usize = 0;
        while x < w
            invariant
                r.wf(),
                w == r.width,
                h == r.height,
                w * h <= 0xFFFF_FFFF,
                w <= 0x1000_0000,
                h <= 0x1000_0000,
                1 <= kw <= 0x4000,
                1 <= kh <= 0x4000,
                target == eroded_seq(r.data@, w as int, h as int, kw as int, kh as int),
                y < h,
                x <= w,
                data@.len() == y * w + x,
                forall|k: int| 0 <= k < data@.len() ==> data@[k] == target[k],
            decreases w - x,
        {
            proof {
                assert(y * w + x < w * h) by (nonlinear_arith)
                    requires
                        0 <= x < w,
                        0 <= y < h,
                ;
                assert(y * w + w <= w * h) by (nonlinear_arith)
                    requires
                        0 <= y < h,
                ;
                assert(w <= 0xFFFF_FFFF && h <= 0xFFFF_FFFF) by (nonlinear_arith)
                    requires
                        0 <= x < w,
                        0 <= y < h,
                        w * h <= 0xFFFF_FFFF,
                ;
            }
            let (xlo, xhi) = window_cols(x, kw, w);
            let (ylo, yhi) = window_cols(y, kh, h);
            let entry = window_min(r, xlo, xhi, ylo, yhi);
            let ghost k = data@.len() as int;
            data.push(entry);
            proof {
                lemma_fundamental_div_mod_converse(k, w as int, y as int, x as int);
                assert(entry == target[k]);
            }
            x = x + 1;
        }
        y = y + 1;
        proof {
            assert(y * w == (y - 1) * w + w) by (nonlinear_arith);
        }
    }
    proof {
        assert(h * w == w * h) by (nonlinear_arith);
    }
    let out = Raster { width: w, height: h, data };
    proof {
        assert(out.data@ =~= eroded_seq(r.data@, w as int, h as int, kw as int, kh as int));
    }
    out
}

/// The raster upscaled by sample replication: position `(x, y)` of the
/// result holds the source sample at `(x / f, y / f)`.
pub open spec fn up_seq(s: Seq<u8>, w: int, f: int) -> Seq<u8> {
    Seq::new((s.len() * f * f) as nat, |i: int| pix_at(s, w, (i % (w * f)) / f, (i / (w * f)) / f))
}

/// Sum of the samples in columns `lo..=hi` of row `y`.
pub open spec fn row_sum(s: Seq<u8>, w: int, y: int, lo: int, hi: int) -> int
    decreases hi - lo,
{
    if hi <= lo {
        pix_at(s, w, lo, y) as int
    } else {
        row_sum(s, w, y, lo, hi - 1) + pix_at(s, w, hi, y)
    }
}

/// Sum of the samples in the rectangle `xlo..=xhi` by `ylo..=yhi`.
pub open spec fn blk_sum(s: Seq<u8>, w: int, xlo: int, xhi: int, ylo: int, yhi: int) -> int
    decreases yhi - ylo,
{
    if yhi <= ylo {
        row_sum(s, w, ylo, xlo, xhi)
    } else {
        blk_sum(s, w, xlo, xhi, ylo, yhi - 1) + row_sum(s, w, yhi, xlo, xhi)
    }
}

/// One downscaled sample: the rounded mean of an `f` by `f` block.
pub open spec fn down_pix(s: Seq<u8>, w: int, f: int, x: int, y: int) -> u8 {
    ((blk_sum(s, w, x * f, x * f + f - 1, y * f, y * f + f - 1) + (f * f) / 2) / (f * f)) as u8
}

/// The raster downscaled by block averaging to `tw` by `th`.
pub open spec fn down_seq(s: Seq<u8>, w: int, f: int, tw: int, th: int) -> Seq<u8> {
    Seq::new((tw * th) as nat, |i: int| down_pix(s, w, f, i % tw, i / tw))
}

/// A row segment's sum lies between zero and 255 per sample.
proof fn lemma_row_sum_range(s: Seq<u8>, w: int, y: int, lo: int, hi: int)
    requires
        lo <= hi,
    ensures
        0 <= row_sum(s, w, y, lo, hi) <= (hi - lo + 1) * 255,
    decreases hi - lo,
{
    if hi > lo {
        lemma_row_sum_range(s, w, y, lo, hi - 1);
    }
}

/// A block's sum lies between zero and 255 per sample.
proof fn lemma_blk_sum_range(s: Seq<u8>, w: int, xlo: int, xhi: int, ylo: int, yhi: int)
    requires
        xlo <= xhi,
        ylo <= yhi,
    ensures
        0 <= blk_sum(s, w, xlo, xhi, ylo, yhi) <= (yhi - ylo + 1) * ((xhi - xlo + 1) * 255),
    decreases yhi - ylo,
{
    lemma_row_sum_range(s, w, yhi, xlo, xhi);
    if yhi > ylo {
        lemma_blk_sum_range(s, w, xlo, xhi, ylo, yhi - 1);
        assert((yhi - ylo + 1) * ((xhi - xlo + 1) * 255) == (yhi - 1 - ylo + 1) * ((xhi - xlo + 1)
            * 255) + (xhi - xlo + 1) * 255) by (nonlinear_arith);
    }
}

/// Sum of an `f` by `f` block of samples.
fn block_total(r: &Raster, xlo: usize, xhi: usize, ylo: usize, yhi: usize) -> (t: u32)
    requires
        r.wf(),
        xlo <= xhi < r.width,
        ylo <= yhi < r.height,
        xhi - xlo <= 15,
        yhi - ylo <= 15,
    ensures
        t == blk_sum(r.data@, r.width as int, xlo as int, xhi as int, ylo as int, yhi as int),
        t <= 65280,
{
    proof {
        lemma_blk_sum_range(
            r.data@,
            r.width as int,
            xlo as int,
            xhi as int,
            ylo as int,
            yhi as int,
        );
        assert((yhi - ylo + 1) * ((xhi - xlo + 1) * 255) <= 65280) by (nonlinear_arith)
            requires
                0 <= yhi - ylo <= 15,
                0 <= xhi - xlo <= 15,
        ;
    }
    let mut acc: u32 = r.get(xlo, ylo) as u32;
    let mut xx: usize = xlo + 1;
    while xx <= xhi
        invariant
            r.wf(),
            xlo <= xhi < r.width,
            ylo <= yhi < r.height,
            xhi - xlo <= 15,
            xlo < xx <= xhi + 1,
            acc == row_sum(r.data@, r.width as int, ylo as int, xlo as int, xx - 1),
            acc <= 65280,
        decreases xhi + 1 - xx,
    {
        proof {
            lemma_row_sum_range(r.data@, r.width as int, ylo as int, xlo as int, xx as int);
            assert((xx - xlo + 1) * 255 <= 4080) by (nonlinear_arith)
                requires
                    0 <= xx - xlo <= 15,
            ;
        }
        acc = acc + r.get(xx, ylo) as u32;
        xx = xx + 1;
    }
    let mut yy: usize = ylo + 1;
    while yy <= yhi
        invariant
            r.wf(),
            xlo <= xhi < r.width,
            ylo <= yhi < r.height,
            xhi - xlo <= 15,
            yhi - ylo <= 15,
            ylo < yy <= yhi + 1,
            acc == blk_sum(r.data@, r.width as int, xlo as int, xhi as int, ylo as int, yy - 1),
            acc <= 65280,
        decreases yhi + 1 - yy,
    {
        let mut racc: u32 = r.get(xlo, yy) as u32;
        let mut xx2: usize = xlo + 1;
        while xx2 <= xhi
            invariant
                r.wf(),
                xlo <= xhi < r.width,
                ylo <= yhi < r.height,
                xhi - xlo <= 15,
                ylo < yy <= yhi,
                xlo < xx2 <= xhi + 1,
                racc == row_sum(r.data@, r.width as int, yy as int, xlo as int, xx2 - 1),
                racc <= 4080,
            decreases xhi + 1 - xx2,
        {
            proof {
                lemma_row_sum_range(r.data@, r.width as int, yy as int, xlo as int, xx2 as int);
                assert((xx2 - xlo + 1) * 255 <= 4080) by (nonlinear_arith)
                    requires
                        0 <= xx2 - xlo <= 15,
                ;
            }
            racc = racc + r.get(xx2, yy) as u32;
            xx2 = xx2 + 1;
        }
        proof {
            lemma_blk_sum_range(
                r.data@,
                r.width as int,
                xlo as int,
                xhi as int,
                ylo as int,
                yy as int,
            );
            assert((yy - ylo + 1) * ((xhi - xlo + 1) * 255) <= 65280) by (nonlinear_arith)
                requires
                    0 <= yy - ylo <= 15,
                    0 <= xhi - xlo <= 15,
            ;
        }
        acc = acc + racc;
        yy = yy + 1;
    }
    acc
}

/// Upscaling by sample replication.
pub fn upscale(r: &Raster, f: usize) -> (out: Raster)
    requires
        r.wf(),
        1 <= f <= 16,
        (r.width * f) * (r.height * f) <= 0xFFFF_FFFF,
        r.width * f <= 0x1000_0000,
        r.height * f <= 0x1000_0000,
    ensures
        out.wf(),
        out.width == r.width * f,
        out.height == r.height * f,
        out.data@ == up_seq(r.data@, r.width as int, f as int),
{
    let w = r.width;
    let h = r.height;
    let ow: usize = w * f;
    let oh: usize = h * f;
    let ghost target = up_seq(r.data@, w as int, f as int);
    proof {
        assert(target.len() == (w * h) * f * f);
        assert((w * h) * f * f == ow * oh) by (nonlinear_arith)
            requires
                ow == w * f,
                oh == h * f,
        ;
    }
    let mut data: Vec<u8> = Vec::new();
    let mut y: usize = 0;
    while y < oh
        invariant
            r.wf(),
            w == r.width,
            h == r.height,
            ow == w * f,
            oh == h * f,
            1 <= f <= 16,
            ow * oh <= 0xFFFF_FFFF,
            target == up_seq(r.data@, w as int, f as int),
            target.len() == ow * oh,
            y <= oh,
            data@.len() == y * ow,
            forall|k: int| 0 <= k < data@.len() ==> data@[k] == target[k],
        decreases oh - y,
    {
        let mut x: usize = 0;
        while x < ow
            invariant
                r.wf(),
                w == r.width,
                h == r.height,
                ow == w * f,
                oh == h * f,
                1 <= f <= 16,
                ow * oh <= 0xFFFF_FFFF,
                target == up_seq(r.data@, w as int, f as int),
                target.len() == ow * oh,
                y < oh,
                x <= ow,
                data@.len() == y * ow + x,
                forall|k: int| 0 <= k < data@.len() ==> data@[k] == target[k],
            decreases ow - x,
        {
            proof {
                assert(y * ow + x < ow * oh && y * ow + ow <= ow * oh) by (nonlinear_arith)
                    requires
                        0 <= x < ow,
                        0 <= y < oh,
                ;
                assert(x / f < w && y / f < h) by (nonlinear_arith)
                    requires
                        0 <= x < w * f,
                        0 <= y < h * f,
                        1 <= f,
                ;
            }
            let entry = r.get(x / f, y / f);
            let ghost k = data@.len() as int;
            data.push(entry);
            proof {
                lemma_fundamental_div_mod_converse(k, ow as int, y as int, x as int);
                assert(entry == target[k]);
            }
            x = x + 1;
        }
        y = y + 1;
        proof {
            assert(y * ow == (y - 1) * ow + ow) by (nonlinear_arith);
        }
    }
    proof {
        assert(oh * ow == ow * oh) by (nonlinear_arith);
    }
    let out = Raster { width: ow, height: oh, data };
    proof {
        assert(out.data@ =~= up_seq(r.data@, w as int, f as int));
        assert(out.data@.len() == out.width * out.height) by (nonlinear_arith)
            requires
                out.data@.len() == ow * oh,
                out.width == ow,
                out.height == oh,
        ;
    }
    out
}

/// Downscaling by block averaging.
pub fn downscale(r: &Raster, f: usize, tw: usize, th: usize) -> (out: Raster)
    requires
        r.wf(),
        1 <= f <= 16,
        r.width == tw * f,
        r.height == th * f,
        r.width * r.height <= 0xFFFF_FFFF,
    ensures
        out.wf(),
        out.width == tw,
        out.height == th,
        out.data@ == down_seq(r.data@, r.width as int, f as int, tw as int, th as int),
{
    let w = r.width;
    let h = r.height;
    let ghost target = down_seq(r.data@, w as int, f as int, tw as int, th as int);
    proof {
        assert(tw * th <= w * h) by (nonlinear_arith)
            requires
                w == tw * f,
                h == th * f,
                1 <= f,
                0 <= tw,
                0 <= th,
        ;
    }
    proof {
        assert(f * f <= 256) by (nonlinear_arith)
            requires
                1 <= f <= 16,
        ;
    }
    let ff: u32 = (f * f) as u32;
    let mut data: Vec<u8> = Vec::new();
    let mut y: usize = 0;
    while y < th
        invariant
            r.wf(),
            w == r.width,
            h == r.height,
            w == tw * f,
            h == th * f,
            1 <= f <= 16,
            w * h <= 0xFFFF_FFFF,
            ff == f * f,
            target == down_seq(r.data@, w as int, f as int, tw as int, th as int),
            target.len() == tw * th,
            y <= th,
            data@.len() == y * tw,
            forall|k: int| 0 <= k < data@.len() ==> data@[k] == target[k],
        decreases th - y,
    {
        let mut x: usize = 0;
        while x < tw
            invariant
                r.wf(),
                w == r.width,
                h == r.height,
                w == tw * f,
                h == th * f,
                1 <= f <= 16,
                w * h <= 0xFFFF_FFFF,
                ff == f * f,
                target == down_seq(r.data@, w as int, f as int, tw as int, th as int),
                target.len() == tw * th,
                y < th,
                x <= tw,
                data@.len() == y * tw + x,
                forall|k: int| 0 <= k < data@.len() ==> data@[k] == target[k],
            decreases tw - x,
        {
            proof {
                assert(y * tw + x < tw * th && y * tw + tw <= tw * th) by (nonlinear_arith)
                    requires
                        0 <= x < tw,
                        0 <= y < th,
                ;
                assert(tw <= 0xFFFF_FFFF && th <= 0xFFFF_FFFF) by (nonlinear_arith)
                    requires
                        0 <= x < tw,
                        0 <= y < th,
                        w == tw * f,
                        h == th * f,
                        1 <= f <= 16,
                        w * h <= 0xFFFF_FFFF,
                ;
                assert(x * f + f - 1 < w && y * f + f - 1 < h && x * f <= x * f + f - 1 && y * f <= y
                    * f + f - 1 && x * f + f - 1 - x * f <= 15 && y * f + f - 1 - y * f <= 15 && x
                    * f <= 0xFFFF_FFFF && y * f <= 0xFFFF_FFFF) by (nonlinear_arith)
                    requires
                        0 <= x < tw,
                        0 <= y < th,
                        w == tw * f,
                        h == th * f,
                        1 <= f <= 16,
                        w * h <= 0xFFFF_FFFF,
                        tw <= 0xFFFF_FFFF,
                        th <= 0xFFFF_FFFF,
                ;
            }
            let xlo = x * f;
            let ylo = y * f;
            let total = block_total(r, xlo, xlo + (f - 1), ylo, ylo + (f - 1));
            proof {
                assert(1 <= ff) by (nonlinear_arith)
                    requires
                        ff == f * f,
                        1 <= f,
                ;
                lemma_blk_sum_range(
                    r.data@,
                    w as int,
                    xlo as int,
                    xlo as int + f - 1,
                    ylo as int,
                    ylo as int + f - 1,
                );
                assert(total as int <= (ff as int) * 255) by (nonlinear_arith)
                    requires
                        total as int <= ((ylo as int + f - 1) - ylo + 1) * ((((xlo as int) + f - 1)
                            - xlo + 1) * 255),
                        ff == f * f,
                        1 <= f <= 16,
                ;
                assert((total as int + (ff as int) / 2) / (ff as int) <= 255) by (nonlinear_arith)
                    requires
                        1 <= ff,
                        total as int <= (ff as int) * 255,
                ;
            }
            let entry: u8 = ((total + ff / 2) / ff) as u8;
            let ghost k = data@.len() as int;
            data.push(entry);
            proof {
                lemma_fundamental_div_mod_converse(k, tw as int, y as int, x as int);
                assert(entry == target[k]);
            }
            x = x + 1;
        }
        y = y + 1;
        proof {
            assert(y * tw == (y - 1) * tw + tw) by (nonlinear_arith);
        }
    }
    proof {
        assert(th * tw == tw * th) by (nonlinear_arith);
    }
    let out = Raster { width: tw, height: th, data };
    proof {
        assert(out.data@ =~= down_seq(r.data@, w as int, f as int, tw as int, th as int));
        assert(out.data@.len() == out.width * out.height) by (nonlinear_arith)
            requires
                out.data@.len() == tw * th,
                out.width == tw,
                out.height == th,
        ;
    }
    out
}

/// Morphological closing: dilation, then erosion, bridging small gaps.
pub fn morphological_close(r: &Raster, kw: usize, kh: usize) -> (out: Raster)
    requires
        r.wf(),
        r.width * r.height <= 0xFFFF_FFFF,
        r.width <= 0x1000_0000,
        r.height <= 0x1000_0000,
        1 <= kw <= 0x4000,
        1 <= kh <= 0x4000,
    ensures
        out.wf(),
        out.width == r.width,
        out.height == r.height,
        out.data@ == closed_seq(r.data@, r.width as int, r.height as int, kw as int, kh as int),
{
    let d = dilate(r, kw, kh);
    erode(&d, kw, kh)
}

/// The rows of the horizontal band that row `y` belongs to: bands are
/// `band` rows tall, the last possibly shorter.
pub open spec fn band_rows(s: Seq<u8>, w: int, h: int, band: int, y: int) -> Seq<u8> {
    let y0 = (y / band) * band;
    let bh = if band <= h - y0 {
        band
    } else {
        h - y0
    };
    s.subrange(y0 * w, (y0 + bh) * w)
}

/// Each sample equalized against its own band's clipped histogram.
pub open spec fn band_eq_seq(s: Seq<u8>, w: int, h: int, band: int, clip: int) -> Seq<u8> {
    Seq::new(
        s.len(),
        |i: int| eq_map_val(band_rows(s, w, h, band, i / w), clip, s[i] as int) as u8,
    )
}

/// Band-local clipped equalization followed by the denoising blur.
pub open spec fn adaptive_seq(s: Seq<u8>, w: int, h: int, band: int, clip: int) -> Seq<u8> {
    blurred_seq(band_eq_seq(s, w, h, band, clip), w, h)
}

/// Equalizes each horizontal band against its own clipped histogram.
fn band_equalize(r: &Raster, band: usize, clip: u64) -> (out: Raster)
    requires
        r.wf(),
        band >= 1,
        clip >= 1,
        r.width * r.height <= 0xFFFF_FFFF,
    ensures
        out.wf(),
        out.width == r.width,
        out.height == r.height,
        out.data@ == band_eq_seq(r.data@, r.width as int, r.height as int, band as int, clip as int),
{
    let w = r.width;
    let h = r.height;
    let ghost s = r.data@;
    let ghost target = band_eq_seq(s, w as int, h as int, band as int, clip as int);
    let mut data: Vec<u8> = Vec::new();
    let mut y0: usize = 0;
    while y0 < h
        invariant
            r.wf(),
            s == r.data@,
            w == r.width,
            h == r.height,
            band >= 1,
            clip >= 1,
            w * h <= 0xFFFF_FFFF,
            target == band_eq_seq(s, w as int, h as int, band as int, clip as int),
            target.len() == s.len(),
            y0 <= h,
            y0 % band == 0 || y0 == h,
            data@.len() == y0 * w,
            forall|k: int| 0 <= k < data@.len() ==> data@[k] == target[k],
        decreases h - y0,
    {
        let rest = h - y0;
        let bh = if rest < band {
            rest
        } else {
            band
        };
        proof {
            assert(y0 * w <= (y0 + bh) * w <= h * w && h * w == w * h) by (nonlinear_arith)
                requires
                    0 <= y0,
                    0 <= bh,
                    y0 + bh <= h,
                    0 <= w,
            ;
        }
        let lo = y0 * w;
        let hi = (y0 + bh) * w;
        let hist = histogram_range(&r.data, lo, hi);
        let ghost sub = s.subrange(lo as int, hi as int);
        proof {
            assert forall|v: int| 0 <= v < 256 implies hist@[v] <= 0xFFFF_FFFF by {
                lemma_count_le_len(sub, v as u8);
            }
        }
        let map = build_eq_map(&hist, clip, Ghost(sub));
        let mut k: usize = lo;
        while k < hi
            invariant
                r.wf(),
                s == r.data@,
                w == r.width,
                h == r.height,
                band >= 1,
                clip >= 1,
                w * h <= 0xFFFF_FFFF,
                target == band_eq_seq(s, w as int, h as int, band as int, clip as int),
                target.len() == s.len(),
                y0 < h,
                y0 % band == 0,
                1 <= bh <= band,
                y0 + bh <= h,
                bh == band || y0 + bh == h,
                lo == y0 * w,
                hi == (y0 + bh) * w,
                hi <= s.len(),
                sub == s.subrange(lo as int, hi as int),
                map@.len() == 256,
                forall|v: int| 0 <= v < 256 ==> map@[v] == eq_map_val(sub, clip as int, v) as u8,
                lo <= k <= hi,
                data@.len() == k,
                forall|j: int| 0 <= j < data@.len() ==> data@[j] == target[j],
            decreases hi - k,
        {
            let p = r.data[k];
            let entry = map[p as usize];
            data.push(entry);
            proof {
                let y = k as int / (w as int);
                lemma_fundamental_div_mod(k as int, w as int);
                assert(y0 <= y < y0 + bh) by (nonlinear_arith)
                    requires
                        y == k as int / (w as int),
                        y0 * w <= k < (y0 + bh) * w,
                        1 <= w,
                        k as int == (w as int) * y + (k as int) % (w as int),
                        0 <= (k as int) % (w as int) < w,
                ;
                let q = (y0 as int) / (band as int);
                lemma_fundamental_div_mod(y0 as int, band as int);
                assert(q * (band as int) == y0) by (nonlinear_arith)
                    requires
                        y0 as int == (band as int) * q + (y0 as int) % (band as int),
                        (y0 as int) % (band as int) == 0,
                ;
                lemma_fundamental_div_mod_converse(y, band as int, q, y - y0);
                assert(y / (band as int) * (band as int) == y0);
                assert(band_rows(s, w as int, h as int, band as int, y) =~= sub);
                assert(target[k as int] == entry);
            }
            k = k + 1;
        }
        proof {
            if bh == band {
                let q = (y0 as int) / (band as int);
                lemma_fundamental_div_mod(y0 as int, band as int);
                assert(y0 + band == (q + 1) * (band as int)) by (nonlinear_arith)
                    requires
                        y0 as int == (band as int) * q + (y0 as int) % (band as int),
                        (y0 as int) % (band as int) == 0,
                ;
                lemma_fundamental_div_mod_converse(y0 + band, band as int, q + 1, 0);
            }
        }
        y0 = y0 + bh;
    }
    let out = Raster { width: w, height: h, data };
    proof {
        assert(out.data@ =~= band_eq_seq(s, w as int, h as int, band as int, clip as int));
        assert(out.data@.len() == out.width * out.height) by (nonlinear_arith)
            requires
                out.data@.len() == s.len(),
                s.len() == w * h,
                out.width == w,
                out.height == h,
        ;
    }
    out
}

/// Band-local clipped equalization followed by the denoising blur.
pub fn adaptive_local_contrast(r: &Raster, band: usize, clip: u64) -> (out: Raster)
    requires
        r.wf(),
        band >= 1,
        clip >= 1,
        r.width * r.height <= 0xFFFF_FFFF,
    ensures
        out.wf(),
        out.width == r.width,
        out.height == r.height,
        out.data@ == adaptive_seq(r.data@, r.width as int, r.height as int, band as int, clip as int),
{
    let eq = band_equalize(r, band, clip);
    blur3(&eq)
}

/// The result of one base strategy, as a function of the input samples.
pub open spec fn base_seq(b: BaseStrategy, s: Seq<u8>, w: int, h: int) -> Seq<u8> {
    match b {
        BaseStrategy::GlobalContrast => equalized_seq(s, CLIP_NONE as int),
        BaseStrategy::AdaptiveLocalContrast { band, clip_limit } => adaptive_seq(
            s,
            w,
            h,
            band as int,
            clip_limit as int,
        ),
        BaseStrategy::GradientEmphasis { combine_axes, mode } => gradient_seq(
            s,
            w,
            h,
            combine_axes,
            mode,
        ),
        BaseStrategy::MorphologicalClose { kernel_w, kernel_h } => closed_seq(
            s,
            w,
            h,
            kernel_w as int,
            kernel_h as int,
        ),
    }
}

/// The result of a full enhancement configuration.
pub open spec fn enhanced_seq(c: EnhancementConfig, s: Seq<u8>, w: int, h: int) -> Seq<u8> {
    match c {
        EnhancementConfig::Single(b) => base_seq(b, s, w, h),
        EnhancementConfig::ScaleEnhanceRescale { factor, inner } => down_seq(
            base_seq(inner, up_seq(s, w, factor as int), w * factor, h * factor),
            w * factor,
            factor as int,
            w,
            h,
        ),
    }
}

/// Applies one base strategy.
fn apply_base(b: BaseStrategy, r: &Raster) -> (out: Raster)
    requires
        r.wf(),
        b.valid(),
        r.width * r.height <= 0xFFFF_FFFF,
        r.width <= 0x1000_0000,
        r.height <= 0x1000_0000,
    ensures
        out.wf(),
        out.width == r.width,
        out.height == r.height,
        out.data@ == base_seq(b, r.data@, r.width as int, r.height as int),
{
    match b {
        BaseStrategy::GlobalContrast => global_contrast(r),
        BaseStrategy::AdaptiveLocalContrast { band, clip_limit } => adaptive_local_contrast(
            r,
            band,
            clip_limit,
        ),
        BaseStrategy::GradientEmphasis { combine_axes, mode } => gradient_emphasis(
            r,
            combine_axes,
            mode,
        ),
        BaseStrategy::MorphologicalClose { kernel_w, kernel_h } => morphological_close(
            r,
            kernel_w,
            kernel_h,
        ),
    }
}

/// Applies the configured enhancement strategy to a rectified crop.
///
/// A pure transform: the input raster is left untouched, and the result
/// has the input's dimensions with every sample given by the selected
/// strategy's per-sample specification.
pub fn apply_enhancement(config: EnhancementConfig, r: &Raster) -> (out: Raster)
    requires
        r.wf(),
        config.valid(),
        config.fits(r.width as int, r.height as int),
    ensures
        out.wf(),
        out.width == r.width,
        out.height == r.height,
        out.data@ == enhanced_seq(config, r.data@, r.width as int, r.height as int),
{
    match config {
        EnhancementConfig::Single(b) => apply_base(b, r),
        EnhancementConfig::ScaleEnhanceRescale { factor, inner } => {
            let up = upscale(r, factor);
            proof {
                assert((r.width * factor) * (r.height * factor) <= 0xFFFF_FFFF && up.width
                    * up.height <= 0xFFFF_FFFF) by (nonlinear_arith)
                    requires
                        config.fits(r.width as int, r.height as int),
                        config == (EnhancementConfig::ScaleEnhanceRescale { factor, inner }),
                        up.width == r.width * factor,
                        up.height == r.height * factor,
                ;
            }
            let en = apply_base(inner, &up);
            let down = downscale(&en, factor, r.width, r.height);
            down
        },
    }
}


/// On an all-constant sequence every value's count is all or nothing.
proof fn lemma_count_flat(s: Seq<u8>, c: u8, v: u8)
    requires
        forall|i: int| 0 <= i < s.len() ==> s[i] == c,
    ensures
        count_val(s, v) == if v == c {
            s.len() as int
        } else {
            0
        },
    decreases s.len(),
{
    if s.len() != 0 {
        lemma_count_flat(s.drop_last(), c, v);
    }
}

/// Above the only present value the cumulative histogram is constant.
proof fn lemma_cum_const_above(s: Seq<u8>, clip: int, c: int, v: int)
    requires
        clip >= 1,
        0 <= c <= v <= 255,
        forall|w: u8| (w as int) != c ==> count_val(s, w) == 0,
    ensures
        cum(s, v, clip) == cum(s, c, clip),
    decreases v - c,
{
    if v > c {
        lemma_cum_const_above(s, clip, c, v - 1);
    }
}

/// Equalization is degenerate on an all-constant input: the map is the
/// identity, so a flat raster stays flat under it.
pub proof fn lemma_eq_map_flat(s: Seq<u8>, clip: int, c: u8)
    requires
        clip >= 1,
        forall|i: int| 0 <= i < s.len() ==> s[i] == c,
    ensures
        forall|v: int| 0 <= v <= 255 ==> eq_map_val(s, clip, v) == v,
{
    assert forall|v: u8| true implies count_val(s, v) == (if v == c {
        s.len() as int
    } else {
        0int
    }) by {
        lemma_count_flat(s, c, v);
    }
    let t = cum(s, 255, clip);
    let m = cum(s, minv(s), clip);
    if s.len() == 0 {
        lemma_cum_zero(s, clip, 255);
        lemma_cum_zero(s, clip, minv(s));
        assert(t == m);
    } else {
        assert forall|w: u8| (w as int) < c as int implies count_val(s, w) == 0 by {}
        lemma_minv_skip(s, c as int);
        assert(minv(s) == c as int);
        lemma_cum_const_above(s, clip, c as int, 255);
        assert(t == m);
    }
}

/// What `GradientEmphasis` yields on an all-constant raster: the
/// gradient magnitude is zero everywhere, so every sample gets this
/// one value.
pub open spec fn flat_gradient_value(mode: GradientMode, c: u8) -> u8 {
    match mode {
        GradientMode::Threshold(t) => if t == 0 {
            255
        } else {
            0
        },
        GradientMode::Blend(wgt) => (((255 - wgt) * c) / 255) as u8,
    }
}

/// `GradientEmphasis` on an all-constant raster does not fail and
/// yields another all-constant raster: the zero-variance input has
/// zero gradient everywhere, so every sample maps to the same value.
pub proof fn lemma_gradient_flat(
    s: Seq<u8>,
    w: int,
    h: int,
    combine: bool,
    mode: GradientMode,
    c: u8,
)
    requires
        s.len() == w * h,
        1 <= w,
        1 <= h,
        forall|i: int| 0 <= i < s.len() ==> s[i] == c,
    ensures
        forall|i: int|
            0 <= i < s.len() ==> gradient_seq(s, w, h, combine, mode)[i] == flat_gradient_value(
                mode,
                c,
            ),
{
    assert forall|i: int|
        0 <= i < s.len() implies gradient_seq(s, w, h, combine, mode)[i] == flat_gradient_value(
        mode,
        c,
    ) by {
        crate::raster::lemma_grid_index(w, h, i);
        let x = i % w;
        let y = i / w;
        assert forall|a: int, b: int| 0 <= a < w && 0 <= b < h implies pix_at(s, w, a, b) == c by {
            assert(0 <= b * w + a < w * h) by (nonlinear_arith)
                requires
                    0 <= a < w,
                    0 <= b < h,
            ;
        }
        assert(grad_mag(s, w, h, combine, x, y) == 0);
        match mode {
            GradientMode::Threshold(t) => {},
            GradientMode::Blend(wgt) => {
                lemma_eq_map_flat(s, CLIP_NONE as int, c);
                assert(eq_map_val(s, CLIP_NONE as int, pix_at(s, w, x, y) as int) == c);
            },
        }
    }
}

/// `AdaptiveLocalContrast` on an all-constant raster does not fail and
/// leaves it flat: each band's equalization is degenerate and maps the
/// value to itself, and blurring a flat raster changes nothing.
pub proof fn lemma_adaptive_flat(s: Seq<u8>, w: int, h: int, band: int, clip: int, c: u8)
    requires
        s.len() == w * h,
        1 <= w,
        1 <= h,
        1 <= band,
        1 <= clip,
        forall|i: int| 0 <= i < s.len() ==> s[i] == c,
    ensures
        forall|i: int| 0 <= i < s.len() ==> adaptive_seq(s, w, h, band, clip)[i] == c,
{
    let beq = band_eq_seq(s, w, h, band, clip);
    assert forall|i: int| 0 <= i < s.len() implies beq[i] == c by {
        crate::raster::lemma_grid_index(w, h, i);
        let y = i / w;
        let q = y / band;
        lemma_fundamental_div_mod(y, band);
        assert(0 <= q * band <= y && y < q * band + band) by (nonlinear_arith)
            requires
                y == band * q + y % band,
                0 <= y % band < band,
                1 <= band,
                0 <= y,
        ;
        let y0 = q * band;
        let bh = if band <= h - y0 {
            band
        } else {
            h - y0
        };
        let rows = band_rows(s, w, h, band, y);
        assert(rows =~= s.subrange(y0 * w, (y0 + bh) * w));
        assert(0 <= y0 * w <= (y0 + bh) * w <= w * h) by (nonlinear_arith)
            requires
                0 <= y0,
                y0 <= y0 + bh,
                y0 + bh <= h,
                1 <= w,
        ;
        assert forall|j: int| 0 <= j < rows.len() implies rows[j] == c by {
            assert(rows[j] == s[y0 * w + j]);
        }
        lemma_eq_map_flat(rows, clip, c);
        assert(eq_map_val(rows, clip, s[i] as int) == c);
    }
    assert forall|i: int| 0 <= i < s.len() implies adaptive_seq(s, w, h, band, clip)[i] == c by {
        crate::raster::lemma_grid_index(w, h, i);
        let x = i % w;
        let y = i / w;
        assert forall|a: int, b: int| 0 <= a < w && 0 <= b < h implies pix_at(beq, w, a, b) == c by {
            assert(0 <= b * w + a < w * h) by (nonlinear_arith)
                requires
                    0 <= a < w,
                    0 <= b < h,
            ;
        }
        assert(blur_pix(beq, w, h, x, y) == ((16 * (c as int) + 8) / 16) as u8);
        assert((16 * (c as int) + 8) / 16 == c as int) by (nonlinear_arith);
    }
}

} // verus!
