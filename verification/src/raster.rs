//! Single-channel 8-bit rasters.
//!
//! A raster is a row-major grid of grayscale samples.  Every pipeline
//! stage produces a new, independently owned raster rather than mutating
//! its input.

use vstd::prelude::*;

verus! {

/// The sample at column `x` of row `y` of a row-major grid of width `w`.
pub open spec fn pix_at(s: Seq<u8>, w: int, x: int, y: int) -> u8 {
    s[y * w + x]
}

/// A flat index splits into its row and column.
pub proof fn lemma_grid_index(w: int, h: int, i: int)
    requires
        1 <= w,
        0 <= i < w * h,
    ensures
        i == (i / w) * w + i % w,
        0 <= i % w < w,
        0 <= i / w < h,
{
    vstd::arithmetic::div_mod::lemma_fundamental_div_mod(i, w);
    assert(i == (i / w) * w + i % w) by (nonlinear_arith)
        requires
            i == w * (i / w) + i % w,
    ;
    assert(0 <= i / w < h) by (nonlinear_arith)
        requires
            1 <= w,
            0 <= i < w * h,
            i == (i / w) * w + i % w,
            0 <= i % w < w,
    ;
}

/// A single-channel 8-bit image: `data` holds `height` rows of `width`
/// samples each, row-major.
#[derive(Debug, Clone)]
pub struct Raster {
    pub width: usize,
    pub height: usize,
    pub data: Vec<u8>,
}

impl Raster {
    /// The sample grid is exactly as large as the dimensions claim.
    pub open spec fn wf(self) -> bool {
        self.data@.len() == self.width * self.height
    }

    /// The sample at column `x` of row `y`.
    pub open spec fn pix(self, x: int, y: int) -> u8 {
        self.data@[y * self.width + x]
    }

    /// The sample at `(x, y)`, or black for positions outside the grid.
    pub open spec fn pix_or_zero(self, x: int, y: int) -> u8 {
        if 0 <= x < self.width && 0 <= y < self.height {
            self.pix(x, y)
        } else {
            0
        }
    }

    /// Two rasters have the same dimensions.
    pub open spec fn same_dims(self, other: Raster) -> bool {
        self.width == other.width && self.height == other.height
    }

    /// Every sample has the same value.
    pub open spec fn is_flat(self, v: u8) -> bool {
        forall|x: int, y: int|
            0 <= x < self.width && 0 <= y < self.height ==> self.pix(x, y) == v
    }

    /// Builds a raster of the given dimensions with every sample set to
    /// `value`.
    pub fn new_filled(width: usize, height: usize, value: u8) -> (r: Raster)
        requires
            width * height <= 0xFFFF_FFFF,
        ensures
            r.wf(),
            r.width == width,
            r.height == height,
            forall|x: int, y: int| 0 <= x < width && 0 <= y < height ==> r.pix(x, y) == value,
    {
        proof {
            assert(width * height <= 0xFFFF_FFFF) by (nonlinear_arith)
                requires
                    width * height <= 0xFFFF_FFFF,
            ;
        }
        let n: usize = width * height;
        let mut data: Vec<u8> = Vec::new();
        let mut i: usize = 0;
        while i < n
            invariant
                i <= n,
                data@.len() == i,
                forall|k: int| 0 <= k < i ==> data@[k] == value,
            decreases n - i,
        {
            data.push(value);
            i = i + 1;
        }
        let r = Raster { width, height, data };
        proof {
            assert forall|x: int, y: int|
                0 <= x < width && 0 <= y < height implies r.pix(x, y) == value by {
                assert(0 <= y * width + x < width * height) by (nonlinear_arith)
                    requires
                        0 <= x < width,
                        0 <= y < height,
                ;
            }
        }
        r
    }

    /// Wraps a flat sample vector as a raster, when the length matches
    /// the claimed dimensions.
    pub fn from_vec(width: usize, height: usize, data: Vec<u8>) -> (r: Option<Raster>)
        ensures
            r is Some <==> data@.len() == width * height,
            r matches Some(img) ==> {
                &&& img.wf()
                &&& img.width == width
                &&& img.height == height
                &&& img.data@ == data@
            },
    {
        if width == 0 || height == 0 {
            if data.len() == 0 {
                proof {
                    assert(width * height == 0) by (nonlinear_arith)
                        requires
                            width == 0 || height == 0,
                    ;
                }
                return Some(Raster { width, height, data });
            }
            proof {
                assert(width * height == 0) by (nonlinear_arith)
                    requires
                        width == 0 || height == 0,
                ;
            }
            return None;
        }
        if data.len() / height == width && data.len() % height == 0 {
            proof {
                assert(data@.len() == width * height) by (nonlinear_arith)
                    requires
                        height > 0,
                        data@.len() / (height as nat) == width,
                        data@.len() % (height as nat) == 0,
                ;
            }
            Some(Raster { width, height, data })
        } else {
            proof {
                assert(data@.len() != width * height || (data@.len() / (height as nat) == width
                    && data@.len() % (height as nat) == 0)) by (nonlinear_arith)
                    requires
                        height > 0,
                ;
            }
            None
        }
    }

    /// Reads the sample at `(x, y)`.
    pub fn get(&self, x: usize, y: usize) -> (v: u8)
        requires
            self.wf(),
            x < self.width,
            y < self.height,
        ensures
            v == self.pix(x as int, y as int),
    {
        let n = self.data.len();
        proof {
            assert(0 <= y * self.width && y * self.width + x < self.width
                * self.height) by (nonlinear_arith)
                requires
                    x < self.width,
                    y < self.height,
            ;
        }
        self.data[y * self.width + x]
    }

    /// Reads the sample at `(x, y)`, or black outside the grid.
    pub fn get_or_zero(&self, x: i64, y: i64) -> (v: u8)
        requires
            self.wf(),
            self.width <= 0x7FFF_FFFF,
            self.height <= 0x7FFF_FFFF,
        ensures
            v == self.pix_or_zero(x as int, y as int),
    {
        if 0 <= x && x < self.width as i64 && 0 <= y && y < self.height as i64 {
            self.get(x as usize, y as usize)
        } else {
            0
        }
    }

    /// The raster rotated a quarter turn clockwise: the result is as
    /// wide as this raster is tall, and column `x` of result row `y`
    /// holds the sample from column `y`, counting `x` rows up from the
    /// bottom of this raster.
    pub fn rotate90_cw(&self) -> (r: Raster)
        requires
            self.wf(),
        ensures
            r.wf(),
            r.width == self.height,
            r.height == self.width,
            forall|x: int, y: int|
                0 <= x < r.width && 0 <= y < r.height ==> r.pix(x, y) == self.pix(
                    y,
                    self.height - 1 - x,
                ),
    {
        let out_w: usize = self.height;
        let out_h: usize = self.width;
        let mut data: Vec<u8> = Vec::new();
        let mut yo: usize = 0;
        proof {
            assert(out_w * out_h == self.width * self.height) by (nonlinear_arith)
                requires
                    out_w == self.height,
                    out_h == self.width,
            ;
        }
        while yo < out_h
            invariant
                self.wf(),
                out_w == self.height,
                out_h == self.width,
                yo <= out_h,
                data@.len() == yo * out_w,
                forall|x: int, y: int|
                    0 <= x < out_w && 0 <= y < yo ==> #[trigger] pix_at(data@, out_w as int, x, y)
                        == self.pix(y, self.height - 1 - x),
            decreases out_h - yo,
        {
            let mut xo: usize = 0;
            while xo < out_w
                invariant
                    self.wf(),
                    out_w == self.height,
                    out_h == self.width,
                    yo < out_h,
                    xo <= out_w,
                    data@.len() == yo * out_w + xo,
                    forall|x: int, y: int|
                        0 <= x < out_w && 0 <= y < yo ==> #[trigger] pix_at(
                            data@,
                            out_w as int,
                            x,
                            y,
                        ) == self.pix(y, self.height - 1 - x),
                    forall|x: int|
                        0 <= x < xo ==> #[trigger] pix_at(data@, out_w as int, x, yo as int)
                            == self.pix(yo as int, self.height - 1 - x),
                decreases out_w - xo,
            {
                let v = self.get(yo, out_w - 1 - xo);
                let ghost prev = data@;
                let ghost xp = xo as int;
                data.push(v);
                xo = xo + 1;
                proof {
                    assert forall|x: int, y: int|
                        0 <= x < out_w && 0 <= y < yo implies #[trigger] pix_at(
                        data@,
                        out_w as int,
                        x,
                        y,
                    ) == self.pix(y, self.height - 1 - x) by {
                        assert(0 <= y * out_w + x < yo * out_w) by (nonlinear_arith)
                            requires
                                0 <= x < out_w,
                                0 <= y < yo,
                        ;
                        assert(pix_at(data@, out_w as int, x, y) == pix_at(
                            prev,
                            out_w as int,
                            x,
                            y,
                        ));
                    }
                    assert forall|x: int|
                        0 <= x < xo implies #[trigger] pix_at(data@, out_w as int, x, yo as int)
                        == self.pix(yo as int, self.height - 1 - x) by {
                        if x < xp {
                            assert(pix_at(data@, out_w as int, x, yo as int) == pix_at(
                                prev,
                                out_w as int,
                                x,
                                yo as int,
                            ));
                        } else {
                            assert(yo * out_w + x == prev.len());
                            assert(pix_at(data@, out_w as int, x, yo as int) == v);
                        }
                    }
                }
            }
            yo = yo + 1;
            proof {
                assert(yo * out_w == (yo - 1) * out_w + out_w) by (nonlinear_arith);
            }
        }
        let r = Raster { width: out_w, height: out_h, data };
        proof {
            assert(r.data@.len() == r.width * r.height) by (nonlinear_arith)
                requires
                    r.data@.len() == out_h * out_w,
                    r.width == out_w,
                    r.height == out_h,
            ;
            assert forall|x: int, y: int|
                0 <= x < r.width && 0 <= y < r.height implies r.pix(x, y) == self.pix(
                y,
                self.height - 1 - x,
            ) by {
                assert(r.pix(x, y) == pix_at(data@, out_w as int, x, y));
            }
        }
        r
    }
}

} // verus!
