use vstd::prelude::*;

verus! {

/// One 8-bit RGB pixel.
#[derive(Clone, Copy, PartialEq, Eq, Structural, Debug)]
pub struct Rgb8 {
    pub r: u8,
    pub g: u8,
    pub b: u8,
}

impl Rgb8 {
    /// The sum of the three channels: the pixel's grayscale intensity on a
    /// 0..=765 scale (three times the usual 0..=255 average, so that the
    /// average need never be rounded).
    pub open spec fn spec_luma3(self) -> int {
        self.r + self.g + self.b
    }

    pub fn luma3(self) -> (s: u16)
        ensures
            s == self.spec_luma3(),
    {
        self.r as u16 + self.g as u16 + self.b as u16
    }
}

/// For `0 <= x < w` and `0 <= y < h`, the row-major index `y * w + x` lies
/// inside a buffer of `w * h` cells.
pub proof fn lemma_row_major_index(w: int, h: int, x: int, y: int)
    requires
        0 <= x < w,
        0 <= y < h,
    ensures
        0 <= y * w + x < w * h,
{
    assert(y * w + x < w * h) by (nonlinear_arith)
        requires
            0 <= x < w,
            0 <= y < h,
    {}
    assert(y * w + x >= 0) by (nonlinear_arith)
        requires
            0 <= x,
            0 <= y,
            w >= 1,
    {}
}

/// Row-major indices are injective: two distinct in-range coordinate pairs
/// never share a cell.
pub proof fn lemma_row_major_unique(w: int, x1: int, y1: int, x2: int, y2: int)
    requires
        0 <= x1 < w,
        0 <= x2 < w,
        0 <= y1,
        0 <= y2,
        y1 * w + x1 == y2 * w + x2,
    ensures
        x1 == x2,
        y1 == y2,
{
    assert(y1 == y2 && x1 == x2) by (nonlinear_arith)
        requires
            0 <= x1 < w,
            0 <= x2 < w,
            0 <= y1,
            0 <= y2,
            y1 * w + x1 == y2 * w + x2,
    {}
}

/// A rectangular grid of RGB pixels, stored row-major behind a width and a
/// height.  Both dimensions are at least one and every row has the same
/// length; a buffer that cannot satisfy that is rejected by `new`.
pub struct RgbImage8 {
    pub width: usize,
    pub height: usize,
    pub pixels: Vec<Rgb8>,
}

impl RgbImage8 {
    pub open spec fn wf(self) -> bool {
        &&& self.width >= 1
        &&& self.height >= 1
        &&& self.pixels.len() == self.width * self.height
    }

    /// The pixel in column `x` of row `y`.
    pub open spec fn spec_at(self, x: int, y: int) -> Rgb8 {
        self.pixels[y * self.width + x]
    }

    /// Accepts a flat row-major buffer whose length matches the dimensions;
    /// rejects empty dimensions and mismatched buffers at the boundary.
    pub fn new(width: usize, height: usize, pixels: Vec<Rgb8>) -> (r: Option<RgbImage8>)
        ensures
            match r {
                Some(img) => {
                    &&& img.wf()
                    &&& img.width == width
                    &&& img.height == height
                    &&& img.pixels@ == pixels@
                },
                None => width == 0 || height == 0 || pixels.len() != width * height,
            },
    {
        if width == 0 || height == 0 {
            return None;
        }
        if pixels.len() % width != 0 || pixels.len() / width != height {
            proof {
                if pixels.len() == width * height {
                    vstd::arithmetic::div_mod::lemma_mod_multiples_basic(height as int, width as int);
                    vstd::arithmetic::div_mod::lemma_div_multiples_vanish(height as int, width as int);
                }
            }
            return None;
        }
        proof {
            vstd::arithmetic::div_mod::lemma_fundamental_div_mod(pixels.len() as int, width as int);
        }
        Some(RgbImage8 { width, height, pixels })
    }

    /// A single-color image: every pixel equals `p`.
    pub fn uniform(width: usize, height: usize, p: Rgb8) -> (img: RgbImage8)
        requires
            1 <= width,
            1 <= height,
            width * height <= usize::MAX,
        ensures
            img.wf(),
            img.width == width,
            img.height == height,
            forall|x: int, y: int|
                0 <= x < width && 0 <= y < height ==> #[trigger] img.spec_at(x, y) == p,
    {
        proof {
            assert(width * height >= 1) by (nonlinear_arith)
                requires
                    width >= 1,
                    height >= 1,
            {}
        }
        let n: usize = width * height;
        let mut pixels: Vec<Rgb8> = Vec::new();
        let mut i: usize = 0;
        while i < n
            invariant
                i <= n,
                n == width * height,
                pixels.len() == i,
                forall|j: int| 0 <= j < i ==> pixels[j] == p,
            decreases n - i,
        {
            pixels.push(p);
            i = i + 1;
        }
        let img = RgbImage8 { width, height, pixels };
        proof {
            assert forall|x: int, y: int|
                0 <= x < width && 0 <= y < height implies #[trigger] img.spec_at(x, y) == p by {
                lemma_row_major_index(width as int, height as int, x, y);
            }
        }
        img
    }

    pub fn at(&self, x: usize, y: usize) -> (p: Rgb8)
        requires
            self.wf(),
            x < self.width,
            y < self.height,
        ensures
            p == self.spec_at(x as int, y as int),
    {
        proof {
            lemma_row_major_index(self.width as int, self.height as int, x as int, y as int);
        }
        self.pixels[y * self.width + x]
    }
}

/// A rectangular grid of single-channel 8-bit pixels, stored row-major.
pub struct GrayImage8 {
    pub width: usize,
    pub height: usize,
    pub pixels: Vec<u8>,
}

impl GrayImage8 {
    pub open spec fn wf(self) -> bool {
        &&& self.width >= 1
        &&& self.height >= 1
        &&& self.pixels.len() == self.width * self.height
    }

    /// The intensity in column `x` of row `y`.
    pub open spec fn spec_at(self, x: int, y: int) -> u8 {
        self.pixels[y * self.width + x]
    }

    /// Accepts a flat row-major buffer whose length matches the dimensions;
    /// rejects empty dimensions and mismatched buffers at the boundary.
    pub fn new(width: usize, height: usize, pixels: Vec<u8>) -> (r: Option<GrayImage8>)
        ensures
            match r {
                Some(img) => {
                    &&& img.wf()
                    &&& img.width == width
                    &&& img.height == height
                    &&& img.pixels@ == pixels@
                },
                None => width == 0 || height == 0 || pixels.len() != width * height,
            },
    {
        if width == 0 || height == 0 {
            return None;
        }
        if pixels.len() % width != 0 || pixels.len() / width != height {
            proof {
                if pixels.len() == width * height {
                    vstd::arithmetic::div_mod::lemma_mod_multiples_basic(height as int, width as int);
                    vstd::arithmetic::div_mod::lemma_div_multiples_vanish(height as int, width as int);
                }
            }
            return None;
        }
        proof {
            vstd::arithmetic::div_mod::lemma_fundamental_div_mod(pixels.len() as int, width as int);
        }
        Some(GrayImage8 { width, height, pixels })
    }

    /// A single-intensity image: every pixel equals `v`.
    pub fn uniform(width: usize, height: usize, v: u8) -> (img: GrayImage8)
        requires
            1 <= width,
            1 <= height,
            width * height <= usize::MAX,
        ensures
            img.wf(),
            img.width == width,
            img.height == height,
            forall|x: int, y: int|
                0 <= x < width && 0 <= y < height ==> #[trigger] img.spec_at(x, y) == v,
    {
        proof {
            assert(width * height >= 1) by (nonlinear_arith)
                requires
                    width >= 1,
                    height >= 1,
            {}
        }
        let n: usize = width * height;
        let mut pixels: Vec<u8> = Vec::new();
        let mut i: usize = 0;
        while i < n
            invariant
                i <= n,
                n == width * height,
                pixels.len() == i,
                forall|j: int| 0 <= j < i ==> pixels[j] == v,
            decreases n - i,
        {
            pixels.push(v);
            i = i + 1;
        }
        let img = GrayImage8 { width, height, pixels };
        proof {
            assert forall|x: int, y: int|
                0 <= x < width && 0 <= y < height implies #[trigger] img.spec_at(x, y) == v by {
                lemma_row_major_index(width as int, height as int, x, y);
            }
        }
        img
    }

    pub fn at(&self, x: usize, y: usize) -> (v: u8)
        requires
            self.wf(),
            x < self.width,
            y < self.height,
        ensures
            v == self.spec_at(x as int, y as int),
    {
        proof {
            lemma_row_major_index(self.width as int, self.height as int, x as int, y as int);
        }
        self.pixels[y * self.width + x]
    }
}

} // verus!
