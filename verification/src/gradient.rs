use vstd::prelude::*;
use crate::grid::{Rgb8, RgbImage8, GrayImage8, lemma_row_major_index, lemma_row_major_unique};
use crate::ratio::Ratio;
use crate::stats::{count_gt, lemma_count_gt_push, lemma_count_gt_bounds};

verus! {

/// The grayscale intensity of the pixel at `(x, y)`, on the 0..=765 scale
/// (the channel sum; dividing by three is left to the caller so that every
/// intermediate value stays an exact integer).
pub open spec fn luma3_at(img: RgbImage8, x: int, y: int) -> int {
    img.spec_at(x, y).spec_luma3()
}

pub open spec fn white_pixel() -> Rgb8 {
    Rgb8 { r: 255, g: 255, b: 255 }
}

pub open spec fn black_pixel() -> Rgb8 {
    Rgb8 { r: 0, g: 0, b: 0 }
}

/// Binarization of one pixel: white where the intensity exceeds the
/// threshold (given on the 0..=765 channel-sum scale), black otherwise.
pub open spec fn threshold_pixel(p: Rgb8, t: int) -> Rgb8 {
    if p.spec_luma3() > t {
        white_pixel()
    } else {
        black_pixel()
    }
}

/// `out` is `src` binarized at `t`: same dimensions, every pixel thresholded.
pub open spec fn thresholded(src: RgbImage8, t: int, out: RgbImage8) -> bool {
    &&& out.width == src.width
    &&& out.height == src.height
    &&& out.pixels.len() == src.pixels.len()
    &&& forall|i: int|
        0 <= i < src.pixels.len() ==> out.pixels[i] == threshold_pixel(#[trigger] src.pixels[i], t)
}

/// Binarize each pixel: white if its grayscale intensity exceeds `threshold`
/// (0..=765 channel-sum scale), black otherwise.
pub fn apply_threshold(img: &RgbImage8, threshold: u16) -> (out: RgbImage8)
    requires
        img.wf(),
    ensures
        out.wf(),
        thresholded(*img, threshold as int, out),
{
    let n = img.pixels.len();
    let mut pixels: Vec<Rgb8> = Vec::new();
    let mut i: usize = 0;
    while i < n
        invariant
            i <= n,
            n == img.pixels.len(),
            pixels.len() == i,
            forall|j: int|
                0 <= j < i ==> pixels[j] == threshold_pixel(#[trigger] img.pixels@[j], threshold as int),
        decreases n - i,
    {
        let p = img.pixels[i];
        if p.luma3() > threshold {
            pixels.push(Rgb8 { r: 255, g: 255, b: 255 });
        } else {
            pixels.push(Rgb8 { r: 0, g: 0, b: 0 });
        }
        i = i + 1;
    }
    RgbImage8 { width: img.width, height: img.height, pixels }
}

/// Thresholding is idempotent: binarizing an already binarized image with
/// the same threshold changes nothing.  A white pixel has intensity 765 and
/// white pixels only arise when the threshold lies below 765; a black pixel
/// has intensity 0, which never exceeds a nonnegative threshold.
pub proof fn lemma_threshold_idempotent(src: RgbImage8, once: RgbImage8, twice: RgbImage8, t: int)
    requires
        t >= 0,
        thresholded(src, t, once),
        thresholded(once, t, twice),
    ensures
        twice.width == once.width,
        twice.height == once.height,
        twice.pixels@ == once.pixels@,
{
    assert forall|i: int| 0 <= i < once.pixels.len() implies twice.pixels@[i] == once.pixels@[i] by {
        assert(once.pixels[i] == threshold_pixel(src.pixels[i], t));
    }
    assert(twice.pixels@ =~= once.pixels@);
}

/// The three mutually exclusive intensity bands of the fuzzy threshold, each
/// rendered as a white/black image of the source's dimensions.
pub struct FuzzyLevels {
    /// White where the intensity exceeds the high threshold.
    pub high: RgbImage8,
    /// White where the intensity lies in the half-open band above the low
    /// threshold and at or below the high one.
    pub mid: RgbImage8,
    /// White where the intensity is at or below the low threshold but still
    /// above one hundredth of full scale; pixels at or below that floor are
    /// white in none of the three images, which suppresses near-black noise.
    pub low: RgbImage8,
}

pub open spec fn fuzzy_high_pixel(p: Rgb8, t_high: int) -> Rgb8 {
    if p.spec_luma3() > t_high {
        white_pixel()
    } else {
        black_pixel()
    }
}

pub open spec fn fuzzy_mid_pixel(p: Rgb8, t_low: int, t_high: int) -> Rgb8 {
    if p.spec_luma3() <= t_high && p.spec_luma3() > t_low {
        white_pixel()
    } else {
        black_pixel()
    }
}

/// The low band's floor is intensity one hundredth of full scale: a pixel
/// counts only if `luma3 / 765 > 1 / 100`, written exactly as
/// `100 * luma3 > 765`.
pub open spec fn fuzzy_low_pixel(p: Rgb8, t_low: int, t_high: int) -> Rgb8 {
    if p.spec_luma3() <= t_high && p.spec_luma3() <= t_low && 100 * p.spec_luma3() > 765 {
        white_pixel()
    } else {
        black_pixel()
    }
}

/// Classify each pixel into one of three bands — above `t_high`, in
/// `(t_low, t_high]`, or in `(765/100, t_low]` — and return one white/black
/// image per band (thresholds on the 0..=765 channel-sum scale).  The bands
/// are mutually exclusive; pixels at or below one hundredth of full scale
/// fall into no band.
pub fn apply_fuzzy_threshold(img: &RgbImage8, t_low: u16, t_high: u16) -> (out: FuzzyLevels)
    requires
        img.wf(),
    ensures
        out.high.wf() && out.mid.wf() && out.low.wf(),
        out.high.width == img.width && out.high.height == img.height,
        out.mid.width == img.width && out.mid.height == img.height,
        out.low.width == img.width && out.low.height == img.height,
        forall|i: int|
            0 <= i < img.pixels.len() ==> out.high.pixels[i] == fuzzy_high_pixel(
                #[trigger] img.pixels@[i],
                t_high as int,
            ),
        forall|i: int|
            0 <= i < img.pixels.len() ==> out.mid.pixels[i] == fuzzy_mid_pixel(
                #[trigger] img.pixels@[i],
                t_low as int,
                t_high as int,
            ),
        forall|i: int|
            0 <= i < img.pixels.len() ==> out.low.pixels[i] == fuzzy_low_pixel(
                #[trigger] img.pixels@[i],
                t_low as int,
                t_high as int,
            ),
{
    let n = img.pixels.len();
    let mut high: Vec<Rgb8> = Vec::new();
    let mut mid: Vec<Rgb8> = Vec::new();
    let mut low: Vec<Rgb8> = Vec::new();
    let mut i: usize = 0;
    while i < n
        invariant
            i <= n,
            n == img.pixels.len(),
            high.len() == i,
            mid.len() == i,
            low.len() == i,
            forall|j: int|
                0 <= j < i ==> high[j] == fuzzy_high_pixel(#[trigger] img.pixels@[j], t_high as int),
            forall|j: int|
                0 <= j < i ==> mid[j] == fuzzy_mid_pixel(
                    #[trigger] img.pixels@[j],
                    t_low as int,
                    t_high as int,
                ),
            forall|j: int|
                0 <= j < i ==> low[j] == fuzzy_low_pixel(
                    #[trigger] img.pixels@[j],
                    t_low as int,
                    t_high as int,
                ),
        decreases n - i,
    {
        let s = img.pixels[i].luma3();
        if s > t_high {
            high.push(Rgb8 { r: 255, g: 255, b: 255 });
            mid.push(Rgb8 { r: 0, g: 0, b: 0 });
            low.push(Rgb8 { r: 0, g: 0, b: 0 });
        } else if s > t_low {
            high.push(Rgb8 { r: 0, g: 0, b: 0 });
            mid.push(Rgb8 { r: 255, g: 255, b: 255 });
            low.push(Rgb8 { r: 0, g: 0, b: 0 });
        } else if 100 * (s as u32) > 765 {
            high.push(Rgb8 { r: 0, g: 0, b: 0 });
            mid.push(Rgb8 { r: 0, g: 0, b: 0 });
            low.push(Rgb8 { r: 255, g: 255, b: 255 });
        } else {
            high.push(Rgb8 { r: 0, g: 0, b: 0 });
            mid.push(Rgb8 { r: 0, g: 0, b: 0 });
            low.push(Rgb8 { r: 0, g: 0, b: 0 });
        }
        i = i + 1;
    }
    FuzzyLevels {
        high: RgbImage8 { width: img.width, height: img.height, pixels: high },
        mid: RgbImage8 { width: img.width, height: img.height, pixels: mid },
        low: RgbImage8 { width: img.width, height: img.height, pixels: low },
    }
}

/// The fraction of pixels whose intensity exceeds 245 on the 8-bit scale:
/// the numerator counts such pixels, the denominator is the pixel count.
pub fn edge_pixels_ratio(img: &GrayImage8) -> (r: Ratio)
    requires
        img.wf(),
    ensures
        r.num == count_gt(img.pixels@.map_values(|v: u8| v as int), 245),
        r.den == img.width * img.height,
{
    let n = img.pixels.len();
    let ghost m = img.pixels@.map_values(|v: u8| v as int);
    let mut white: usize = 0;
    let mut i: usize = 0;
    while i < n
        invariant
            i <= n,
            n == img.pixels.len(),
            m == img.pixels@.map_values(|v: u8| v as int),
            white == count_gt(m.take(i as int), 245),
            white <= i,
        decreases n - i,
    {
        proof {
            assert(m.take(i + 1) =~= m.take(i as int).push(m[i as int]));
            lemma_count_gt_push(m.take(i as int), 245, m[i as int]);
            lemma_count_gt_bounds(m.take(i as int), 245);
        }
        if img.pixels[i] > 245 {
            white = white + 1;
        }
        i = i + 1;
    }
    proof {
        assert(m.take(n as int) =~= m);
    }
    Ratio { num: white as u128, den: (img.width as u128) * (img.height as u128) }
}

/// A grid of 64-bit gradient magnitudes, stored row-major like the images.
pub struct GradientGrid {
    pub width: usize,
    pub height: usize,
    pub values: Vec<u64>,
}

impl GradientGrid {
    pub open spec fn wf(self) -> bool {
        &&& self.width >= 1
        &&& self.height >= 1
        &&& self.values.len() == self.width * self.height
    }

    pub open spec fn spec_at(self, x: int, y: int) -> u64 {
        self.values[y * self.width + x]
    }

    pub fn at(&self, x: usize, y: usize) -> (v: u64)
        requires
            self.wf(),
            x < self.width,
            y < self.height,
        ensures
            v == self.spec_at(x as int, y as int),
    {
        proof {
            lemma_row_major_index(self.width as int, self.height as int, x as int, y as int);
        }
        self.values[y * self.width + x]
    }
}

/// `(x, y)` lies strictly inside `img`: a full 3x3 neighborhood around it
/// exists.
pub open spec fn sobel_interior(img: RgbImage8, x: int, y: int) -> bool {
    &&& 1 <= x <= img.width - 2
    &&& 1 <= y <= img.height - 2
}

/// The horizontal Sobel response at interior pixel `(cx, cy)`: the 3x3
/// neighborhood's intensities weighted by the kernel
/// rows `[1, 0, -1]`, `[2, 0, -2]`, `[1, 0, -1]` (row index is the x
/// offset, column index the y offset).
pub open spec fn sobel_sum_x(img: RgbImage8, cx: int, cy: int) -> int {
    luma3_at(img, cx - 1, cy - 1) - luma3_at(img, cx - 1, cy + 1) + 2 * luma3_at(img, cx, cy - 1)
        - 2 * luma3_at(img, cx, cy + 1) + luma3_at(img, cx + 1, cy - 1) - luma3_at(
        img,
        cx + 1,
        cy + 1,
    )
}

/// The vertical Sobel response, from the kernel rows `[1, 2, 1]`,
/// `[0, 0, 0]`, `[-1, -2, -1]`.
pub open spec fn sobel_sum_y(img: RgbImage8, cx: int, cy: int) -> int {
    luma3_at(img, cx - 1, cy - 1) + 2 * luma3_at(img, cx - 1, cy) + luma3_at(img, cx - 1, cy + 1)
        - luma3_at(img, cx + 1, cy - 1) - 2 * luma3_at(img, cx + 1, cy) - luma3_at(
        img,
        cx + 1,
        cy + 1,
    )
}

pub open spec fn clamp0(v: int) -> int {
    if v < 0 {
        0
    } else {
        v
    }
}

pub open spec fn fourth(v: int) -> int {
    v * v * v * v
}

/// The two-stage Sobel magnitude at an interior pixel, before the caller's
/// final square root: each directional response is clamped at zero and
/// squared, and the two squares are squared again and added, so the value
/// here is `clamp(sx)^4 + clamp(sy)^4` on the 0..=765 intensity scale.  The
/// edge magnitude the convolution stands for is the square root of this
/// value, divided by 765^2 to return to the unit intensity scale.
pub open spec fn sobel_mag4(img: RgbImage8, cx: int, cy: int) -> int {
    fourth(clamp0(sobel_sum_x(img, cx, cy))) + fourth(clamp0(sobel_sum_y(img, cx, cy)))
}

/// Sobel convolution over the grayscale of `img`: every interior cell holds
/// `sobel_mag4`, and the one-pixel border (the whole grid, if a dimension is
/// under three) holds zero.
pub fn sobel_convolution(img: &RgbImage8) -> (out: GradientGrid)
    requires
        img.wf(),
    ensures
        out.wf(),
        out.width == img.width,
        out.height == img.height,
        forall|x: int, y: int|
            0 <= x < img.width && 0 <= y < img.height && sobel_interior(*img, x, y)
                ==> #[trigger] out.spec_at(x, y) == sobel_mag4(*img, x, y),
        forall|x: int, y: int|
            0 <= x < img.width && 0 <= y < img.height && !sobel_interior(*img, x, y)
                ==> #[trigger] out.spec_at(x, y) == 0,
{
    let w = img.width;
    let h = img.height;
    let n = img.pixels.len();
    let mut values: Vec<u64> = Vec::new();
    let mut i: usize = 0;
    while i < n
        invariant
            i <= n,
            values.len() == i,
            forall|j: int| 0 <= j < i ==> values[j] == 0u64,
        decreases n - i,
    {
        values.push(0u64);
        i = i + 1;
    }
    let mut out = GradientGrid { width: w, height: h, values };
    proof {
        assert forall|x: int, y: int|
            0 <= x < w && 0 <= y < h implies #[trigger] out.spec_at(x, y) == 0 by {
            lemma_row_major_index(w as int, h as int, x, y);
        }
    }
    if w < 3 || h < 3 {
        return out;
    }
    let mut cy: usize = 1;
    while cy < h - 1
        invariant
            1 <= cy <= h - 1,
            w >= 3,
            h >= 3,
            img.wf(),
            w == img.width,
            h == img.height,
            out.width == w,
            out.height == h,
            out.values.len() == w * h,
            forall|x: int, y: int|
                0 <= x < w && 0 <= y < h && sobel_interior(*img, x, y) && y < cy
                    ==> #[trigger] out.spec_at(x, y) == sobel_mag4(*img, x, y),
            forall|x: int, y: int|
                0 <= x < w && 0 <= y < h && !(sobel_interior(*img, x, y) && y < cy)
                    ==> #[trigger] out.spec_at(x, y) == 0,
        decreases h - 1 - cy,
    {
        let mut cx: usize = 1;
        while cx < w - 1
            invariant
                1 <= cx <= w - 1,
                1 <= cy <= h - 2,
                w >= 3,
                h >= 3,
                img.wf(),
                w == img.width,
                h == img.height,
                out.width == w,
                out.height == h,
                out.values.len() == w * h,
                forall|x: int, y: int|
                    0 <= x < w && 0 <= y < h && sobel_interior(*img, x, y) && (y < cy || (y == cy
                        && x < cx)) ==> #[trigger] out.spec_at(x, y) == sobel_mag4(*img, x, y),
                forall|x: int, y: int|
                    0 <= x < w && 0 <= y < h && !(sobel_interior(*img, x, y) && (y < cy || (y == cy
                        && x < cx))) ==> #[trigger] out.spec_at(x, y) == 0,
            decreases w - 1 - cx,
        {
            let l00 = img.at(cx - 1, cy - 1).luma3() as i64;
            let l01 = img.at(cx - 1, cy).luma3() as i64;
            let l02 = img.at(cx - 1, cy + 1).luma3() as i64;
            let l10 = img.at(cx, cy - 1).luma3() as i64;
            let l12 = img.at(cx, cy + 1).luma3() as i64;
            let l20 = img.at(cx + 1, cy - 1).luma3() as i64;
            let l21 = img.at(cx + 1, cy).luma3() as i64;
            let l22 = img.at(cx + 1, cy + 1).luma3() as i64;
            let sum_x: i64 = l00 - l02 + 2 * l10 - 2 * l12 + l20 - l22;
            let sum_y: i64 = l00 + 2 * l01 + l02 - l20 - 2 * l21 - l22;
            assert(-3060 <= sum_x <= 3060);
            assert(-3060 <= sum_y <= 3060);
            let cx4: u64 = if sum_x < 0 {
                0
            } else {
                let c = sum_x as u64;
                assert(c * c <= 3060 * 3060) by (nonlinear_arith)
                    requires
                        c <= 3060,
                {}
                let c2 = c * c;
                assert(c2 * c2 <= 9363600 * 9363600) by (nonlinear_arith)
                    requires
                        c2 <= 9363600,
                {}
                assert(fourth(c as int) == (c as int) * (c as int) * (c as int) * (c as int));
                assert(c2 * c2 == (c as int) * (c as int) * (c as int) * (c as int))
                    by (nonlinear_arith)
                    requires
                        c2 == c * c,
                {}
                c2 * c2
            };
            let cy4: u64 = if sum_y < 0 {
                0
            } else {
                let c = sum_y as u64;
                assert(c * c <= 3060 * 3060) by (nonlinear_arith)
                    requires
                        c <= 3060,
                {}
                let c2 = c * c;
                assert(c2 * c2 <= 9363600 * 9363600) by (nonlinear_arith)
                    requires
                        c2 <= 9363600,
                {}
                assert(fourth(c as int) == (c as int) * (c as int) * (c as int) * (c as int));
                assert(c2 * c2 == (c as int) * (c as int) * (c as int) * (c as int))
                    by (nonlinear_arith)
                    requires
                        c2 == c * c,
                {}
                c2 * c2
            };
            let v: u64 = cx4 + cy4;
            assert(v == sobel_mag4(*img, cx as int, cy as int));
            proof {
                lemma_row_major_index(w as int, h as int, cx as int, cy as int);
            }
            let idx = cy * w + cx;
            let ghost old_out = out;
            out.values.set(idx, v);
            proof {
                assert forall|x: int, y: int|
                    0 <= x < w && 0 <= y < h && !(x == cx && y == cy) implies out.spec_at(x, y)
                    == old_out.spec_at(x, y) by {
                    lemma_row_major_index(w as int, h as int, x, y);
                    if y * (w as int) + x == (cy as int) * (w as int) + (cx as int) {
                        lemma_row_major_unique(w as int, x, y, cx as int, cy as int);
                    }
                }
                assert(out.spec_at(cx as int, cy as int) == v);
            }
            cx = cx + 1;
        }
        cy = cy + 1;
    }
    out
}

/// On a uniform image the Sobel responses cancel term by term, so every
/// interior magnitude is zero: no gradient where there is no intensity
/// change.
pub proof fn lemma_sobel_uniform_zero(img: RgbImage8, p: Rgb8)
    requires
        img.wf(),
        forall|x: int, y: int|
            0 <= x < img.width && 0 <= y < img.height ==> #[trigger] img.spec_at(x, y) == p,
    ensures
        forall|cx: int, cy: int|
            sobel_interior(img, cx, cy) ==> #[trigger] sobel_mag4(img, cx, cy) == 0,
{
    assert forall|cx: int, cy: int|
        sobel_interior(img, cx, cy) implies #[trigger] sobel_mag4(img, cx, cy) == 0 by {
        assert(img.spec_at(cx - 1, cy - 1) == p);
        assert(img.spec_at(cx - 1, cy) == p);
        assert(img.spec_at(cx - 1, cy + 1) == p);
        assert(img.spec_at(cx, cy - 1) == p);
        assert(img.spec_at(cx, cy + 1) == p);
        assert(img.spec_at(cx + 1, cy - 1) == p);
        assert(img.spec_at(cx + 1, cy) == p);
        assert(img.spec_at(cx + 1, cy + 1) == p);
        assert(sobel_sum_x(img, cx, cy) == 0);
        assert(sobel_sum_y(img, cx, cy) == 0);
        assert(clamp0(0) == 0);
        assert(fourth(0) == 0);
    }
}

} // verus!
