use vstd::prelude::*;
use crate::grid::{Rgb8, RgbImage8};
use crate::intmath::{spec_cbrt, icbrt64, tdiv, tdiv_i64};

verus! {

/// One unit on the fixed-point scale all colorspace values use: a real
/// value `v` is carried as `v * 2^20`, rounded toward zero.
pub const FP_ONE: i64 = 1048576;

/// A CIE-Lab pixel on the fixed-point scale: `l` is lightness times 2^20
/// (nominally 0..=100 before scaling), `a` and `b` the two chroma axes
/// times 2^20 (nominally -128..=127 before scaling).
#[derive(Clone, Copy, PartialEq, Eq, Structural, Debug)]
pub struct LabPixel {
    pub l: i64,
    pub a: i64,
    pub b: i64,
}

/// An RGB triple on the fixed-point scale, nominally 0..=1 per channel
/// before scaling; conversions from Lab may leave the nominal range
/// slightly, exactly as the real-valued transform does.
#[derive(Clone, Copy, PartialEq, Eq, Structural, Debug)]
pub struct RgbFp {
    pub r: i64,
    pub g: i64,
    pub b: i64,
}

/// The CIE forward nonlinearity on the fixed-point scale: the cube root
/// above the threshold 0.008856, and the linear ramp `7.787 t + 16/116`
/// below it.  The cube root of a fixed-point value `t` is
/// `cbrt(t * 2^40)`, which is again on the 2^20 scale.
pub open spec fn spec_lab_f(t: int) -> int {
    if t * 1000000 > 8856 * 1048576 {
        spec_cbrt((t * 1099511627776) as nat) as int
    } else {
        (7787 * t) / 1000 + (16 * 1048576) / 116
    }
}

/// The RGB to CIE-Lab transform on the fixed-point scale: the standard
/// linear RGB-to-XYZ matrix (D65 reference), normalization by the
/// reference white (Xn = 0.950456, Yn = 1, Zn = 1.088754), the forward
/// nonlinearity on each channel, and the L, a, b combinations.
pub open spec fn spec_rgb_to_lab(r: int, g: int, b: int) -> LabPixel {
    let x0 = (412453 * r + 357580 * g + 180423 * b) / 1000000;
    let y0 = (212671 * r + 715160 * g + 72169 * b) / 1000000;
    let z0 = (19334 * r + 119193 * g + 950227 * b) / 1000000;
    let x = (x0 * 1000000) / 950456;
    let z = (z0 * 1000000) / 1088754;
    let fx = spec_lab_f(x);
    let fy = spec_lab_f(y0);
    let fz = spec_lab_f(z);
    LabPixel {
        l: (116 * fy - 16 * 1048576) as i64,
        a: (500 * (fx - fy)) as i64,
        b: (200 * (fy - fz)) as i64,
    }
}

/// The inverse of the forward nonlinearity for the X and Z channels: the
/// cube where the cube clears the threshold 0.008856, the inverse linear
/// ramp otherwise.
pub open spec fn spec_inv_f(v: int) -> int {
    if v * v * v * 1000000 > 8856 * 1152921504606846976 {
        (v * v * v) / 1099511627776
    } else {
        tdiv((v - (16 * 1048576) / 116) * 1000, 7787)
    }
}

/// The inverse nonlinearity for the Y channel, whose branch tests the
/// lightness against 7.9996248 so that it matches the branch the forward
/// function took.
pub open spec fn spec_inv_y(l: int, y0: int) -> int {
    if l * 10000000 > 79996248 * 1048576 {
        (y0 * y0 * y0) / 1099511627776
    } else {
        tdiv(l * 10, 9033)
    }
}

/// The inverse transform on the fixed-point scale: reconstruct the
/// normalized XYZ channels, invert the nonlinearity per channel, scale by
/// the reference white, and apply the inverse matrix.
pub open spec fn spec_lab_to_rgb(l: int, a: int, b: int) -> RgbFp {
    let y0 = (l + 16 * 1048576) / 116;
    let x0 = tdiv(a, 500) + y0;
    let z0 = y0 - tdiv(b, 200);
    let x1 = spec_inv_f(x0);
    let y1 = spec_inv_y(l, y0);
    let z1 = spec_inv_f(z0);
    let x2 = tdiv(x1 * 950456, 1000000);
    let z2 = tdiv(z1 * 1088754, 1000000);
    RgbFp {
        r: tdiv(3240479 * x2 - 1537150 * y1 - 498535 * z2, 1000000) as i64,
        g: tdiv(-969256 * x2 + 1875992 * y1 + 41556 * z2, 1000000) as i64,
        b: tdiv(55648 * x2 - 204043 * y1 + 1057311 * z2, 1000000) as i64,
    }
}

/// The forward nonlinearity, executable.  The result of either branch lies
/// in `[144631, 1329999]` for inputs up to two fixed-point units.
fn lab_f(t: u64) -> (f: u64)
    requires
        t <= 2097152,
    ensures
        f == spec_lab_f(t as int),
        144631 <= f <= 1329999,
{
    if t * 1000000 > 8856 * 1048576 {
        let x: u64 = t * 1099511627776;
        let c = icbrt64(x);
        proof {
            assert(144631 <= c && c <= 1329999) by (nonlinear_arith)
                requires
                    (c as int) * (c as int) * (c as int) <= x as int,
                    (x as int) < ((c as int) + 1) * ((c as int) + 1) * ((c as int) + 1),
                    10211164487155712 <= x <= 2305843009213693952,
                    0 <= c,
            {}
        }
        c
    } else {
        (7787 * t) / 1000 + (16 * 1048576) / 116
    }
}

/// Convert one RGB pixel, channels on the fixed-point 0..=1 scale, to
/// CIE-Lab on the fixed-point scale.
pub fn rgb_to_lab(r: i64, g: i64, b: i64) -> (p: LabPixel)
    requires
        0 <= r <= 1048576,
        0 <= g <= 1048576,
        0 <= b <= 1048576,
    ensures
        p == spec_rgb_to_lab(r as int, g as int, b as int),
        -1048576 <= p.l <= 150994944,
        -592684000 <= p.a <= 592684000,
        -592684000 <= p.b <= 592684000,
{
    let ru = r as u64;
    let gu = g as u64;
    let bu = b as u64;
    let x0 = (412453 * ru + 357580 * gu + 180423 * bu) / 1000000;
    let y0 = (212671 * ru + 715160 * gu + 72169 * bu) / 1000000;
    let z0 = (19334 * ru + 119193 * gu + 950227 * bu) / 1000000;
    let x = x0 * 1000000 / 950456;
    let z = z0 * 1000000 / 1088754;
    let fx = lab_f(x);
    let fy = lab_f(y0);
    let fz = lab_f(z);
    LabPixel {
        l: 116 * (fy as i64) - 16 * 1048576,
        a: 500 * ((fx as i64) - (fy as i64)),
        b: 200 * ((fy as i64) - (fz as i64)),
    }
}

/// The inverse nonlinearity for the X and Z channels, executable.
fn inv_f(v: i64) -> (r: i64)
    requires
        -8000000 <= v <= 8000000,
    ensures
        r == spec_inv_f(v as int),
        -500000000 <= r <= 500000000,
{
    proof {
        assert(0 <= (v as int) * (v as int) <= 8000000 * 8000000 && -(8000000 * 8000000 * 8000000)
            <= (v as int) * (v as int) * (v as int) <= 8000000 * 8000000 * 8000000)
            by (nonlinear_arith)
            requires
                -8000000 <= v <= 8000000,
        {}
    }
    let c: i128 = (v as i128) * (v as i128) * (v as i128);
    if c * 1000000 > 8856i128 * 1152921504606846976 {
        (((c as u128) / 1099511627776) as i64)
    } else {
        tdiv_i64((v - 144631) * 1000, 7787)
    }
}

/// The inverse nonlinearity for the Y channel, executable.
fn inv_y(l: i64, y0: i64) -> (r: i64)
    requires
        -1048576 <= l <= 150994944,
        0 <= y0 <= 2000000,
    ensures
        r == spec_inv_y(l as int, y0 as int),
        -500000000 <= r <= 500000000,
{
    proof {
        assert(0 <= (y0 as int) * (y0 as int) <= 2000000 * 2000000 && 0 <= (y0 as int) * (
        y0 as int) * (y0 as int) <= 2000000 * 2000000 * 2000000) by (nonlinear_arith)
            requires
                0 <= y0 <= 2000000,
        {}
    }
    if l * 10000000 > 79996248i64 * 1048576 {
        let c: i128 = (y0 as i128) * (y0 as i128) * (y0 as i128);
        (((c as u128) / 1099511627776) as i64)
    } else {
        tdiv_i64(l * 10, 9033)
    }
}

/// Convert one CIE-Lab pixel back to fixed-point RGB.  The accepted ranges
/// cover everything `rgb_to_lab` can produce, with room to spare.
#[verifier::rlimit(100)]
pub fn lab_to_rgb(l: i64, a: i64, b: i64) -> (p: RgbFp)
    requires
        -1048576 <= l <= 150994944,
        -592684000 <= a <= 592684000,
        -592684000 <= b <= 592684000,
    ensures
        p == spec_lab_to_rgb(l as int, a as int, b as int),
{
    let y0: i64 = (((l + 16 * 1048576) as u64) / 116) as i64;
    let x0: i64 = tdiv_i64(a, 500) + y0;
    let z0: i64 = y0 - tdiv_i64(b, 200);
    let x1 = inv_f(x0);
    let y1 = inv_y(l, y0);
    let z1 = inv_f(z0);
    let x2 = tdiv_i64(x1 * 950456, 1000000);
    let z2 = tdiv_i64(z1 * 1088754, 1000000);
    RgbFp {
        r: tdiv_i64(3240479 * x2 - 1537150 * y1 - 498535 * z2, 1000000),
        g: tdiv_i64(-969256 * x2 + 1875992 * y1 + 41556 * z2, 1000000),
        b: tdiv_i64(55648 * x2 - 204043 * y1 + 1057311 * z2, 1000000),
    }
}

/// A rectangular grid of Lab pixels/// A rectangular grid of Lab pixels, row-major, with every pixel inside
/// the ranges `rgb_to_lab` can produce.
pub struct LabImage {
    pub width: usize,
    pub height: usize,
    pub pixels: Vec<LabPixel>,
}

pub open spec fn lab_pixel_in_range(p: LabPixel) -> bool {
    &&& -1048576 <= p.l <= 150994944
    &&& -592684000 <= p.a <= 592684000
    &&& -592684000 <= p.b <= 592684000
}

impl LabImage {
    pub open spec fn wf(self) -> bool {
        &&& self.width >= 1
        &&& self.height >= 1
        &&& self.pixels.len() == self.width * self.height
        &&& forall|i: int| 0 <= i < self.pixels.len() ==> lab_pixel_in_range(#[trigger] self.pixels[i])
    }

    pub open spec fn spec_at(self, x: int, y: int) -> LabPixel {
        self.pixels[y * self.width + x]
    }
}

/// A rectangular grid of fixed-point RGB pixels, row-major.
pub struct RgbFpImage {
    pub width: usize,
    pub height: usize,
    pub pixels: Vec<RgbFp>,
}

impl RgbFpImage {
    pub open spec fn wf(self) -> bool {
        &&& self.width >= 1
        &&& self.height >= 1
        &&& self.pixels.len() == self.width * self.height
    }

    pub open spec fn spec_at(self, x: int, y: int) -> RgbFp {
        self.pixels[y * self.width + x]
    }
}

/// An 8-bit channel on the fixed-point 0..=1 scale: `c / 255` as a
/// fixed-point value.
pub open spec fn spec_channel_fp(c: int) -> int {
    (c * 1048576) / 255
}

/// The Lab pixel an 8-bit RGB pixel converts to.
pub open spec fn spec_lab_of_rgb8(p: Rgb8) -> LabPixel {
    spec_rgb_to_lab(
        spec_channel_fp(p.r as int),
        spec_channel_fp(p.g as int),
        spec_channel_fp(p.b as int),
    )
}

/// Convert a whole 8-bit RGB image to a Lab image of the same dimensions,
/// pixel by pixel.
pub fn rgb_to_lab_image(img: &RgbImage8) -> (out: LabImage)
    requires
        img.wf(),
    ensures
        out.wf(),
        out.width == img.width,
        out.height == img.height,
        forall|i: int|
            0 <= i < img.pixels.len() ==> out.pixels[i] == spec_lab_of_rgb8(
                #[trigger] img.pixels@[i],
            ),
{
    let n = img.pixels.len();
    let mut pixels: Vec<LabPixel> = Vec::new();
    let mut i: usize = 0;
    while i < n
        invariant
            i <= n,
            n == img.pixels.len(),
            pixels.len() == i,
            forall|j: int|
                0 <= j < i ==> pixels[j] == spec_lab_of_rgb8(#[trigger] img.pixels@[j]),
            forall|j: int| 0 <= j < i ==> lab_pixel_in_range(#[trigger] pixels[j]),
        decreases n - i,
    {
        let px = img.pixels[i];
        let rf = ((px.r as u64) * 1048576 / 255) as i64;
        let gf = ((px.g as u64) * 1048576 / 255) as i64;
        let bf = ((px.b as u64) * 1048576 / 255) as i64;
        let lab = rgb_to_lab(rf, gf, bf);
        pixels.push(lab);
        i = i + 1;
    }
    LabImage { width: img.width, height: img.height, pixels }
}

/// The fixed-point RGB pixel a Lab pixel converts back to.
pub open spec fn spec_rgb_of_lab(p: LabPixel) -> RgbFp {
    spec_lab_to_rgb(p.l as int, p.a as int, p.b as int)
}

/// Convert a whole Lab image back to a fixed-point RGB image of the same
/// dimensions, pixel by pixel.
pub fn lab_to_rgb_image(img: &LabImage) -> (out: RgbFpImage)
    requires
        img.wf(),
    ensures
        out.wf(),
        out.width == img.width,
        out.height == img.height,
        forall|i: int|
            0 <= i < img.pixels.len() ==> out.pixels[i] == spec_rgb_of_lab(
                #[trigger] img.pixels@[i],
            ),
{
    let n = img.pixels.len();
    let mut pixels: Vec<RgbFp> = Vec::new();
    let mut i: usize = 0;
    while i < n
        invariant
            i <= n,
            n == img.pixels.len(),
            img.wf(),
            pixels.len() == i,
            forall|j: int|
                0 <= j < i ==> pixels[j] == spec_rgb_of_lab(#[trigger] img.pixels@[j]),
        decreases n - i,
    {
        let px = img.pixels[i];
        let rgb = lab_to_rgb(px.l, px.a, px.b);
        pixels.push(rgb);
        i = i + 1;
    }
    RgbFpImage { width: img.width, height: img.height, pixels }
}

} // verus!
