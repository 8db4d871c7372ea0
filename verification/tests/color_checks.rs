use image_metrics::colorfulness::{
    chroma, colorfulness_metrics_1_3, colorfulness_metrics_2, grayscale, grayscale_sd,
    lab_saturation, mean_of_chroma,
};
use image_metrics::colorspace::{
    lab_to_rgb, lab_to_rgb_image, rgb_to_lab, rgb_to_lab_image, LabImage, LabPixel,
};
use image_metrics::grid::{Rgb8, RgbImage8};

const FP: i64 = 1048576;

fn rgb_image(width: usize, height: usize, pixels: Vec<Rgb8>) -> RgbImage8 {
    RgbImage8::new(width, height, pixels).expect("well-formed image")
}

fn gray8(v: u8) -> Rgb8 {
    Rgb8 { r: v, g: v, b: v }
}

#[test]
fn red_pixel_matches_reference_lab() {
    let lab = rgb_to_lab(FP, 0, 0);
    // Reference Lab of linear pure red: L = 53.2405, a = 80.0943, b = 67.2020.
    let l = lab.l as f64 / FP as f64;
    let a = lab.a as f64 / FP as f64;
    let b = lab.b as f64 / FP as f64;
    assert!((l - 53.2405).abs() < 1e-3);
    assert!((a - 80.0943).abs() < 1e-3);
    assert!((b - 67.2020).abs() < 1e-3);
    assert_eq!(lab.l, 55826720);
    assert_eq!(lab.a, 83985000);
    assert_eq!(lab.b, 70466400);
}

#[test]
fn lab_round_trip_within_tolerance() {
    // One fixed-point tolerance of 1e-4 is about 105 units.
    let samples = [
        (FP, 0, 0),
        (0, FP, 0),
        (0, 0, FP),
        (FP, FP, FP),
        (0, 0, 0),
        (FP / 2, FP / 3, FP / 4),
        (104857, 524288, 943718),
        (123456, 654321, 999999),
    ];
    for (r, g, b) in samples {
        let lab = rgb_to_lab(r, g, b);
        let back = lab_to_rgb(lab.l, lab.a, lab.b);
        assert!((back.r - r).abs() <= 105, "r drifted: {} vs {}", back.r, r);
        assert!((back.g - g).abs() <= 105, "g drifted: {} vs {}", back.g, g);
        assert!((back.b - b).abs() <= 105, "b drifted: {} vs {}", back.b, b);
    }
}

#[test]
fn black_pixel_has_nonpositive_lightness_and_zero_saturation() {
    let lab = rgb_to_lab(0, 0, 0);
    assert_eq!(lab.l, -20);
    assert_eq!(lab.a, 0);
    assert_eq!(lab.b, 0);
    assert_eq!(lab_saturation(&lab), 0);
}

#[test]
fn all_black_image_has_zero_saturation_everywhere() {
    let img = rgb_image(3, 2, vec![gray8(0); 6]);
    let lab = rgb_to_lab_image(&img);
    for px in lab.pixels.iter() {
        assert_eq!(lab_saturation(px), 0);
    }
}

#[test]
fn image_round_trip_within_tolerance() {
    let img = rgb_image(2, 1, vec![Rgb8 { r: 200, g: 100, b: 50 }, Rgb8 { r: 3, g: 250, b: 17 }]);
    let lab = rgb_to_lab_image(&img);
    let back = lab_to_rgb_image(&lab);
    for (i, px) in back.pixels.iter().enumerate() {
        let orig = img.pixels[i];
        let rf = (orig.r as i64) * FP / 255;
        let gf = (orig.g as i64) * FP / 255;
        let bf = (orig.b as i64) * FP / 255;
        assert!((px.r - rf).abs() <= 105);
        assert!((px.g - gf).abs() <= 105);
        assert!((px.b - bf).abs() <= 105);
    }
}

#[test]
fn chroma_of_integer_triangle() {
    let p = LabPixel { l: FP, a: 300, b: 400 };
    assert_eq!(chroma(&p), 500);
    assert_eq!(lab_saturation(&p), 500);
}

#[test]
fn uniform_image_metric2_equals_single_saturation() {
    // A uniform color: metric two must be exactly the one pixel's
    // saturation, the variance part contributing nothing.
    let img = rgb_image(4, 3, vec![Rgb8 { r: 100, g: 150, b: 200 }; 12]);
    let lab = rgb_to_lab_image(&img);
    let p = lab.pixels[0];
    assert_eq!(p.l, 83521952);
    let sat = lab_saturation(&p);
    assert_eq!(sat, 236804);
    assert_eq!(colorfulness_metrics_2(&lab), sat);
    let c = chroma(&p);
    assert_eq!(c, 18862120);
    for px in lab.pixels.iter() {
        assert_eq!(chroma(px), c);
    }
}

#[test]
fn metrics_on_two_crafted_pixels() {
    let lab = LabImage {
        width: 2,
        height: 1,
        pixels: vec![LabPixel { l: FP, a: 300, b: 400 }, LabPixel { l: FP, a: 100, b: 0 }],
    };
    let (m1, m3) = colorfulness_metrics_1_3(&lab);
    // sigma_a = 100, sigma_b = 200, mean chroma = 300:
    // metric1 = 200 + 1.46 * 100 + 1.34 * 300 = 748
    // metric3 = isqrt(100^2 + 200^2) + 0.94 * 300 = 223 + 282 = 505
    assert_eq!(m1, 748);
    assert_eq!(m3, 505);
    assert_eq!(colorfulness_metrics_2(&lab), 500);
    let mc = mean_of_chroma(&lab);
    assert_eq!(mc.num, 600);
    assert_eq!(mc.den, 2);
}

#[test]
fn metrics_of_uniform_gray_vanish() {
    let img = rgb_image(2, 2, vec![gray8(128); 4]);
    let lab = rgb_to_lab_image(&img);
    // Equal channels cancel exactly in fixed point: a = b = 0, so the
    // deviations and the mean chroma all vanish.
    assert_eq!(lab.pixels[0].a, 0);
    assert_eq!(lab.pixels[0].b, 0);
    let (m1, m3) = colorfulness_metrics_1_3(&lab);
    assert_eq!(m1, 0);
    assert_eq!(m3, 0);
}

#[test]
fn grayscale_keeps_channel_sums() {
    let img = rgb_image(2, 1, vec![Rgb8 { r: 1, g: 2, b: 3 }, Rgb8 { r: 255, g: 255, b: 255 }]);
    let g = grayscale(&img);
    assert_eq!(g, vec![6u16, 765u16]);
}

#[test]
fn grayscale_sd_is_mean_of_squares() {
    let r = grayscale_sd(&vec![3u16, 4u16]);
    assert_eq!(r.num, 25);
    assert_eq!(r.den, 18);
    // The RMS statistic on the 0..=255 scale is sqrt(25/18) = sqrt of the
    // mean squared average intensity.
    let rms = (r.num as f64 / r.den as f64).sqrt();
    assert!((rms - (25.0f64 / 18.0).sqrt()).abs() < 1e-12);
}

#[test]
fn malformed_buffers_are_rejected() {
    assert!(RgbImage8::new(0, 3, vec![]).is_none());
    assert!(RgbImage8::new(2, 2, vec![gray8(0); 3]).is_none());
    assert!(RgbImage8::new(2, 2, vec![gray8(0); 4]).is_some());
}
