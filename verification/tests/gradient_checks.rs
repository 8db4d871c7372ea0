use image_metrics::gradient::{
    apply_fuzzy_threshold, apply_threshold, edge_pixels_ratio, sobel_convolution,
};
use image_metrics::grid::{GrayImage8, Rgb8, RgbImage8};
use image_metrics::noise::{measure_rms_noise, NoiseError};

fn rgb_img(width: usize, height: usize, pixels: Vec<Rgb8>) -> RgbImage8 {
    RgbImage8::new(width, height, pixels).expect("well-formed image")
}

fn mono(v: u8) -> Rgb8 {
    Rgb8 { r: v, g: v, b: v }
}

fn white() -> Rgb8 {
    Rgb8 { r: 255, g: 255, b: 255 }
}

fn black() -> Rgb8 {
    Rgb8 { r: 0, g: 0, b: 0 }
}

#[test]
fn threshold_splits_at_channel_sum() {
    let img = rgb_img(
        2,
        1,
        vec![Rgb8 { r: 128, g: 128, b: 127 }, Rgb8 { r: 127, g: 128, b: 127 }],
    );
    let out = apply_threshold(&img, 382);
    assert_eq!(out.pixels, vec![white(), black()]);
}

#[test]
fn threshold_is_idempotent() {
    let img = rgb_img(2, 2, vec![mono(10), mono(200), mono(128), mono(255)]);
    for t in [0u16, 100, 383, 765, 1000] {
        let once = apply_threshold(&img, t);
        let twice = apply_threshold(&once, t);
        assert_eq!(twice.pixels, once.pixels);
        assert_eq!(twice.width, once.width);
        assert_eq!(twice.height, once.height);
    }
}

#[test]
fn fuzzy_threshold_bands_are_exclusive() {
    // Sums: 6 (below the 765/100 floor), 10 (low band), 120 (mid band),
    // 400 (high band) with t_low = 100, t_high = 300.
    let img = rgb_img(
        4,
        1,
        vec![
            Rgb8 { r: 2, g: 2, b: 2 },
            Rgb8 { r: 10, g: 0, b: 0 },
            Rgb8 { r: 50, g: 40, b: 30 },
            Rgb8 { r: 200, g: 200, b: 0 },
        ],
    );
    let out = apply_fuzzy_threshold(&img, 100, 300);
    assert_eq!(out.high.pixels, vec![black(), black(), black(), white()]);
    assert_eq!(out.mid.pixels, vec![black(), black(), white(), black()]);
    assert_eq!(out.low.pixels, vec![black(), white(), black(), black()]);
}

#[test]
fn edge_ratio_counts_bright_pixels() {
    let img = GrayImage8::new(2, 2, vec![250, 100, 246, 245]).expect("well-formed image");
    let r = edge_pixels_ratio(&img);
    assert_eq!(r.num, 2);
    assert_eq!(r.den, 4);
}

#[test]
fn sobel_uniform_image_is_all_zero() {
    let img = RgbImage8::uniform(5, 4, mono(77));
    let out = sobel_convolution(&img);
    for y in 0..4 {
        for x in 0..5 {
            assert_eq!(out.at(x, y), 0);
        }
    }
}

#[test]
fn sobel_interior_value_and_zero_border() {
    // Column-major intensities v[x][y] laid out row-major:
    // intensities fall left to right and top to bottom.
    let img = rgb_img(
        3,
        3,
        vec![
            mono(90),
            mono(60),
            mono(30),
            mono(80),
            mono(50),
            mono(20),
            mono(70),
            mono(40),
            mono(10),
        ],
    );
    let out = sobel_convolution(&img);
    // sum_x = 240, sum_y = 720, value = 240^4 + 720^4.
    assert_eq!(out.at(1, 1), 240u64.pow(4) + 720u64.pow(4));
    for y in 0..3 {
        for x in 0..3 {
            if !(x == 1 && y == 1) {
                assert_eq!(out.at(x, y), 0);
            }
        }
    }
}

#[test]
fn sobel_tiny_image_is_all_zero() {
    let img = rgb_img(1, 1, vec![mono(200)]);
    let out = sobel_convolution(&img);
    assert_eq!(out.at(0, 0), 0);
}

#[test]
fn noise_of_uniform_image_is_zero() {
    let img = RgbImage8::uniform(4, 4, Rgb8 { r: 50, g: 60, b: 70 });
    let tiles = measure_rms_noise(&img, 2).expect("valid block size");
    assert_eq!(tiles.len(), 4);
    for t in tiles.iter() {
        assert_eq!(t.num, 0);
        assert_eq!(t.den, 64);
    }
}

#[test]
fn noise_of_checkerboard_follows_from_contrast() {
    // Alternating white and black pixels: every 2x2 tile holds two of
    // each, so its variance is (d/2)^2 with d the 0..=765 contrast.
    let mut pixels = Vec::new();
    for y in 0..4 {
        for x in 0..4 {
            pixels.push(if (x + y) % 2 == 0 { white() } else { black() });
        }
    }
    let img = rgb_img(4, 4, pixels);
    let tiles = measure_rms_noise(&img, 2).expect("valid block size");
    assert_eq!(tiles.len(), 4);
    for t in tiles.iter() {
        assert_eq!(t.num, 9363600);
        assert_eq!(t.den, 64);
        let std = (t.num as f64 / t.den as f64).sqrt();
        assert!((std - 382.5).abs() < 1e-9);
    }
}

#[test]
fn noise_rejects_block_size_reaching_a_dimension() {
    let img = rgb_img(4, 6, vec![mono(9); 24]);
    assert_eq!(measure_rms_noise(&img, 4), Err(NoiseError::InvalidBlockSize));
    assert_eq!(measure_rms_noise(&img, 6), Err(NoiseError::InvalidBlockSize));
    assert_eq!(measure_rms_noise(&img, 9), Err(NoiseError::InvalidBlockSize));
    assert_eq!(measure_rms_noise(&img, 0), Err(NoiseError::InvalidBlockSize));
    assert!(measure_rms_noise(&img, 3).is_ok());
}
