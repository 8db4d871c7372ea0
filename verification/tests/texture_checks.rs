use image_metrics::coarseness::{coarseness, neighborhood_average, s_best};
use image_metrics::direction::{
    directional_gradients, directionality_from_angles, filter_significant, quantized_peaks,
};
use image_metrics::grid::GrayImage8;
use image_metrics::peaks::{directionality_score, find_peaks, peak_range, Peak};

fn half_grid() -> Vec<Vec<u8>> {
    // Eight columns of eight rows: the left half dark, the right half
    // bright, indexed grid[x][y].
    let mut g: Vec<Vec<u8>> = Vec::new();
    for x in 0..8 {
        let mut col: Vec<u8> = Vec::new();
        for _y in 0..8 {
            col.push(if x < 4 { 0 } else { 100 });
        }
        g.push(col);
    }
    g
}

#[test]
fn neighborhood_average_clips_and_keeps_divisor() {
    let g = vec![vec![10u8]];
    let r = neighborhood_average(&g, 0, 0, 1);
    // The 2x2 window around (0, 0) holds one in-bounds cell; the divisor
    // stays 4 regardless of clipping.
    assert_eq!(r.num, 10);
    assert_eq!(r.den, 4);
    let r2 = neighborhood_average(&g, 0, 0, 2);
    assert_eq!(r2.num, 10);
    assert_eq!(r2.den, 16);
}

#[test]
fn s_best_prefers_least_contrast_scale() {
    let g = half_grid();
    // Far from the edge every scale sees zero contrast and the tie keeps
    // the smallest scale; at the boundary small windows straddle it, so a
    // larger scale wins.
    assert_eq!(s_best(&g, 0, 0), 1);
    assert_eq!(s_best(&g, 4, 4), 4);
    assert_eq!(s_best(&g, 7, 7), 4);
}

#[test]
fn coarseness_averages_best_scales() {
    let g = half_grid();
    let r = coarseness(&g);
    assert_eq!(r.num, 160);
    assert_eq!(r.den, 64);
}

#[test]
fn uniform_grid_coarseness_reflects_border_clipping() {
    // In the interior of a uniform grid every scale sees zero contrast
    // and the tie keeps scale one; near the left and right borders the
    // clipped windows pick up zeros asymmetrically, so the largest scale
    // wins there.  Columns 0, 1 and 5 contribute 4, the rest 1.
    let g = vec![vec![7u8; 5]; 6];
    let r = coarseness(&g);
    assert_eq!(r.num, 75);
    assert_eq!(r.den, 30);
}

#[test]
fn directional_gradients_on_ramp() {
    // Pixels row-major 1..=9: the horizontal response at the center is
    // the right column sum minus the left, the vertical the top row minus
    // the bottom.
    let img = GrayImage8::new(3, 3, vec![1, 2, 3, 4, 5, 6, 7, 8, 9]).expect("well-formed");
    let out = directional_gradients(&img);
    assert_eq!(out, vec![(6u64, 18u64)]);
}

#[test]
fn gradients_of_tiny_image_are_empty() {
    let img = GrayImage8::new(2, 2, vec![1, 2, 3, 4]).expect("well-formed");
    assert_eq!(directional_gradients(&img), vec![]);
}

#[test]
fn gradients_of_uniform_image_are_zero_pairs() {
    let img = GrayImage8::uniform(4, 3, 9);
    let out = directional_gradients(&img);
    assert_eq!(out, vec![(0u64, 0u64), (0, 0)]);
}

#[test]
fn filter_keeps_pairs_reaching_threshold() {
    let pairs = vec![(6u64, 18u64), (2, 3), (30, 0)];
    assert_eq!(filter_significant(&pairs, 10), vec![(6, 18), (30, 0)]);
    assert_eq!(filter_significant(&pairs, 31), vec![]);
    assert_eq!(filter_significant(&pairs, 0), pairs);
}

#[test]
fn histogram_counts_and_shared_divisor() {
    // Four fixed-point angles: two just under pi/2, one at 3pi/4, one
    // just under pi.  With four bins the two pi/2 angles land in bin two,
    // the last half-bin is never filled, and the divisor counts every
    // angle once.
    let angles = vec![1647099u64, 1647099, 2470649, 3294198];
    let h = quantized_peaks(&angles, 4);
    assert_eq!(h.counts, vec![0u64, 0, 2, 0]);
    assert_eq!(h.divisor, 4);
}

#[test]
fn peak_range_walks_monotone_slopes() {
    let v = vec![5u64, 3, 1, 2, 9, 4, 4, 1];
    // At the peak index 4 the left walk stops where the climb from index
    // 2 begins, and the right walk stops where the descent levels out.
    assert_eq!(peak_range(&v, 4), (2, 5));
    // From index zero the left bound is pinned at zero and the right walk
    // descends to the valley before the next rise.
    assert_eq!(peak_range(&v, 0), (0, 2));
    assert_eq!(peak_range(&v, 7), (6, 7));
}

#[test]
fn single_dominant_bin_keeps_exactly_one_peak() {
    let mut v = vec![0u64; 16];
    v[5] = 100;
    let peaks = find_peaks(&v);
    assert_eq!(peaks.len(), 1);
    assert_eq!(peaks[0], Peak { value: 100, idx: 5, low: 4, high: 6 });
    let score = directionality_score(&peaks, 100);
    // One peak of normalized value 1.0 over a range of length two:
    // (1 + 0 + 1) * 100 / (2 * 100) = 1.
    assert_eq!(score.num, 200);
    assert_eq!(score.den, 200);
    assert_eq!(score.num / score.den, 1);
}

#[test]
fn two_peaks_survive_when_well_separated() {
    let mut v = vec![0u64; 16];
    v[3] = 100;
    v[11] = 90;
    let peaks = find_peaks(&v);
    assert_eq!(peaks.len(), 2);
    assert_eq!(peaks[0].idx, 3);
    assert_eq!(peaks[1].idx, 11);
}

#[test]
fn weak_secondary_peak_is_discarded() {
    let mut v = vec![0u64; 16];
    v[3] = 100;
    v[11] = 19;
    // The secondary has well-separated range ends but falls below a fifth
    // of the primary.
    let peaks = find_peaks(&v);
    assert_eq!(peaks.len(), 1);
    assert_eq!(peaks[0].idx, 3);
}

#[test]
fn directionality_from_angles_end_to_end() {
    let angles = vec![1647099u64, 1647099, 2470649, 3294198];
    let r = directionality_from_angles(&angles, 4);
    // Histogram [0, 0, 2, 0] with divisor 4: one peak at bin two with
    // range (1, 3); score = sum (j - 2)^2 * 2 / (2 * 4) = 4 / 8.
    assert_eq!(r.num, 4);
    assert_eq!(r.den, 8);
}

#[test]
fn directionality_of_flat_histogram_angles() {
    // All angles identical: a single dominant bin, one peak kept.
    let angles = vec![1647099u64; 10];
    let r = directionality_from_angles(&angles, 8);
    assert!(r.den > 0);
}
