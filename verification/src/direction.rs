use vstd::prelude::*;
use crate::grid::GrayImage8;
use crate::coarseness::spec_abs;
use crate::ratio::Ratio;
use crate::peaks::{
    Peak, find_peaks, directionality_score, spec_peak_at, spec_keep_secondary, spec_primary_idx,
    spec_secondary_idx, spec_score_num, spec_score_den,
};

verus! {

/// Fixed-point angle scale: an angle in radians is carried as
/// `round(radians * 2^20)`, so that every histogram comparison is an exact
/// integer comparison.
pub const ANGLE_ONE: u64 = 1048576;

/// Pi on the fixed-point angle scale: `round(pi * 2^20)`.
pub const PI_FIXED: u64 = 3294199;

pub open spec fn gray_at(img: GrayImage8, x: int, y: int) -> int {
    img.spec_at(x, y) as int
}

/// The horizontal directional response at interior pixel `(cx, cy)`: the
/// intensity sum of the column to the right minus the column to the left
/// (a directional kernel with columns -1, 0, +1, distinct from the Sobel
/// kernel).
pub open spec fn dir_sum_x(img: GrayImage8, cx: int, cy: int) -> int {
    gray_at(img, cx + 1, cy - 1) + gray_at(img, cx + 1, cy) + gray_at(img, cx + 1, cy + 1)
        - gray_at(img, cx - 1, cy - 1) - gray_at(img, cx - 1, cy) - gray_at(img, cx - 1, cy + 1)
}

/// The vertical directional response: the intensity sum of the row above
/// minus the row below.
pub open spec fn dir_sum_y(img: GrayImage8, cx: int, cy: int) -> int {
    gray_at(img, cx - 1, cy - 1) + gray_at(img, cx, cy - 1) + gray_at(img, cx + 1, cy - 1)
        - gray_at(img, cx - 1, cy + 1) - gray_at(img, cx, cy + 1) - gray_at(img, cx + 1, cy + 1)
}

/// `(cx, cy)` has a full 3x3 neighborhood inside the image.
pub open spec fn grad_interior(img: GrayImage8, x: int, y: int) -> bool {
    &&& 1 <= x <= img.width - 2
    &&& 1 <= y <= img.height - 2
}

/// The pair of absolute directional responses at one interior pixel.
pub open spec fn spec_grad_pair(img: GrayImage8, cx: int, cy: int) -> (int, int) {
    (spec_abs(dir_sum_x(img, cx, cy)), spec_abs(dir_sum_y(img, cx, cy)))
}

/// Entry `k` of the gradient vector is the pair of the `k`-th interior
/// pixel, columns outermost: `k = (cx - 1) * (height - 2) + (cy - 1)`.
pub open spec fn grad_entry_flat(img: GrayImage8, s: Seq<(u64, u64)>, k: int) -> bool {
    let cx = k / (img.height - 2) + 1;
    let cy = k % (img.height - 2) + 1;
    &&& s[k].0 == spec_grad_pair(img, cx, cy).0
    &&& s[k].1 == spec_grad_pair(img, cx, cy).1
}

/// The absolute directional gradient pairs of every interior pixel, walked
/// column by column.  An image with a dimension under three has no interior
/// pixel and yields the empty vector.
pub fn directional_gradients(img: &GrayImage8) -> (out: Vec<(u64, u64)>)
    requires
        img.wf(),
    ensures
        img.width < 3 || img.height < 3 ==> out.len() == 0,
        img.width >= 3 && img.height >= 3 ==> out.len() == (img.width - 2) * (img.height - 2),
        forall|k: int| 0 <= k < out.len() ==> #[trigger] grad_entry_flat(*img, out@, k),
{
    let w = img.width;
    let h = img.height;
    let mut out: Vec<(u64, u64)> = Vec::new();
    if w < 3 || h < 3 {
        return out;
    }
    let mut cx: usize = 1;
    while cx < w - 1
        invariant
            img.wf(),
            w == img.width,
            h == img.height,
            w >= 3,
            h >= 3,
            1 <= cx <= w - 1,
            out.len() == (cx - 1) * (h - 2),
            forall|k: int| 0 <= k < out.len() ==> #[trigger] grad_entry_flat(*img, out@, k),
        decreases w - cx,
    {
        let mut cy: usize = 1;
        while cy < h - 1
            invariant
                img.wf(),
                w == img.width,
                h == img.height,
                w >= 3,
                h >= 3,
                1 <= cx <= w - 2,
                1 <= cy <= h - 1,
                out.len() == (cx - 1) * (h - 2) + (cy - 1),
                forall|k: int| 0 <= k < out.len() ==> #[trigger] grad_entry_flat(*img, out@, k),
            decreases h - cy,
        {
            proof {
                crate::grid::lemma_row_major_index(h as int - 2, w as int - 2, cy as int - 1, cx as int - 1);
            }
            let g00 = img.at(cx - 1, cy - 1) as i64;
            let g01 = img.at(cx - 1, cy) as i64;
            let g02 = img.at(cx - 1, cy + 1) as i64;
            let g10 = img.at(cx, cy - 1) as i64;
            let g12 = img.at(cx, cy + 1) as i64;
            let g20 = img.at(cx + 1, cy - 1) as i64;
            let g21 = img.at(cx + 1, cy) as i64;
            let g22 = img.at(cx + 1, cy + 1) as i64;
            let sx: i64 = g20 + g21 + g22 - g00 - g01 - g02;
            let sy: i64 = g00 + g10 + g20 - g02 - g12 - g22;
            let ax: u64 = if sx < 0 {
                (-sx) as u64
            } else {
                sx as u64
            };
            let ay: u64 = if sy < 0 {
                (-sy) as u64
            } else {
                sy as u64
            };
            let ghost pre = out@;
            out.push((ax, ay));
            proof {
                let k0 = ((cx - 1) * (h - 2) + (cy - 1)) as int;
                vstd::arithmetic::div_mod::lemma_fundamental_div_mod_converse(
                    k0,
                    h as int - 2,
                    cx as int - 1,
                    cy as int - 1,
                );
                assert(grad_entry_flat(*img, out@, k0));
                assert forall|k: int| 0 <= k < out.len() implies #[trigger] grad_entry_flat(
                    *img,
                    out@,
                    k,
                ) by {
                    if k < k0 {
                        assert(grad_entry_flat(*img, pre, k));
                        assert(out@[k] == pre[k]);
                    }
                }
            }
            cy = cy + 1;
        }
        proof {
            assert((cx - 1) * (h as int - 2) + (h as int - 2) == ((cx - 1) + 1) * (h as int - 2))
                by (nonlinear_arith);
        }
        cx = cx + 1;
    }
    out
}

/// A gradient pair is significant when not both responses lie strictly
/// below the threshold; only significant pixels contribute an angle.
pub open spec fn spec_significant(p: (u64, u64), t: u64) -> bool {
    !(p.0 < t && p.1 < t)
}

/// The significant pairs of `s`, in order.
pub open spec fn filter_significant_seq(s: Seq<(u64, u64)>, t: u64) -> Seq<(u64, u64)>
    decreases s.len(),
{
    if s.len() == 0 {
        Seq::empty()
    } else {
        let r = filter_significant_seq(s.drop_last(), t);
        if spec_significant(s.last(), t) {
            r.push(s.last())
        } else {
            r
        }
    }
}

/// Keep the gradient pairs that reach the threshold in at least one
/// direction, in their original order.
pub fn filter_significant(pairs: &Vec<(u64, u64)>, t: u64) -> (out: Vec<(u64, u64)>)
    ensures
        out@ == filter_significant_seq(pairs@, t),
{
    let n = pairs.len();
    let mut out: Vec<(u64, u64)> = Vec::new();
    let mut i: usize = 0;
    while i < n
        invariant
            i <= n,
            n == pairs.len(),
            out@ == filter_significant_seq(pairs@.take(i as int), t),
        decreases n - i,
    {
        proof {
            assert(pairs@.take(i + 1).drop_last() =~= pairs@.take(i as int));
            assert(pairs@.take(i + 1).last() == pairs@[i as int]);
        }
        let p = pairs[i];
        if !(p.0 < t && p.1 < t) {
            out.push(p);
        }
        i = i + 1;
    }
    proof {
        assert(pairs@.take(n as int) =~= pairs@);
    }
    out
}

/// The value lies in the reference range of index `k`: at or above
/// `(2k - 1) * 2n` and below `(2k + 1) * 2n` (plain numbers, compared to
/// the fixed-point angle).  The histogram's shared divisor counts the
/// angles falling in these ranges over all bin indices but the last.
pub open spec fn in_reference_range(v: int, k: int, n: int) -> bool {
    &&& (2 * k - 1) * (2 * n) * (ANGLE_ONE as int) <= v
    &&& v < (2 * k + 1) * (2 * n) * (ANGLE_ONE as int)
}

/// The angle lies in bin `k`: at or above `(2k - 1) * pi / 2n` and below
/// `(2k + 1) * pi / 2n`, compared exactly by cross-multiplying with `2n`.
pub open spec fn in_bin(v: int, k: int, n: int) -> bool {
    &&& v * (2 * n) >= (2 * k - 1) * (PI_FIXED as int)
    &&& v * (2 * n) < (2 * k + 1) * (PI_FIXED as int)
}

/// How many angles of `s` fall in the reference range of index `k`.
pub open spec fn count_in_reference(s: Seq<u64>, k: int, n: int) -> int
    decreases s.len(),
{
    if s.len() == 0 {
        0
    } else {
        count_in_reference(s.drop_last(), k, n) + if in_reference_range(s.last() as int, k, n) {
            1int
        } else {
            0int
        }
    }
}

/// How many angles of `s` fall in bin `k`.
pub open spec fn count_in_bin(s: Seq<u64>, k: int, n: int) -> int
    decreases s.len(),
{
    if s.len() == 0 {
        0
    } else {
        count_in_bin(s.drop_last(), k, n) + if in_bin(s.last() as int, k, n) {
            1int
        } else {
            0int
        }
    }
}

/// The shared divisor: the reference-range counts summed over bin indices
/// `0 .. kcnt`.
pub open spec fn divisor_total(s: Seq<u64>, n: int, kcnt: nat) -> int
    decreases kcnt,
{
    if kcnt == 0 {
        0
    } else {
        divisor_total(s, n, (kcnt - 1) as nat) + count_in_reference(s, kcnt - 1, n)
    }
}


proof fn lemma_reference_range_zero_counts_all(s: Seq<u64>, n: int)
    requires
        2 <= n,
        forall|i: int| 0 <= i < s.len() ==> #[trigger] s[i] < 0x40_0000,
    ensures
        count_in_reference(s, 0, n) == s.len(),
    decreases s.len(),
{
    if s.len() > 0 {
        lemma_reference_range_zero_counts_all(s.drop_last(), n);
        assert(s.last() == s[s.len() - 1]);
        let v = s.last() as int;
        assert((2 * 0 - 1) * (2 * n) * (ANGLE_ONE as int) <= v && v < (2 * 0 + 1) * (2 * n) * (
        ANGLE_ONE as int)) by (nonlinear_arith)
            requires
                0 <= v < 0x40_0000,
                2 <= n,
                ANGLE_ONE as int == 1048576,
        {}
    }
}

proof fn lemma_reference_range_high_counts_none(s: Seq<u64>, k: int, n: int)
    requires
        2 <= n,
        1 <= k,
        forall|i: int| 0 <= i < s.len() ==> #[trigger] s[i] < 0x40_0000,
    ensures
        count_in_reference(s, k, n) == 0,
    decreases s.len(),
{
    if s.len() > 0 {
        lemma_reference_range_high_counts_none(s.drop_last(), k, n);
        assert(s.last() == s[s.len() - 1]);
        let v = s.last() as int;
        assert(!((2 * k - 1) * (2 * n) * (ANGLE_ONE as int) <= v)) by (nonlinear_arith)
            requires
                0 <= v < 0x40_0000,
                2 <= n,
                1 <= k,
                ANGLE_ONE as int == 1048576,
        {}
    }
}

proof fn lemma_divisor_total_high(s: Seq<u64>, n: int, kcnt: nat)
    requires
        2 <= n,
        1 <= kcnt,
        forall|i: int| 0 <= i < s.len() ==> #[trigger] s[i] < 0x40_0000,
    ensures
        divisor_total(s, n, kcnt) == s.len(),
    decreases kcnt,
{
    assert(divisor_total(s, n, kcnt) == divisor_total(s, n, (kcnt - 1) as nat)
        + count_in_reference(s, kcnt - 1, n));
    if kcnt == 1 {
        lemma_reference_range_zero_counts_all(s, n);
        assert(divisor_total(s, n, (kcnt - 1) as nat) == 0);
    } else {
        lemma_divisor_total_high(s, n, (kcnt - 1) as nat);
        lemma_reference_range_high_counts_none(s, kcnt - 1, n);
    }
}

/// The shared divisor counts every angle exactly once: for fixed-point
/// angles strictly below four fixed-point units (covering `[0, pi]`) and at
/// least two bins, only the first reference range can hold an angle, and
/// it holds them all.  The histogram is therefore normalized by the number
/// of surviving angles, even though the divisor is defined by the
/// width-dependent range walk.
pub proof fn lemma_divisor_counts_every_angle(s: Seq<u64>, n: int)
    requires
        2 <= n,
        forall|i: int| 0 <= i < s.len() ==> #[trigger] s[i] < 0x40_0000,
    ensures
        divisor_total(s, n, (n - 1) as nat) == s.len(),
{
    lemma_divisor_total_high(s, n, (n - 1) as nat);
}

/// The angle histogram: one bin count per angular band of width `pi / n`,
/// and the shared divisor that turns each count into the histogram's
/// relative value `count / divisor`.
pub struct AngleHistogram {
    pub counts: Vec<u64>,
    pub divisor: u64,
}

/// The normalized angle histogram of the directionality feature, on integer
/// counts: bin `k` of `n` holds the number of fixed-point angles in
/// `[(2k - 1) pi / 2n, (2k + 1) pi / 2n)`; the last bin is never filled;
/// and the shared divisor counts the angles falling in the
/// width-dependent reference ranges, summed over all bins but the last.
/// The histogram's normalized bin value is
/// `counts[k] / divisor`; peak selection and scoring work on the counts
/// directly, which compares and scores the same values exactly.
pub fn quantized_peaks(angles: &Vec<u64>, n: usize) -> (out: AngleHistogram)
    requires
        2 <= n <= 0x8000,
        angles.len() <= 0xFFFF_FFFF,
        forall|i: int| 0 <= i < angles.len() ==> #[trigger] angles[i] <= 0x40_0000,
    ensures
        out.counts.len() == n,
        forall|k: int| 0 <= k < n - 1 ==> #[trigger] out.counts[k] == count_in_bin(angles@, k, n as int),
        out.counts[n as int - 1] == 0,
        out.divisor == divisor_total(angles@, n as int, (n - 1) as nat),
        out.divisor <= 0x8000 * 0xFFFF_FFFF,
        forall|k: int| 0 <= k < n ==> #[trigger] out.counts[k] <= angles.len(),
{
    let m = angles.len();
    let n64: i64 = n as i64;
    let mut divisor: u64 = 0;
    let mut k: usize = 0;
    while k < n - 1
        invariant
            2 <= n <= 0x8000,
            n64 == n,
            m == angles.len(),
            m <= 0xFFFF_FFFF,
            forall|i: int| 0 <= i < angles.len() ==> #[trigger] angles[i] <= 0x40_0000,
            k <= n - 1,
            divisor == divisor_total(angles@, n as int, k as nat),
            divisor <= k * m,
        decreases n - 1 - k,
    {
        let ki: i64 = k as i64;
        let a_lo: i64 = 2 * ki - 1;
        let a_hi: i64 = 2 * ki + 1;
        let b: i64 = 2 * n64;
        proof {
            assert(-0x2_0000_0000 <= (a_lo as int) * (b as int) <= 0x2_0000_0000 && -0x2_0000_0000
                <= (a_hi as int) * (b as int) <= 0x2_0000_0000) by (nonlinear_arith)
                requires
                    -0x1_0001 <= a_lo <= 0x1_0000,
                    -0x1_0001 <= a_hi <= 0x1_0001,
                    0 <= b <= 0x1_0000,
            {}
        }
        let lo: i64 = (a_lo * b) * 1048576;
        let hi: i64 = (a_hi * b) * 1048576;
        let mut cnt: u64 = 0;
        let mut i: usize = 0;
        while i < m
            invariant
                m == angles.len(),
                2 <= n <= 0x8000,
                n64 == n,
                k < n,
                lo == (2 * (k as int) - 1) * (2 * (n as int)) * (ANGLE_ONE as int),
                hi == (2 * (k as int) + 1) * (2 * (n as int)) * (ANGLE_ONE as int),
                forall|ii: int| 0 <= ii < angles.len() ==> #[trigger] angles[ii] <= 0x40_0000,
                i <= m,
                cnt == count_in_reference(angles@.take(i as int), k as int, n as int),
                cnt <= i,
            decreases m - i,
        {
            proof {
                assert(angles@.take(i + 1).drop_last() =~= angles@.take(i as int));
                assert(angles@.take(i + 1).last() == angles@[i as int]);
            }
            let v = angles[i];
            if (v as i64) >= lo && (v as i64) < hi {
                cnt = cnt + 1;
            }
            i = i + 1;
        }
        proof {
            assert(angles@.take(m as int) =~= angles@);
            assert((k as int) * (m as int) + (m as int) == ((k as int) + 1) * (m as int))
                by (nonlinear_arith);
            assert(((k as int) + 1) * (m as int) <= 0x8000 * 0xFFFF_FFFF) by (nonlinear_arith)
                requires
                    0 <= (k as int) + 1 <= 0x8000,
                    0 <= m <= 0xFFFF_FFFF,
            {}
        }
        divisor = divisor + cnt;
        k = k + 1;
    }
    proof {
        assert((k as int) * (m as int) <= 0x8000 * 0xFFFF_FFFF) by (nonlinear_arith)
            requires
                0 <= k <= 0x8000,
                0 <= m <= 0xFFFF_FFFF,
        {}
    }
    let mut counts: Vec<u64> = Vec::new();
    let mut k: usize = 0;
    while k < n - 1
        invariant
            2 <= n <= 0x8000,
            n64 == n,
            m == angles.len(),
            m <= 0xFFFF_FFFF,
            forall|i: int| 0 <= i < angles.len() ==> #[trigger] angles[i] <= 0x40_0000,
            k <= n - 1,
            counts.len() == k,
            forall|j: int| 0 <= j < k ==> #[trigger] counts[j] == count_in_bin(angles@, j, n as int),
            forall|j: int| 0 <= j < k ==> #[trigger] counts[j] <= m,
        decreases n - 1 - k,
    {
        let ki: i64 = k as i64;
        proof {
            assert((2 * (k as int) + 1) * (PI_FIXED as int) <= 0x1_0000 * 0x40_0000)
                by (nonlinear_arith)
                requires
                    0 <= k < n <= 0x8000,
            {}
        }
        let blo: i64 = (2 * ki - 1) * 3294199;
        let bhi: i64 = (2 * ki + 1) * 3294199;
        let mut cnt: u64 = 0;
        let mut i: usize = 0;
        while i < m
            invariant
                m == angles.len(),
                2 <= n <= 0x8000,
                n64 == n,
                k < n,
                blo == (2 * (k as int) - 1) * (PI_FIXED as int),
                bhi == (2 * (k as int) + 1) * (PI_FIXED as int),
                forall|ii: int| 0 <= ii < angles.len() ==> #[trigger] angles[ii] <= 0x40_0000,
                i <= m,
                cnt == count_in_bin(angles@.take(i as int), k as int, n as int),
                cnt <= i,
            decreases m - i,
        {
            proof {
                assert(angles@.take(i + 1).drop_last() =~= angles@.take(i as int));
                assert(angles@.take(i + 1).last() == angles@[i as int]);
                assert((angles@[i as int] as int) * (2 * (n as int)) <= 0x40_0000 * 0x1_0000)
                    by (nonlinear_arith)
                    requires
                        0 <= angles@[i as int] <= 0x40_0000,
                        2 <= n <= 0x8000,
                {}
            }
            let v = angles[i];
            let scaled: i64 = (v as i64) * (2 * n64);
            if scaled >= blo && scaled < bhi {
                cnt = cnt + 1;
            }
            i = i + 1;
        }
        proof {
            assert(angles@.take(m as int) =~= angles@);
        }
        counts.push(cnt);
        k = k + 1;
    }
    counts.push(0);
    AngleHistogram { counts, divisor }
}

/// The histogram's counts as a sequence, for stating what the composition
/// below returns.
pub open spec fn spec_angle_counts(angles: Seq<u64>, n: int) -> Seq<u64> {
    Seq::new(n as nat, |k: int| if k < n - 1 {
        count_in_bin(angles, k, n) as u64
    } else {
        0u64
    })
}

/// The peaks kept on a histogram: always the primary, and the secondary
/// exactly when the selection rule keeps it.
pub open spec fn spec_peaks_of(v: Seq<u64>) -> Seq<Peak> {
    if spec_keep_secondary(v) {
        seq![spec_peak_at(v, spec_primary_idx(v)), spec_peak_at(v, spec_secondary_idx(v))]
    } else {
        seq![spec_peak_at(v, spec_primary_idx(v))]
    }
}

/// Tamura directionality from the fixed-point angles of the significant
/// gradient pixels: build the `n`-bin histogram with its shared divisor,
/// keep one or two peaks, and score them.  The result is the exact
/// rational directionality score; a higher value means a stronger
/// directional bias.
pub fn directionality_from_angles(angles: &Vec<u64>, n: usize) -> (r: Ratio)
    requires
        2 <= n <= 0x8000,
        angles.len() <= 0xFFFF_FFFF,
        forall|i: int| 0 <= i < angles.len() ==> #[trigger] angles[i] <= 0x40_0000,
    ensures
        r.num == spec_score_num(spec_peaks_of(spec_angle_counts(angles@, n as int))),
        r.den == spec_score_den(
            spec_peaks_of(spec_angle_counts(angles@, n as int)),
            divisor_total(angles@, n as int, (n - 1) as nat),
        ),
{
    let hist = quantized_peaks(angles, n);
    proof {
        assert(hist.counts@ =~= spec_angle_counts(angles@, n as int));
    }
    let peaks = find_peaks(&hist.counts);
    proof {
        let v = hist.counts@;
        assert(peaks@ =~= spec_peaks_of(v));
    }
    directionality_score(&peaks, hist.divisor)
}

} // verus!
