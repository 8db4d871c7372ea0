use vstd::prelude::*;
use crate::ratio::Ratio;

verus! {

/// A local maximum of a histogram: its value, its bin index, and the
/// interval of bins `low..=high` attributed to it by the outward walk.
/// The score weights the interval's bins but divides by `high - low`, one
/// less than the number of bins weighted.
#[derive(Clone, Copy, PartialEq, Eq, Structural, Debug)]
pub struct Peak {
    pub value: u64,
    pub idx: usize,
    pub low: usize,
    pub high: usize,
}

/// Walk downward from bin `i`: the first position whose left neighbor stops
/// the strict climb (its value is at or above the current bin) bounds the
/// peak's range on the left; if the walk reaches the first bin, the range is
/// bounded by index zero.
pub open spec fn range_low_from(v: Seq<u64>, i: int) -> int
    decreases i,
{
    if i <= 0 {
        0
    } else if v[i - 1] >= v[i] {
        i
    } else {
        range_low_from(v, i - 1)
    }
}

/// The left range bound of a peak at `idx`: the walk starts one bin below
/// the peak.
pub open spec fn spec_range_low(v: Seq<u64>, idx: int) -> int {
    range_low_from(v, idx - 1)
}

/// Walk upward from bin `i`: the first position whose right neighbor stops
/// the descent (its value is at or above the current bin) bounds the peak's
/// range on the right; if the walk reaches the last bin, the range is
/// bounded by the last index.
pub open spec fn range_high_from(v: Seq<u64>, i: int) -> int
    decreases v.len() - i,
{
    if i >= v.len() - 1 {
        v.len() - 1
    } else if v[i + 1] >= v[i] {
        i
    } else {
        range_high_from(v, i + 1)
    }
}

/// The right range bound of a peak at `idx`: the walk starts at the peak
/// itself.
pub open spec fn spec_range_high(v: Seq<u64>, idx: int) -> int {
    range_high_from(v, idx)
}

pub proof fn lemma_range_low_bounds(v: Seq<u64>, i: int)
    ensures
        0 <= range_low_from(v, i),
        i >= 0 ==> range_low_from(v, i) <= i,
    decreases i,
{
    if i > 0 && !(v[i - 1] >= v[i]) {
        lemma_range_low_bounds(v, i - 1);
    }
}

pub proof fn lemma_range_high_bounds(v: Seq<u64>, i: int)
    requires
        0 <= i <= v.len() - 1,
    ensures
        i <= range_high_from(v, i) <= v.len() - 1,
    decreases v.len() - i,
{
    if !(i >= v.len() - 1) && !(v[i + 1] >= v[i]) {
        lemma_range_high_bounds(v, i + 1);
    }
}

/// The bin range attributed to a peak at `idx`, computed by the two
/// outward walks.
pub fn peak_range(v: &Vec<u64>, idx: usize) -> (r: (usize, usize))
    requires
        v.len() >= 1,
        idx < v.len(),
    ensures
        r.0 == spec_range_low(v@, idx as int),
        r.1 == spec_range_high(v@, idx as int),
        0 <= r.0 <= idx,
        idx <= r.1 <= v.len() - 1,
{
    proof {
        lemma_range_low_bounds(v@, idx as int - 1);
        lemma_range_high_bounds(v@, idx as int);
    }
    let mut i: usize = if idx == 0 {
        0
    } else {
        idx - 1
    };
    while i > 0 && v[i - 1] < v[i]
        invariant
            i < v.len(),
            i <= idx,
            range_low_from(v@, idx as int - 1) == range_low_from(v@, i as int),
        decreases i,
    {
        i = i - 1;
    }
    let low = i;
    let mut j: usize = idx;
    while j < v.len() - 1 && v[j + 1] < v[j]
        invariant
            idx <= j < v.len(),
            range_high_from(v@, idx as int) == range_high_from(v@, j as int),
        decreases v.len() - j,
    {
        j = j + 1;
    }
    let high = j;
    (low, high)
}

/// The index of the largest histogram value among the first `cnt` bins, the
/// latest such index when values tie (as a stable ascending sort by value
/// would order them).
pub open spec fn primary_from(v: Seq<u64>, cnt: int) -> int
    decreases cnt,
{
    if cnt <= 1 {
        0
    } else {
        let p = primary_from(v, cnt - 1);
        if v[cnt - 1] >= v[p] {
            cnt - 1
        } else {
            p
        }
    }
}

pub open spec fn spec_primary_idx(v: Seq<u64>) -> int {
    primary_from(v, v.len() as int)
}

/// The index of the largest value among the first `cnt` bins other than
/// `p`, the latest such index when values tie.
pub open spec fn secondary_from(v: Seq<u64>, cnt: int, p: int) -> int
    decreases cnt,
{
    if cnt <= 0 {
        if p == 0 {
            1
        } else {
            0
        }
    } else {
        let q = secondary_from(v, cnt - 1, p);
        if cnt - 1 != p && v[cnt - 1] >= v[q] {
            cnt - 1
        } else {
            q
        }
    }
}

pub open spec fn spec_secondary_idx(v: Seq<u64>) -> int {
    secondary_from(v, v.len() as int, spec_primary_idx(v))
}

/// The primary peak, assembled from its index and walked range.
pub open spec fn spec_peak_at(v: Seq<u64>, i: int) -> Peak {
    Peak {
        value: v[i],
        idx: i as usize,
        low: spec_range_low(v, i) as usize,
        high: spec_range_high(v, i) as usize,
    }
}

/// The secondary peak survives only if the histogram values at both ends of
/// its range lie below half of its own value and its value exceeds a fifth
/// of the primary's.  (With integer bin counts both ratios compare exactly;
/// a zero secondary value never survives, matching the undefined quotient
/// it would produce.)
pub open spec fn spec_keep_secondary(v: Seq<u64>) -> bool {
    let p = spec_primary_idx(v);
    let q = spec_secondary_idx(v);
    let l = spec_range_low(v, q);
    let h = spec_range_high(v, q);
    &&& 2 * v[l] < v[q]
    &&& 2 * v[h] < v[q]
    &&& 5 * v[q] > v[p]
}

pub proof fn lemma_primary_from_bounds(v: Seq<u64>, cnt: int)
    requires
        cnt <= v.len(),
    ensures
        0 <= primary_from(v, cnt) < if cnt <= 1 {
            1int
        } else {
            cnt
        },
        forall|i: int| 0 <= i < cnt ==> #[trigger] v[i] <= v[primary_from(v, cnt)],
        forall|i: int| primary_from(v, cnt) < i < cnt ==> #[trigger] v[i] < v[primary_from(v, cnt)],
    decreases cnt,
{
    if cnt > 1 {
        lemma_primary_from_bounds(v, cnt - 1);
    }
}

/// The primary index is the latest maximum of the histogram.
pub proof fn lemma_primary_is_max(v: Seq<u64>)
    requires
        v.len() >= 1,
    ensures
        0 <= spec_primary_idx(v) < v.len(),
        forall|i: int| 0 <= i < v.len() ==> #[trigger] v[i] <= v[spec_primary_idx(v)],
        forall|i: int| spec_primary_idx(v) < i < v.len() ==> #[trigger] v[i] < v[spec_primary_idx(v)],
{
    lemma_primary_from_bounds(v, v.len() as int);
}

pub proof fn lemma_secondary_from_bounds(v: Seq<u64>, cnt: int, p: int)
    requires
        cnt <= v.len(),
        0 <= p,
    ensures
        0 <= secondary_from(v, cnt, p),
        secondary_from(v, cnt, p) != p,
        secondary_from(v, cnt, p) < cnt || secondary_from(v, cnt, p) == (if p == 0 {
            1int
        } else {
            0int
        }),
        forall|i: int| 0 <= i < cnt && i != p ==> #[trigger] v[i] <= v[secondary_from(v, cnt, p)],
        forall|i: int|
            secondary_from(v, cnt, p) < i < cnt && i != p ==> #[trigger] v[i] < v[secondary_from(v, cnt, p)],
    decreases cnt,
{
    if cnt > 0 {
        lemma_secondary_from_bounds(v, cnt - 1, p);
    }
}

/// The secondary index is the latest maximum of the histogram with the
/// primary bin removed.
pub proof fn lemma_secondary_is_max(v: Seq<u64>)
    requires
        v.len() >= 2,
    ensures
        0 <= spec_secondary_idx(v) < v.len(),
        spec_secondary_idx(v) != spec_primary_idx(v),
        forall|i: int|
            0 <= i < v.len() && i != spec_primary_idx(v) ==> #[trigger] v[i] <= v[spec_secondary_idx(v)],
        forall|i: int|
            spec_secondary_idx(v) < i < v.len() && i != spec_primary_idx(v) ==> #[trigger] v[i] < v[
                spec_secondary_idx(v)],
{
    lemma_primary_is_max(v);
    lemma_secondary_from_bounds(v, v.len() as int, spec_primary_idx(v));
}

/// Find the two candidate peaks of a histogram — the largest and the second
/// largest bin, ties resolved to the later index — walk their ranges, and
/// keep the secondary only where both range ends fall below half its value
/// and its value exceeds a fifth of the primary's.  The primary peak is
/// always kept, and every returned range is a nonempty interval around its
/// peak.
pub fn find_peaks(v: &Vec<u64>) -> (out: Vec<Peak>)
    requires
        v.len() >= 2,
    ensures
        1 <= out.len() <= 2,
        out[0] == spec_peak_at(v@, spec_primary_idx(v@)),
        out.len() == 2 <==> spec_keep_secondary(v@),
        out.len() == 2 ==> out[1] == spec_peak_at(v@, spec_secondary_idx(v@)),
        forall|t: int|
            0 <= t < out.len() ==> {
                &&& (#[trigger] out[t]).low < out[t].high
                &&& out[t].high < v.len()
                &&& out[t].low <= out[t].idx <= out[t].high
                &&& out[t].value == v@[out[t].idx as int]
            },
{
    proof {
        lemma_primary_is_max(v@);
        lemma_secondary_is_max(v@);
    }
    let n = v.len();
    let mut p: usize = 0;
    let mut i: usize = 1;
    while i < n
        invariant
            v.len() == n,
            1 <= i <= n,
            0 <= p < i,
            p == primary_from(v@, i as int),
        decreases n - i,
    {
        if v[i] >= v[p] {
            p = i;
        }
        i = i + 1;
    }
    let mut q: usize = if p == 0 {
        1
    } else {
        0
    };
    let mut i: usize = 0;
    while i < n
        invariant
            v.len() == n,
            n >= 2,
            i <= n,
            p == spec_primary_idx(v@),
            p < n,
            q == secondary_from(v@, i as int, p as int),
            q < n,
            q != p,
        decreases n - i,
    {
        proof {
            lemma_secondary_from_bounds(v@, i as int + 1, p as int);
        }
        if i != p && v[i] >= v[q] {
            q = i;
        }
        i = i + 1;
    }
    let (low1, high1) = peak_range(v, p);
    let (low2, high2) = peak_range(v, q);
    proof {
        if p < n - 1 {
            assert(v@[p as int + 1] < v@[p as int]);
            assert(range_high_from(v@, p as int) == range_high_from(v@, p as int + 1));
            lemma_range_high_bounds(v@, p as int + 1);
        } else {
            assert(p == n - 1 && p >= 1);
            lemma_range_low_bounds(v@, p as int - 1);
        }
    }
    let peak1 = Peak { value: v[p], idx: p, low: low1, high: high1 };
    let peak2 = Peak { value: v[q], idx: q, low: low2, high: high2 };
    let mut out: Vec<Peak> = Vec::new();
    out.push(peak1);
    let v_low2 = v[low2];
    let v_high2 = v[high2];
    if (v_low2 as u128) * 2 < peak2.value as u128 && (v_high2 as u128) * 2
        < peak2.value as u128 && (peak2.value as u128) * 5 > peak1.value as u128 {
        proof {
            assert(v@[low2 as int] < v@[q as int]);
            assert(v@[high2 as int] < v@[q as int]);
            assert(low2 != q && high2 != q);
        }
        out.push(peak2);
    }
    out
}

/// The sum, over `cnt` bins starting at `low`, of the squared distance to
/// the peak index weighted by the peak's value:
/// `sum of (j - idx)^2 * value for j in low..low+cnt`.
pub open spec fn sq_dev_sum(idx: int, value: int, low: int, cnt: nat) -> int
    decreases cnt,
{
    if cnt == 0 {
        0
    } else {
        sq_dev_sum(idx, value, low, (cnt - 1) as nat) + (low + cnt - 1 - idx) * (low + cnt - 1
            - idx) * value
    }
}

/// The weighted second moment of one peak over its attributed range,
/// bins `low..=high`.
pub open spec fn spec_peak_sum(pk: Peak) -> int {
    sq_dev_sum(pk.idx as int, pk.value as int, pk.low as int, (pk.high - pk.low + 1) as nat)
}

pub open spec fn spec_range_len(pk: Peak) -> int {
    pk.high - pk.low
}

/// Numerator of the directionality score over the kept peaks: each peak
/// contributes its weighted second moment divided by its range length and
/// by the shared histogram divisor, and the total is multiplied by the
/// number of kept peaks.
pub open spec fn spec_score_num(peaks: Seq<Peak>) -> int {
    if peaks.len() == 1 {
        spec_peak_sum(peaks[0])
    } else {
        2 * (spec_peak_sum(peaks[0]) * spec_range_len(peaks[1]) + spec_peak_sum(peaks[1])
            * spec_range_len(peaks[0]))
    }
}

pub open spec fn spec_score_den(peaks: Seq<Peak>, divisor: int) -> int {
    if peaks.len() == 1 {
        spec_range_len(peaks[0]) * divisor
    } else {
        spec_range_len(peaks[0]) * spec_range_len(peaks[1]) * divisor
    }
}

pub proof fn lemma_sq_dev_sum_bounds(idx: int, value: int, low: int, cnt: nat, b: int)
    requires
        0 <= value,
        0 <= idx <= b,
        0 <= low,
        low + cnt <= b + 1,
    ensures
        0 <= sq_dev_sum(idx, value, low, cnt) <= cnt * (b * b) * value,
    decreases cnt,
{
    if cnt > 0 {
        lemma_sq_dev_sum_bounds(idx, value, low, (cnt - 1) as nat, b);
        let j = low + cnt - 1;
        assert(0 <= (j - idx) * (j - idx) * value <= (b * b) * value) by (nonlinear_arith)
            requires
                0 <= value,
                0 <= idx <= b,
                0 <= j <= b,
        {}
        assert((cnt - 1) * (b * b) * value + (b * b) * value == cnt * (b * b) * value)
            by (nonlinear_arith);
    }
}

/// The directionality score over the kept peaks of a histogram of integer
/// bin counts sharing `divisor`: the exact rational
/// `peaks * sum over peaks of (second moment / (range length * divisor))`.
/// Bin values are the counts, so the score of the count histogram equals
/// the score of the normalized one.
pub fn directionality_score(peaks: &Vec<Peak>, divisor: u64) -> (r: Ratio)
    requires
        1 <= peaks.len() <= 2,
        forall|t: int|
            0 <= t < peaks.len() ==> {
                &&& (#[trigger] peaks[t]).low < peaks[t].high
                &&& peaks[t].high <= 0xFFFF
                &&& peaks[t].low <= peaks[t].idx <= peaks[t].high
                &&& peaks[t].value <= 0xFFFF_FFFF
            },
    ensures
        r.num == spec_score_num(peaks@),
        r.den == spec_score_den(peaks@, divisor as int),
{
    let a1 = peak_moment(&peaks[0]);
    let l1: u128 = (peaks[0].high - peaks[0].low) as u128;
    proof {
        assert((l1 as int) * (divisor as int) < 0x1_0000_0000_0000_0000_0000_0000_0000_0000)
            by (nonlinear_arith)
            requires
                0 <= l1 <= 0x10000,
                0 <= divisor <= 0xFFFF_FFFF_FFFF_FFFF,
        {}
    }
    if peaks.len() == 1 {
        Ratio { num: a1, den: l1 * (divisor as u128) }
    } else {
        let a2 = peak_moment(&peaks[1]);
        let l2: u128 = (peaks[1].high - peaks[1].low) as u128;
        proof {
            assert(2 * ((a1 as int) * (l2 as int) + (a2 as int) * (l1 as int)) < 0x1_0000_0000_0000_0000_0000_0000_0000_0000)
                by (nonlinear_arith)
                requires
                    0 <= a1 <= 0x10000 * (0xFFFF * 0xFFFF) * 0xFFFF_FFFF,
                    0 <= a2 <= 0x10000 * (0xFFFF * 0xFFFF) * 0xFFFF_FFFF,
                    0 <= l1 <= 0x10000,
                    0 <= l2 <= 0x10000,
            {}
            assert((l1 as int) * (l2 as int) <= 0x10000 * 0x10000 && (l1 as int) * (l2 as int)
                * (divisor as int) < 0x1_0000_0000_0000_0000_0000_0000_0000_0000)
                by (nonlinear_arith)
                requires
                    0 <= l1 <= 0x10000,
                    0 <= l2 <= 0x10000,
                    0 <= divisor <= 0xFFFF_FFFF_FFFF_FFFF,
            {}
        }
        Ratio { num: 2 * (a1 * l2 + a2 * l1), den: l1 * l2 * (divisor as u128) }
    }
}

/// The weighted second moment of one peak, the exact integer
/// `sum of (j - idx)^2 * value over the peak's range`.
fn peak_moment(pk: &Peak) -> (a: u128)
    requires
        pk.low < pk.high,
        pk.high <= 0xFFFF,
        pk.low <= pk.idx <= pk.high,
        pk.value <= 0xFFFF_FFFF,
    ensures
        a == spec_peak_sum(*pk),
        a <= 0x10000 * (0xFFFF * 0xFFFF) * 0xFFFF_FFFF,
{
    let mut a: u128 = 0;
    let mut j: usize = pk.low;
    while j <= pk.high
        invariant
            pk.low <= j <= pk.high + 1,
            pk.high <= 0xFFFF,
            pk.low <= pk.idx <= pk.high,
            pk.value <= 0xFFFF_FFFF,
            a == sq_dev_sum(pk.idx as int, pk.value as int, pk.low as int, (j - pk.low) as nat),
        decreases pk.high + 1 - j,
    {
        proof {
            lemma_sq_dev_sum_bounds(
                pk.idx as int,
                pk.value as int,
                pk.low as int,
                (j - pk.low) as nat,
                0xFFFF,
            );
            assert(((j - pk.low) as nat) * (0xFFFF * 0xFFFF) * (pk.value as int) <= 0x10000 * (
            0xFFFF * 0xFFFF) * 0xFFFF_FFFF) by (nonlinear_arith)
                requires
                    0 <= (j - pk.low) as nat <= 0x10000,
                    0 <= pk.value <= 0xFFFF_FFFF,
            {}
        }
        let d: u64 = if j >= pk.idx {
            (j - pk.idx) as u64
        } else {
            (pk.idx - j) as u64
        };
        proof {
            let ji = j as int;
            let ii = pk.idx as int;
            assert((d as int) * (d as int) == (ji - ii) * (ji - ii)) by (nonlinear_arith)
                requires
                    d as int == if ji >= ii {
                        ji - ii
                    } else {
                        ii - ji
                    },
            {}
            assert(0 <= (d as int) * (d as int) <= 0xFFFF * 0xFFFF) by (nonlinear_arith)
                requires
                    0 <= d <= 0xFFFF,
            {}
            assert(0 <= (d as int) * (d as int) * (pk.value as int) <= (0xFFFF * 0xFFFF)
                * 0xFFFF_FFFF) by (nonlinear_arith)
                requires
                    0 <= (d as int) * (d as int) <= 0xFFFF * 0xFFFF,
                    0 <= pk.value <= 0xFFFF_FFFF,
            {}
        }
        let term: u128 = (d as u128) * (d as u128) * (pk.value as u128);
        a = a + term;
        j = j + 1;
    }
    proof {
        lemma_sq_dev_sum_bounds(
            pk.idx as int,
            pk.value as int,
            pk.low as int,
            (pk.high + 1 - pk.low) as nat,
            0xFFFF,
        );
        assert(((pk.high + 1 - pk.low) as nat) * (0xFFFF * 0xFFFF) * (pk.value as int) <= 0x10000
            * (0xFFFF * 0xFFFF) * 0xFFFF_FFFF) by (nonlinear_arith)
            requires
                0 <= (pk.high + 1 - pk.low) as nat <= 0x10000,
                0 <= pk.value <= 0xFFFF_FFFF,
        {}
    }
    a
}

} // verus!
