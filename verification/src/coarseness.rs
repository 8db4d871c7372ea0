use vstd::prelude::*;
use crate::ratio::Ratio;

verus! {

/// A grid of 8-bit intensities held as a vector of columns: `g[x][y]` is the
/// intensity at column `x`, row `y`.  Well-formed means nonempty and
/// rectangular (every column has the height of the first).
pub open spec fn grid_wf(g: Vec<Vec<u8>>) -> bool {
    &&& g.len() >= 1
    &&& g@[0]@.len() >= 1
    &&& forall|i: int| 0 <= i < g@.len() ==> (#[trigger] g@[i]@.len()) == g@[0]@.len()
}

pub open spec fn grid_width(g: Vec<Vec<u8>>) -> int {
    g.len() as int
}

pub open spec fn grid_height(g: Vec<Vec<u8>>) -> int {
    g@[0]@.len() as int
}

/// The intensity at `(i, j)`, with every out-of-bounds coordinate counting
/// as zero.
pub open spec fn cell_or_zero(g: Vec<Vec<u8>>, i: int, j: int) -> int {
    if 0 <= i < grid_width(g) && 0 <= j < grid_height(g) {
        g@[i]@[j] as int
    } else {
        0
    }
}

/// The sum of `cnt` vertically consecutive cells of column `i`, starting at
/// row `j0`, out-of-bounds cells counting as zero.
pub open spec fn col_seg_sum(g: Vec<Vec<u8>>, i: int, j0: int, cnt: nat) -> int
    decreases cnt,
{
    if cnt == 0 {
        0
    } else {
        col_seg_sum(g, i, j0, (cnt - 1) as nat) + cell_or_zero(g, i, j0 + cnt - 1)
    }
}

/// The sum of the `icnt` x `jcnt` window whose lowest coordinates are
/// `(i0, j0)`, out-of-bounds cells counting as zero.
pub open spec fn window_sum(g: Vec<Vec<u8>>, i0: int, icnt: nat, j0: int, jcnt: nat) -> int
    decreases icnt,
{
    if icnt == 0 {
        0
    } else {
        window_sum(g, i0, (icnt - 1) as nat, j0, jcnt) + col_seg_sum(g, i0 + icnt - 1, j0, jcnt)
    }
}

pub proof fn lemma_col_seg_sum_bounds(g: Vec<Vec<u8>>, i: int, j0: int, cnt: nat)
    ensures
        0 <= col_seg_sum(g, i, j0, cnt) <= 255 * cnt,
    decreases cnt,
{
    if cnt > 0 {
        lemma_col_seg_sum_bounds(g, i, j0, (cnt - 1) as nat);
    }
}

pub proof fn lemma_window_sum_bounds(g: Vec<Vec<u8>>, i0: int, icnt: nat, j0: int, jcnt: nat)
    ensures
        0 <= window_sum(g, i0, icnt, j0, jcnt) <= 255 * icnt * jcnt,
    decreases icnt,
{
    if icnt > 0 {
        lemma_window_sum_bounds(g, i0, (icnt - 1) as nat, j0, jcnt);
        lemma_col_seg_sum_bounds(g, i0 + icnt - 1, j0, jcnt);
        assert(255 * (icnt - 1) * jcnt + 255 * jcnt == 255 * icnt * jcnt) by (nonlinear_arith);
    }
}

/// The window half-width at scale `k`: `2^(k-1)`.
pub open spec fn scale_half(k: int) -> int {
    if k == 1 {
        1
    } else if k == 2 {
        2
    } else if k == 3 {
        4
    } else {
        8
    }
}

/// The fixed divisor at scale `k`: `2^(2k)`, used regardless of how much of
/// the window was clipped away at the image border.
pub open spec fn scale_divisor(k: int) -> int {
    if k == 1 {
        4
    } else if k == 2 {
        16
    } else if k == 3 {
        64
    } else {
        256
    }
}

/// The raw sum of the `2^k x 2^k` neighborhood centered at `(x, y)` (its
/// lowest coordinates are `x - 2^(k-1)`, `y - 2^(k-1)`), out-of-bounds
/// cells counting as zero.  The neighborhood average this feature is
/// built on is this sum divided by `2^(2k)`.
pub open spec fn spec_neighborhood_sum(g: Vec<Vec<u8>>, x: int, y: int, k: int) -> int {
    window_sum(
        g,
        x - scale_half(k),
        (2 * scale_half(k)) as nat,
        y - scale_half(k),
        (2 * scale_half(k)) as nat,
    )
}

pub open spec fn spec_abs(v: int) -> int {
    if v < 0 {
        -v
    } else {
        v
    }
}

/// Numerator of the horizontal contrast at scale `k`: the absolute
/// difference between the neighborhood sums centered `2^(k-1)` to the right
/// and to the left of `(x, y)`.  The contrast itself is this value over
/// `2^(2k)`.
pub open spec fn contrast_num(g: Vec<Vec<u8>>, x: int, y: int, k: int) -> int {
    spec_abs(
        spec_neighborhood_sum(g, x + scale_half(k), y, k) - spec_neighborhood_sum(
            g,
            x - scale_half(k),
            y,
            k,
        ),
    )
}

/// The factor that brings the contrast at scale `k` to the common divisor
/// 256: `256 / 2^(2k)`.
pub open spec fn scale_cofactor(k: int) -> int {
    if k == 1 {
        64
    } else if k == 2 {
        16
    } else if k == 3 {
        4
    } else {
        1
    }
}

/// The contrast at scale `k`, brought to the common divisor 256: the exact
/// contrast is `contrast_scaled / 256`, so the four scales compare by this
/// integer alone.
pub open spec fn contrast_scaled(g: Vec<Vec<u8>>, x: int, y: int, k: int) -> int {
    contrast_num(g, x, y, k) * scale_cofactor(k)
}

/// The contrast at scale `a` is strictly below the contrast at scale `b`.
pub open spec fn contrast_lt(g: Vec<Vec<u8>>, x: int, y: int, a: int, b: int) -> bool {
    contrast_scaled(g, x, y, a) < contrast_scaled(g, x, y, b)
}

/// The scale in 1..=4 with the least horizontal contrast at `(x, y)`; a tie
/// keeps the smaller scale.
pub open spec fn spec_s_best(g: Vec<Vec<u8>>, x: int, y: int) -> int {
    let b2 = if contrast_lt(g, x, y, 2, 1) {
        2int
    } else {
        1int
    };
    let b3 = if contrast_lt(g, x, y, 3, b2) {
        3int
    } else {
        b2
    };
    if contrast_lt(g, x, y, 4, b3) {
        4int
    } else {
        b3
    }
}

/// The chosen scale never has a strictly smaller contrast available at any
/// other scale, and every scale below the chosen one has a strictly larger
/// contrast: `spec_s_best` is the first minimizer.
pub proof fn lemma_s_best_minimizes(g: Vec<Vec<u8>>, x: int, y: int)
    ensures
        1 <= spec_s_best(g, x, y) <= 4,
        forall|k: int| 1 <= k <= 4 ==> !contrast_lt(g, x, y, k, spec_s_best(g, x, y)),
        forall|k: int|
            1 <= k < spec_s_best(g, x, y) ==> contrast_lt(g, x, y, spec_s_best(g, x, y), k),
{
    let s = spec_s_best(g, x, y);
    let c1 = contrast_scaled(g, x, y, 1);
    let c2 = contrast_scaled(g, x, y, 2);
    let c3 = contrast_scaled(g, x, y, 3);
    let c4 = contrast_scaled(g, x, y, 4);
    assert forall|k: int| 1 <= k <= 4 implies !contrast_lt(g, x, y, k, s) by {
        assert(k == 1 || k == 2 || k == 3 || k == 4);
    }
    assert forall|k: int| 1 <= k < s implies contrast_lt(g, x, y, s, k) by {
        assert(k == 1 || k == 2 || k == 3);
    }
}

/// The raw neighborhood sum at scale `size`, as an executable loop over the
/// window with border clipping.
fn neighborhood_sum(pixels: &Vec<Vec<u8>>, x: i32, y: i32, size: u32) -> (s: u64)
    requires
        grid_wf(*pixels),
        1 <= size <= 4,
        -0x4000_0000 <= x <= 0x4000_0000,
        -0x4000_0000 <= y <= 0x4000_0000,
    ensures
        s == spec_neighborhood_sum(*pixels, x as int, y as int, size as int),
        s <= 65280,
{
    let half: i32 = if size == 1 {
        1
    } else if size == 2 {
        2
    } else if size == 3 {
        4
    } else {
        8
    };
    let w = pixels.len();
    let h = pixels[0].len();
    let ghost jcnt: nat = (2 * half) as nat;
    let ghost i0: int = x - half;
    let ghost j0: int = y - half;
    let mut sum: u64 = 0;
    let mut i: i32 = x - half;
    while i < x + half
        invariant
            1 <= half <= 8,
            half == scale_half(size as int),
            -0x4000_0000 <= x <= 0x4000_0000,
            -0x4000_0000 <= y <= 0x4000_0000,
            i0 == x - half,
            j0 == y - half,
            jcnt == 2 * half,
            i0 <= i <= x + half,
            grid_wf(*pixels),
            w == pixels.len(),
            h == grid_height(*pixels),
            sum == window_sum(*pixels, i0, (i - i0) as nat, j0, jcnt),
        decreases x + half - i,
    {
        let mut j: i32 = y - half;
        while j < y + half
            invariant
                1 <= half <= 8,
                -0x4000_0000 <= x <= 0x4000_0000,
                -0x4000_0000 <= y <= 0x4000_0000,
                i0 == x - half,
                j0 == y - half,
                jcnt == 2 * half,
                i0 <= i < x + half,
                j0 <= j <= y + half,
                grid_wf(*pixels),
                w == pixels.len(),
                h == grid_height(*pixels),
                sum == window_sum(*pixels, i0, (i - i0) as nat, j0, jcnt) + col_seg_sum(
                    *pixels,
                    i as int,
                    j0,
                    (j - j0) as nat,
                ),
            decreases y + half - j,
        {
            proof {
                lemma_window_sum_bounds(*pixels, i0, (i - i0) as nat, j0, jcnt);
                lemma_col_seg_sum_bounds(*pixels, i as int, j0, (j - j0) as nat);
                assert(255 * ((i - i0) as nat) * jcnt <= 65280) by (nonlinear_arith)
                    requires
                        0 <= i - i0 <= 16,
                        0 <= jcnt <= 16,
                {}
            }
            if i >= 0 && j >= 0 && (i as usize) < w && (j as usize) < h {
                let col = &pixels[i as usize];
                assert(col@.len() == h);
                sum = sum + col[j as usize] as u64;
            }
            j = j + 1;
        }
        i = i + 1;
    }
    proof {
        lemma_window_sum_bounds(*pixels, i0, (2 * half) as nat, j0, jcnt);
        assert(255 * ((2 * half) as nat) * ((2 * half) as nat) <= 65280) by (nonlinear_arith)
            requires
                1 <= half <= 8,
        {}
    }
    sum
}

/// The average intensity of the `2^size x 2^size` neighborhood centered at
/// `(x, y)`: the exact quotient of the clipped window sum by the fixed
/// divisor `2^(2 * size)`.
pub fn neighborhood_average(pixels: &Vec<Vec<u8>>, x: i32, y: i32, size: u32) -> (r: Ratio)
    requires
        grid_wf(*pixels),
        1 <= size <= 4,
        -0x4000_0000 <= x <= 0x4000_0000,
        -0x4000_0000 <= y <= 0x4000_0000,
    ensures
        r.num == spec_neighborhood_sum(*pixels, x as int, y as int, size as int),
        r.den == scale_divisor(size as int),
{
    let s = neighborhood_sum(pixels, x, y, size);
    let d: u64 = if size == 1 {
        4
    } else if size == 2 {
        16
    } else if size == 3 {
        64
    } else {
        256
    };
    Ratio { num: s as u128, den: d as u128 }
}

/// The scale in 1..=4 whose horizontal contrast at `(x, y)` is least, ties
/// going to the smaller scale.  The contrast at scale `k` is the absolute
/// difference between the neighborhood averages centered `2^(k-1)` columns
/// to the right and to the left; the four rationals are compared exactly by
/// cross-multiplying their divisors.
pub fn s_best(pixels: &Vec<Vec<u8>>, x: i32, y: i32) -> (r: u32)
    requires
        grid_wf(*pixels),
        -0x3000_0000 <= x <= 0x3000_0000,
        -0x3000_0000 <= y <= 0x3000_0000,
    ensures
        r == spec_s_best(*pixels, x as int, y as int),
        1 <= r <= 4,
{
    let c1 = contrast_at(pixels, x, y, 1) * 64;
    let c2 = contrast_at(pixels, x, y, 2) * 16;
    let c3 = contrast_at(pixels, x, y, 3) * 4;
    let c4 = contrast_at(pixels, x, y, 4);
    let mut best_k: u32 = 1;
    let mut best_c: u64 = c1;
    if c2 < best_c {
        best_k = 2;
        best_c = c2;
    }
    if c3 < best_c {
        best_k = 3;
        best_c = c3;
    }
    if c4 < best_c {
        best_k = 4;
    }
    best_k
}

/// The contrast numerator at one scale, shared by the four comparisons of
/// `s_best`.
fn contrast_at(pixels: &Vec<Vec<u8>>, x: i32, y: i32, size: u32) -> (e: u64)
    requires
        grid_wf(*pixels),
        1 <= size <= 4,
        -0x3000_0000 <= x <= 0x3000_0000,
        -0x3000_0000 <= y <= 0x3000_0000,
    ensures
        e == contrast_num(*pixels, x as int, y as int, size as int),
        e <= 65280,
{
    let half: i32 = if size == 1 {
        1
    } else if size == 2 {
        2
    } else if size == 3 {
        4
    } else {
        8
    };
    let s_plus = neighborhood_sum(pixels, x + half, y, size);
    let s_minus = neighborhood_sum(pixels, x - half, y, size);
    if s_plus >= s_minus {
        s_plus - s_minus
    } else {
        s_minus - s_plus
    }
}

/// The sum of `spec_s_best` over the first `cnt` rows of column `x`.
pub open spec fn sbest_col_sum(g: Vec<Vec<u8>>, x: int, cnt: nat) -> int
    decreases cnt,
{
    if cnt == 0 {
        0
    } else {
        sbest_col_sum(g, x, (cnt - 1) as nat) + spec_s_best(g, x, cnt - 1)
    }
}

/// The sum of `spec_s_best` over the first `cnt` whole columns.
pub open spec fn sbest_total(g: Vec<Vec<u8>>, cnt: nat) -> int
    decreases cnt,
{
    if cnt == 0 {
        0
    } else {
        sbest_total(g, (cnt - 1) as nat) + sbest_col_sum(g, cnt - 1, grid_height(g) as nat)
    }
}

pub proof fn lemma_sbest_col_sum_bounds(g: Vec<Vec<u8>>, x: int, cnt: nat)
    ensures
        cnt <= sbest_col_sum(g, x, cnt) <= 4 * cnt,
    decreases cnt,
{
    if cnt > 0 {
        lemma_sbest_col_sum_bounds(g, x, (cnt - 1) as nat);
    }
}

pub proof fn lemma_sbest_total_bounds(g: Vec<Vec<u8>>, cnt: nat)
    ensures
        cnt * grid_height(g) <= sbest_total(g, cnt) <= 4 * cnt * grid_height(g),
    decreases cnt,
{
    if cnt > 0 {
        let h = grid_height(g);
        lemma_sbest_total_bounds(g, (cnt - 1) as nat);
        lemma_sbest_col_sum_bounds(g, cnt - 1, h as nat);
        assert((cnt - 1) * h + h == cnt * h) by (nonlinear_arith);
        assert(4 * (cnt - 1) * h + 4 * h == 4 * cnt * h) by (nonlinear_arith);
    }
}

/// Tamura coarseness of the grid: the mean of the best (least-contrast)
/// scale over every pixel, returned as the exact quotient of the scale sum
/// by the pixel count.
pub fn coarseness(pixels: &Vec<Vec<u8>>) -> (r: Ratio)
    requires
        grid_wf(*pixels),
        pixels.len() <= 0x3000_0000,
        pixels@[0]@.len() <= 0x3000_0000,
    ensures
        r.num == sbest_total(*pixels, pixels.len() as nat),
        r.den == grid_width(*pixels) * grid_height(*pixels),
{
    let w = pixels.len();
    let h = pixels[0].len();
    let mut sum: u64 = 0;
    let mut x: usize = 0;
    while x < w
        invariant
            grid_wf(*pixels),
            w == pixels.len(),
            h == grid_height(*pixels),
            w <= 0x3000_0000,
            h <= 0x3000_0000,
            x <= w,
            sum == sbest_total(*pixels, x as nat),
        decreases w - x,
    {
        let mut y: usize = 0;
        while y < h
            invariant
                grid_wf(*pixels),
                w == pixels.len(),
                h == grid_height(*pixels),
                w <= 0x3000_0000,
                h <= 0x3000_0000,
                x < w,
                y <= h,
                sum == sbest_total(*pixels, x as nat) + sbest_col_sum(*pixels, x as int, y as nat),
            decreases h - y,
        {
            proof {
                lemma_sbest_total_bounds(*pixels, x as nat);
                lemma_sbest_col_sum_bounds(*pixels, x as int, y as nat);
                assert(4 * (x as int) * (h as int) <= 4 * 0x3000_0000 * 0x3000_0000)
                    by (nonlinear_arith)
                    requires
                        0 <= x <= 0x3000_0000,
                        0 <= h <= 0x3000_0000,
                {}
            }
            let k = s_best(pixels, x as i32, y as i32);
            sum = sum + k as u64;
            y = y + 1;
        }
        x = x + 1;
    }
    proof {
        assert((w as int) * (h as int) <= 0x3000_0000 * 0x3000_0000) by (nonlinear_arith)
            requires
                0 <= w <= 0x3000_0000,
                0 <= h <= 0x3000_0000,
        {}
    }
    Ratio { num: sum as u128, den: (w as u128) * (h as u128) }
}

} // verus!
