use vstd::prelude::*;
use crate::colorspace::{LabPixel, lab_pixel_in_range, LabImage};
use crate::grid::RgbImage8;
use crate::intmath::{spec_sqrt, isqrt64, isqrt128, tdiv, tdiv_i64, lemma_spec_sqrt_bounds};
use crate::ratio::Ratio;
use crate::stats::sum_int;

verus! {

/// Chroma of a Lab pixel: `sqrt(a^2 + b^2)`, again on the fixed-point
/// scale (the scale factors out of the square root).
pub open spec fn spec_chroma(p: LabPixel) -> int {
    spec_sqrt((p.a * p.a + p.b * p.b) as nat) as int
}

/// Saturation of a Lab pixel: chroma divided by lightness, and zero for a
/// pixel whose lightness is not positive — the divide-by-zero guard for
/// black pixels, where the exact transform leaves `l` at or just below
/// zero.
pub open spec fn spec_saturation(p: LabPixel) -> int {
    if p.l <= 0 {
        0
    } else {
        (spec_chroma(p) * 1048576) / (p.l as int)
    }
}

pub proof fn lemma_chroma_bound(p: LabPixel)
    requires
        lab_pixel_in_range(p),
    ensures
        0 <= spec_chroma(p) <= 840000000,
{
    let sq = (p.a * p.a + p.b * p.b) as nat;
    assert(p.a * p.a + p.b * p.b <= 705600000000000000) by (nonlinear_arith)
        requires
            -592684000 <= p.a <= 592684000,
            -592684000 <= p.b <= 592684000,
    {}
    assert(p.a * p.a + p.b * p.b >= 0) by (nonlinear_arith);
    lemma_spec_sqrt_bounds(sq);
    let c = spec_sqrt(sq);
    if c > 840000000 {
        assert(c * c > 705600000000000000) by (nonlinear_arith)
            requires
                c > 840000000,
        {}
    }
}

pub proof fn lemma_saturation_bound(p: LabPixel)
    requires
        lab_pixel_in_range(p),
    ensures
        0 <= spec_saturation(p) <= 880803840000000,
{
    lemma_chroma_bound(p);
    if p.l > 0 {
        vstd::arithmetic::div_mod::lemma_div_nonincreasing(
            spec_chroma(p) * 1048576,
            p.l as int,
        );
    }
}

/// Chroma, executable.
pub fn chroma(lab: &LabPixel) -> (c: u64)
    requires
        lab_pixel_in_range(*lab),
    ensures
        c == spec_chroma(*lab),
        c <= 840000000,
{
    proof {
        assert(0 <= (lab.a as int) * (lab.a as int) <= 592684000 * 592684000 && 0 <= (
        lab.b as int) * (lab.b as int) <= 592684000 * 592684000) by (nonlinear_arith)
            requires
                -592684000 <= lab.a <= 592684000,
                -592684000 <= lab.b <= 592684000,
        {}
    }
    let aa: i64 = lab.a * lab.a;
    let bb: i64 = lab.b * lab.b;
    let s: u64 = (aa as u64) + (bb as u64);
    let c = isqrt64(s);
    proof {
        if c > 840000000 {
            assert((c as int) * (c as int) > 705600000000000000) by (nonlinear_arith)
                requires
                    c > 840000000,
            {}
        }
    }
    c
}

/// Saturation, executable.
pub fn lab_saturation(lab: &LabPixel) -> (s: u64)
    requires
        lab_pixel_in_range(*lab),
    ensures
        s == spec_saturation(*lab),
        s <= 880803840000000,
{
    if lab.l <= 0 {
        0
    } else {
        let c = chroma(lab);
        proof {
            vstd::arithmetic::div_mod::lemma_div_nonincreasing(
                (c as int) * 1048576,
                lab.l as int,
            );
        }
        (c * 1048576) / (lab.l as u64)
    }
}

/// The sum of `f` over a pixel sequence.
pub open spec fn proj_sum(s: Seq<LabPixel>, f: spec_fn(LabPixel) -> int) -> int
    decreases s.len(),
{
    if s.len() == 0 {
        0
    } else {
        proj_sum(s.drop_last(), f) + f(s.last())
    }
}

/// The sum of `(f - m)^2` over a pixel sequence: the numerator of the
/// population variance of `f` around the (already divided) mean `m`.
pub open spec fn proj_centered_sum(s: Seq<LabPixel>, f: spec_fn(LabPixel) -> int, m: int) -> int
    decreases s.len(),
{
    if s.len() == 0 {
        0
    } else {
        proj_centered_sum(s.drop_last(), f, m) + (f(s.last()) - m) * (f(s.last()) - m)
    }
}

/// The `a` channel as a projection.
pub open spec fn a_proj() -> spec_fn(LabPixel) -> int {
    |p: LabPixel| p.a as int
}

/// The `b` channel as a projection.
pub open spec fn b_proj() -> spec_fn(LabPixel) -> int {
    |p: LabPixel| p.b as int
}

/// Chroma as a projection.
pub open spec fn chroma_proj() -> spec_fn(LabPixel) -> int {
    |p: LabPixel| spec_chroma(p)
}

/// Saturation as a projection.
pub open spec fn sat_proj() -> spec_fn(LabPixel) -> int {
    |p: LabPixel| spec_saturation(p)
}

/// The population standard deviation of `f` over `s`, evaluated in fixed
/// point: the truncated mean, the centered square sum divided by the
/// count, and the integer square root.
pub open spec fn spec_std_dev_of(s: Seq<LabPixel>, f: spec_fn(LabPixel) -> int) -> int {
    let n = s.len() as int;
    let m = tdiv(proj_sum(s, f), n);
    spec_sqrt((proj_centered_sum(s, f, m) / n) as nat) as int
}

/// The truncated mean of chroma over `s`.
pub open spec fn spec_mean_chroma(s: Seq<LabPixel>) -> int {
    proj_sum(s, chroma_proj()) / (s.len() as int)
}

/// Colorfulness metric one: the larger of the two channel deviations, plus
/// 1.46 times the smaller, plus 1.34 times the mean chroma; on a tie the
/// `b` deviation takes the leading role.
pub open spec fn spec_metric1(s: Seq<LabPixel>) -> int {
    let sa = spec_std_dev_of(s, a_proj());
    let sb = spec_std_dev_of(s, b_proj());
    let mc = spec_mean_chroma(s);
    if sa > sb {
        sa + (146 * sb) / 100 + (134 * mc) / 100
    } else {
        sb + (146 * sa) / 100 + (134 * mc) / 100
    }
}

/// Colorfulness metric three: the Euclidean length of the two channel
/// deviations plus 0.94 times the mean chroma.
pub open spec fn spec_metric3(s: Seq<LabPixel>) -> int {
    let sa = spec_std_dev_of(s, a_proj());
    let sb = spec_std_dev_of(s, b_proj());
    let mc = spec_mean_chroma(s);
    spec_sqrt((sa * sa + sb * sb) as nat) + (94 * mc) / 100
}

/// Colorfulness metric two: mean saturation plus the population standard
/// deviation of saturation.
pub open spec fn spec_metric2(s: Seq<LabPixel>) -> int {
    let ms = proj_sum(s, sat_proj()) / (s.len() as int);
    ms + spec_std_dev_of(s, sat_proj())
}

/// The mean chroma of a Lab image, as the exact ratio of the chroma sum to
/// the pixel count.
pub fn mean_of_chroma(image: &LabImage) -> (r: Ratio)
    requires
        image.wf(),
    ensures
        r.num == proj_sum(image.pixels@, chroma_proj()),
        r.den == image.width * image.height,
{
    let n = image.pixels.len();
    let mut sum: u128 = 0;
    let mut i: usize = 0;
    while i < n
        invariant
            i <= n,
            n == image.pixels.len(),
            image.wf(),
            sum == proj_sum(image.pixels@.take(i as int), chroma_proj()),
            sum <= i * 840000000,
        decreases n - i,
    {
        proof {
            assert(image.pixels@.take(i + 1).drop_last() =~= image.pixels@.take(i as int));
            assert(image.pixels@.take(i + 1).last() == image.pixels@[i as int]);
            lemma_chroma_bound(image.pixels@[i as int]);
            assert((i + 1) * 840000000 == i * 840000000 + 840000000) by (nonlinear_arith);
        }
        let c = chroma(&image.pixels[i]);
        sum = sum + c as u128;
        i = i + 1;
    }
    proof {
        assert(image.pixels@.take(n as int) =~= image.pixels@);
    }
    Ratio { num: sum, den: (image.width as u128) * (image.height as u128) }
}

/// Colorfulness metrics one and three of a Lab image, evaluated in fixed
/// point: the population standard deviations of the `a` and `b` channels
/// and the mean chroma, combined as
/// `max + 1.46 min + 1.34 meanChroma` and as
/// `sqrt(sigma_a^2 + sigma_b^2) + 0.94 meanChroma`.
pub fn colorfulness_metrics_1_3(image: &LabImage) -> (r: (u64, u64))
    requires
        image.wf(),
        image.pixels.len() <= 0x10000000,
    ensures
        r.0 == spec_metric1(image.pixels@),
        r.1 == spec_metric3(image.pixels@),
{
    let ghost s = image.pixels@;
    let n = image.pixels.len();
    proof {
        assert(n >= 1) by (nonlinear_arith)
            requires
                n == image.width * image.height,
                image.width >= 1,
                image.height >= 1,
        {}
    }
    let mut csum: u64 = 0;
    let mut asum: i64 = 0;
    let mut bsum: i64 = 0;
    let mut i: usize = 0;
    while i < n
        invariant
            i <= n,
            n == image.pixels.len(),
            n <= 0x10000000,
            image.wf(),
            s == image.pixels@,
            csum == proj_sum(s.take(i as int), chroma_proj()),
            asum == proj_sum(s.take(i as int), a_proj()),
            bsum == proj_sum(s.take(i as int), b_proj()),
            csum <= i * 840000000,
            -(i * 592684000) <= asum <= i * 592684000,
            -(i * 592684000) <= bsum <= i * 592684000,
        decreases n - i,
    {
        proof {
            assert(s.take(i + 1).drop_last() =~= s.take(i as int));
            assert(s.take(i + 1).last() == s[i as int]);
            lemma_chroma_bound(s[i as int]);
            assert((i + 1) * 840000000 == i * 840000000 + 840000000) by (nonlinear_arith);
            assert((i + 1) * 592684000 == i * 592684000 + 592684000) by (nonlinear_arith);
        }
        let p = image.pixels[i];
        let c = chroma(&p);
        csum = csum + c;
        asum = asum + p.a;
        bsum = bsum + p.b;
        i = i + 1;
    }
    proof {
        assert(s.take(n as int) =~= s);
    }
    let ma = tdiv_i64(asum, n as i64);
    let mb = tdiv_i64(bsum, n as i64);
    let mc: u64 = csum / (n as u64);
    proof {
        assert(-592684000 <= ma <= 592684000 && -592684000 <= mb <= 592684000)
            by (nonlinear_arith)
            requires
                -((n as int) * 592684000) <= asum <= (n as int) * 592684000,
                -((n as int) * 592684000) <= bsum <= (n as int) * 592684000,
                1 <= n,
                (ma as int) * (n as int) <= asum || asum < 0,
                asum < (ma as int) * (n as int) + n || asum < 0,
                asum <= (ma as int) * (n as int) || asum >= 0,
                (ma as int) * (n as int) - n < asum || asum >= 0,
                (mb as int) * (n as int) <= bsum || bsum < 0,
                bsum < (mb as int) * (n as int) + n || bsum < 0,
                bsum <= (mb as int) * (n as int) || bsum >= 0,
                (mb as int) * (n as int) - n < bsum || bsum >= 0,
        {}
    }
    let mut ca: u128 = 0;
    let mut cb: u128 = 0;
    let mut i: usize = 0;
    while i < n
        invariant
            i <= n,
            n == image.pixels.len(),
            n <= 0x10000000,
            image.wf(),
            s == image.pixels@,
            -592684000 <= ma <= 592684000,
            -592684000 <= mb <= 592684000,
            ca == proj_centered_sum(s.take(i as int), a_proj(), ma as int),
            cb == proj_centered_sum(s.take(i as int), b_proj(), mb as int),
            ca <= i * (1185368000 * 1185368000),
            cb <= i * (1185368000 * 1185368000),
        decreases n - i,
    {
        proof {
            assert(s.take(i + 1).drop_last() =~= s.take(i as int));
            assert(s.take(i + 1).last() == s[i as int]);
            assert((i + 1) * (1185368000 * 1185368000) == i * (1185368000 * 1185368000) + (
            1185368000 * 1185368000)) by (nonlinear_arith);
        }
        let p = image.pixels[i];
        let da: i64 = p.a - ma;
        let db: i64 = p.b - mb;
        proof {
            assert(0 <= (da as int) * (da as int) <= 1185368000 * 1185368000 && 0 <= (
            db as int) * (db as int) <= 1185368000 * 1185368000) by (nonlinear_arith)
                requires
                    -1185368000 <= da <= 1185368000,
                    -1185368000 <= db <= 1185368000,
            {}
        }
        let sqa: u128 = ((da as i128) * (da as i128)) as u128;
        let sqb: u128 = ((db as i128) * (db as i128)) as u128;
        ca = ca + sqa;
        cb = cb + sqb;
        i = i + 1;
    }
    proof {
        assert(s.take(n as int) =~= s);
    }
    let var_a: u64 = (ca / (n as u128)) as u64;
    let var_b: u64 = (cb / (n as u128)) as u64;
    proof {
        vstd::arithmetic::div_mod::lemma_fundamental_div_mod(ca as int, n as int);
        vstd::arithmetic::div_mod::lemma_fundamental_div_mod(cb as int, n as int);
        vstd::arithmetic::div_mod::lemma_mod_bound(ca as int, n as int);
        vstd::arithmetic::div_mod::lemma_mod_bound(cb as int, n as int);
        assert((ca as int) / (n as int) <= 1185368000 * 1185368000 && (cb as int) / (n as int)
            <= 1185368000 * 1185368000) by (nonlinear_arith)
            requires
                0 <= ca <= (n as int) * (1185368000 * 1185368000),
                0 <= cb <= (n as int) * (1185368000 * 1185368000),
                1 <= n,
                ca as int == (n as int) * ((ca as int) / (n as int)) + (ca as int) % (n as int),
                0 <= (ca as int) % (n as int) < n,
                cb as int == (n as int) * ((cb as int) / (n as int)) + (cb as int) % (n as int),
                0 <= (cb as int) % (n as int) < n,
        {}
    }
    let sa = isqrt64(var_a);
    let sb = isqrt64(var_b);
    proof {
        assert(sa <= 1185368000 && sb <= 1185368000) by (nonlinear_arith)
            requires
                (sa as int) * (sa as int) <= var_a <= 1185368000 * 1185368000,
                (sb as int) * (sb as int) <= var_b <= 1185368000 * 1185368000,
                0 <= sa,
                0 <= sb,
        {}
        assert((sa as int) * (sa as int) + (sb as int) * (sb as int) <= 2 * (1185368000
            * 1185368000)) by (nonlinear_arith)
            requires
                0 <= sa <= 1185368000,
                0 <= sb <= 1185368000,
        {}
    }
    proof {
        vstd::arithmetic::div_mod::lemma_fundamental_div_mod(csum as int, n as int);
        vstd::arithmetic::div_mod::lemma_mod_bound(csum as int, n as int);
        assert((csum as int) / (n as int) <= 840000000) by (nonlinear_arith)
            requires
                0 <= csum <= (n as int) * 840000000,
                1 <= n,
                csum as int == (n as int) * ((csum as int) / (n as int)) + (csum as int) % (
                n as int),
                0 <= (csum as int) % (n as int) < n,
        {}
    }
    let m1: u64 = if sa > sb {
        sa + (146 * sb) / 100 + (134 * mc) / 100
    } else {
        sb + (146 * sa) / 100 + (134 * mc) / 100
    };
    let m3: u64 = isqrt64(sa * sa + sb * sb) + (94 * mc) / 100;
    proof {
        assert(var_a == proj_centered_sum(s, a_proj(), tdiv(proj_sum(s, a_proj()), s.len() as int))
            / (s.len() as int));
        assert(sa == spec_std_dev_of(s, a_proj()));
        assert(sb == spec_std_dev_of(s, b_proj()));
        assert(mc == spec_mean_chroma(s));
    }
    (m1, m3)
}

/// Colorfulness metric two of a Lab image, evaluated in fixed point: mean
/// saturation plus the population standard deviation of saturation.
pub fn colorfulness_metrics_2(image: &LabImage) -> (r: u64)
    requires
        image.wf(),
        image.pixels.len() <= 0x10000000,
    ensures
        r == spec_metric2(image.pixels@),
{
    let ghost s = image.pixels@;
    let n = image.pixels.len();
    proof {
        assert(n >= 1) by (nonlinear_arith)
            requires
                n == image.width * image.height,
                image.width >= 1,
                image.height >= 1,
        {}
    }
    let mut ssum: u128 = 0;
    let mut i: usize = 0;
    while i < n
        invariant
            i <= n,
            n == image.pixels.len(),
            n <= 0x10000000,
            image.wf(),
            s == image.pixels@,
            ssum == proj_sum(s.take(i as int), sat_proj()),
            ssum <= i * 880803840000000,
        decreases n - i,
    {
        proof {
            assert(s.take(i + 1).drop_last() =~= s.take(i as int));
            assert(s.take(i + 1).last() == s[i as int]);
            lemma_saturation_bound(s[i as int]);
            assert((i + 1) * 880803840000000 == i * 880803840000000 + 880803840000000)
                by (nonlinear_arith);
        }
        let v = lab_saturation(&image.pixels[i]);
        ssum = ssum + v as u128;
        i = i + 1;
    }
    proof {
        assert(s.take(n as int) =~= s);
        vstd::arithmetic::div_mod::lemma_fundamental_div_mod(ssum as int, n as int);
        vstd::arithmetic::div_mod::lemma_mod_bound(ssum as int, n as int);
        assert((ssum as int) / (n as int) <= 880803840000000) by (nonlinear_arith)
            requires
                0 <= ssum <= (n as int) * 880803840000000,
                1 <= n,
                ssum as int == (n as int) * ((ssum as int) / (n as int)) + (ssum as int) % (
                n as int),
                0 <= (ssum as int) % (n as int) < n,
        {}
    }
    let ms: u64 = (ssum / (n as u128)) as u64;
    let mut cs: u128 = 0;
    let mut i: usize = 0;
    while i < n
        invariant
            i <= n,
            n == image.pixels.len(),
            n <= 0x10000000,
            image.wf(),
            s == image.pixels@,
            0 <= ms <= 880803840000000,
            ms == proj_sum(s, sat_proj()) / (s.len() as int),
            cs == proj_centered_sum(s.take(i as int), sat_proj(), ms as int),
            cs <= i * (880803840000000 * 880803840000000),
        decreases n - i,
    {
        proof {
            assert(s.take(i + 1).drop_last() =~= s.take(i as int));
            assert(s.take(i + 1).last() == s[i as int]);
            lemma_saturation_bound(s[i as int]);
            assert((i + 1) * (880803840000000 * 880803840000000) == i * (880803840000000
                * 880803840000000) + (880803840000000 * 880803840000000)) by (nonlinear_arith);
        }
        let v = lab_saturation(&image.pixels[i]);
        let d: i64 = (v as i64) - (ms as i64);
        proof {
            assert(0 <= (d as int) * (d as int) <= 880803840000000 * 880803840000000)
                by (nonlinear_arith)
                requires
                    -880803840000000 <= d <= 880803840000000,
            {}
        }
        let sq: u128 = ((d as i128) * (d as i128)) as u128;
        cs = cs + sq;
        i = i + 1;
    }
    proof {
        assert(s.take(n as int) =~= s);
        vstd::arithmetic::div_mod::lemma_fundamental_div_mod(cs as int, n as int);
        vstd::arithmetic::div_mod::lemma_mod_bound(cs as int, n as int);
        assert((cs as int) / (n as int) <= 880803840000000 * 880803840000000)
            by (nonlinear_arith)
            requires
                0 <= cs <= (n as int) * (880803840000000 * 880803840000000),
                1 <= n,
                cs as int == (n as int) * ((cs as int) / (n as int)) + (cs as int) % (n as int),
                0 <= (cs as int) % (n as int) < n,
        {}
    }
    let var_s: u128 = cs / (n as u128);
    let sd = isqrt128(var_s);
    proof {
        assert(sd <= 880803840000000) by (nonlinear_arith)
            requires
                (sd as int) * (sd as int) <= var_s <= 880803840000000 * 880803840000000,
                0 <= sd,
        {}
        assert(sd == spec_std_dev_of(s, sat_proj()));
    }
    ms + (sd as u64)
}


/// A constant projection sums to length times the constant.
pub proof fn lemma_proj_sum_constant(s: Seq<LabPixel>, f: spec_fn(LabPixel) -> int, c: int)
    requires
        forall|i: int| 0 <= i < s.len() ==> f(#[trigger] s[i]) == c,
    ensures
        proj_sum(s, f) == s.len() * c,
    decreases s.len(),
{
    if s.len() == 0 {
        assert(s.len() * c == 0) by (nonlinear_arith)
            requires
                s.len() == 0,
        {}
    } else {
        lemma_proj_sum_constant(s.drop_last(), f, c);
        assert(s.last() == s[s.len() - 1]);
        assert((s.len() - 1) * c + c == s.len() * c) by (nonlinear_arith);
    }
}

/// Centering a constant projection at the constant itself leaves nothing:
/// the variance numerator of a constant sequence is zero.
pub proof fn lemma_proj_centered_sum_constant_zero(
    s: Seq<LabPixel>,
    f: spec_fn(LabPixel) -> int,
    c: int,
)
    requires
        forall|i: int| 0 <= i < s.len() ==> f(#[trigger] s[i]) == c,
    ensures
        proj_centered_sum(s, f, c) == 0,
    decreases s.len(),
{
    if s.len() > 0 {
        lemma_proj_centered_sum_constant_zero(s.drop_last(), f, c);
        assert(s.last() == s[s.len() - 1]);
        assert(f(s.last()) - c == 0);
    }
}

/// On a single-color image the saturation variance vanishes: metric two
/// reduces to the saturation of that color, and every pixel's chroma is
/// the one value that color's `a` and `b` determine.
pub proof fn lemma_uniform_metric2(s: Seq<LabPixel>, p: LabPixel)
    requires
        s.len() >= 1,
        forall|i: int| 0 <= i < s.len() ==> s[i] == p,
    ensures
        spec_metric2(s) == spec_saturation(p),
        forall|i: int| 0 <= i < s.len() ==> spec_chroma(#[trigger] s[i]) == spec_chroma(p),
{
    let n = s.len() as int;
    let sat = spec_saturation(p);
    assert(sat >= 0) by {
        if p.l > 0 {
            vstd::arithmetic::div_mod::lemma_div_pos_is_pos(
                spec_chroma(p) * 1048576,
                p.l as int,
            );
            assert(spec_chroma(p) * 1048576 >= 0) by (nonlinear_arith)
                requires
                    spec_chroma(p) >= 0,
            {}
        }
    }
    assert(forall|i: int| 0 <= i < s.len() ==> sat_proj()(#[trigger] s[i]) == sat);
    lemma_proj_sum_constant(s, sat_proj(), sat);
    vstd::arithmetic::div_mod::lemma_div_multiples_vanish(sat, n);
    assert(proj_sum(s, sat_proj()) / n == sat);
    assert(tdiv(proj_sum(s, sat_proj()), n) == sat);
    lemma_proj_centered_sum_constant_zero(s, sat_proj(), sat);
    vstd::arithmetic::div_mod::lemma_div_of0(n);
    assert(spec_std_dev_of(s, sat_proj()) == spec_sqrt(0nat) as int);
    assert(spec_sqrt(0nat) == 0);
}

/// A pure black pixel converts to a lightness at or below zero, so its
/// saturation is zero by the divide-by-zero guard rather than an undefined
/// quotient.
pub proof fn lemma_black_saturation_zero()
    ensures
        crate::colorspace::spec_lab_of_rgb8(crate::grid::Rgb8 { r: 0, g: 0, b: 0 }).l <= 0,
        spec_saturation(
            crate::colorspace::spec_lab_of_rgb8(crate::grid::Rgb8 { r: 0, g: 0, b: 0 }),
        ) == 0,
{
    let black = crate::grid::Rgb8 { r: 0, g: 0, b: 0 };
    assert(crate::colorspace::spec_channel_fp(0) == 0);
    let lab = crate::colorspace::spec_rgb_to_lab(0, 0, 0);
    assert(crate::colorspace::spec_lab_f(0) == (16 * 1048576) / 116);
    assert(lab.l == 116 * ((16 * 1048576) / 116) - 16 * 1048576);
    assert(lab.l <= 0);
}

/// The channel-sum grayscale of an RGB image, one 0..=765 value per pixel
/// in row-major order (three times the usual 0..=255 average, kept exact).
pub fn grayscale(image: &RgbImage8) -> (out: Vec<u16>)
    requires
        image.wf(),
    ensures
        out.len() == image.pixels.len(),
        forall|i: int|
            0 <= i < out.len() ==> out[i] == (#[trigger] image.pixels@[i]).spec_luma3(),
{
    let n = image.pixels.len();
    let mut out: Vec<u16> = Vec::new();
    let mut i: usize = 0;
    while i < n
        invariant
            i <= n,
            n == image.pixels.len(),
            out.len() == i,
            forall|j: int|
                0 <= j < i ==> out[j] == (#[trigger] image.pixels@[j]).spec_luma3(),
        decreases n - i,
    {
        out.push(image.pixels[i].luma3());
        i = i + 1;
    }
    out
}

/// The root-mean-square statistic of a grayscale buffer: the exact ratio
/// whose square root is the RMS value.  The numerator sums the squared
/// 0..=765 channel sums; the denominator carries the pixel count and the
/// square of the factor three, so the ratio is the mean squared 0..=255
/// intensity and its square root is the statistic on that scale.
pub fn grayscale_sd(values: &Vec<u16>) -> (r: Ratio)
    requires
        values.len() >= 1,
    ensures
        r.num == sum_int(values@.map_values(|v: u16| (v as int) * (v as int))),
        r.den == 9 * values.len(),
{
    let ghost m = values@.map_values(|v: u16| (v as int) * (v as int));
    let n = values.len();
    let mut sum: u128 = 0;
    let mut i: usize = 0;
    while i < n
        invariant
            i <= n,
            n == values.len(),
            m == values@.map_values(|v: u16| (v as int) * (v as int)),
            sum == sum_int(m.take(i as int)),
            sum <= i * (65535 * 65535),
        decreases n - i,
    {
        proof {
            assert(m.take(i + 1) =~= m.take(i as int).push(m[i as int]));
            crate::stats::lemma_sum_int_push(m.take(i as int), m[i as int]);
            assert(0 <= (values@[i as int] as int) * (values@[i as int] as int) <= 65535 * 65535)
                by (nonlinear_arith)
                requires
                    0 <= values@[i as int] <= 65535,
            {}
            assert((i + 1) * (65535 * 65535) == i * (65535 * 65535) + 65535 * 65535)
                by (nonlinear_arith);
        }
        let v = values[i];
        sum = sum + (v as u128) * (v as u128);
        i = i + 1;
    }
    proof {
        assert(m.take(n as int) =~= m);
    }
    Ratio { num: sum, den: 9 * (n as u128) }
}


} // verus!
