use vstd::prelude::*;

verus! {

/// The integer square root: the largest `r` with `r * r <= x`, defined by
/// counting up so that every value is pinned.
pub open spec fn spec_sqrt(x: nat) -> nat
    decreases x,
{
    if x == 0 {
        0
    } else {
        let p = spec_sqrt((x - 1) as nat);
        if (p + 1) * (p + 1) <= x {
            p + 1
        } else {
            p
        }
    }
}

/// The integer cube root: the largest `r` with `r * r * r <= x`.
pub open spec fn spec_cbrt(x: nat) -> nat
    decreases x,
{
    if x == 0 {
        0
    } else {
        let p = spec_cbrt((x - 1) as nat);
        if (p + 1) * (p + 1) * (p + 1) <= x {
            p + 1
        } else {
            p
        }
    }
}

pub proof fn lemma_spec_sqrt_bounds(x: nat)
    ensures
        spec_sqrt(x) * spec_sqrt(x) <= x,
        x < (spec_sqrt(x) + 1) * (spec_sqrt(x) + 1),
    decreases x,
{
    let s = spec_sqrt(x);
    if x == 0 {
        assert(s * s <= x && x < (s + 1) * (s + 1)) by (nonlinear_arith)
            requires
                s == 0,
                x == 0,
        {}
    } else {
        lemma_spec_sqrt_bounds((x - 1) as nat);
        let p = spec_sqrt((x - 1) as nat);
        if (p + 1) * (p + 1) <= x {
            assert(s == p + 1);
            assert(s * s <= x && x < (s + 1) * (s + 1)) by (nonlinear_arith)
                requires
                    s == p + 1,
                    (p + 1) * (p + 1) <= x,
                    x - 1 < (p + 1) * (p + 1),
            {}
        } else {
            assert(s == p);
            assert(s * s <= x && x < (s + 1) * (s + 1)) by (nonlinear_arith)
                requires
                    s == p,
                    p * p <= x - 1,
                    !((p + 1) * (p + 1) <= x),
            {}
        }
    }
}

pub proof fn lemma_spec_cbrt_bounds(x: nat)
    ensures
        spec_cbrt(x) * spec_cbrt(x) * spec_cbrt(x) <= x,
        x < (spec_cbrt(x) + 1) * (spec_cbrt(x) + 1) * (spec_cbrt(x) + 1),
    decreases x,
{
    let s = spec_cbrt(x);
    if x == 0 {
        assert(s * s * s <= x && x < (s + 1) * (s + 1) * (s + 1)) by (nonlinear_arith)
            requires
                s == 0,
                x == 0,
        {}
    } else {
        lemma_spec_cbrt_bounds((x - 1) as nat);
        let p = spec_cbrt((x - 1) as nat);
        if (p + 1) * (p + 1) * (p + 1) <= x {
            assert(s == p + 1);
            assert(s * s * s <= x && x < (s + 1) * (s + 1) * (s + 1)) by (nonlinear_arith)
                requires
                    s == p + 1,
                    (p + 1) * (p + 1) * (p + 1) <= x,
                    x - 1 < (p + 1) * (p + 1) * (p + 1),
                    0 <= p,
            {}
        } else {
            assert(s == p);
            assert(s * s * s <= x && x < (s + 1) * (s + 1) * (s + 1)) by (nonlinear_arith)
                requires
                    s == p,
                    p * p * p <= x - 1,
                    !((p + 1) * (p + 1) * (p + 1) <= x),
            {}
        }
    }
}

/// The two square-root inequalities determine the root: any `r` satisfying
/// them is `spec_sqrt(x)`.
pub proof fn lemma_sqrt_unique(x: nat, r: nat)
    requires
        r * r <= x,
        x < (r + 1) * (r + 1),
    ensures
        r == spec_sqrt(x),
{
    lemma_spec_sqrt_bounds(x);
    let s = spec_sqrt(x);
    if r < s {
        assert((r + 1) * (r + 1) <= s * s) by (nonlinear_arith)
            requires
                r + 1 <= s,
                0 <= r,
        {}
    }
    if s < r {
        assert((s + 1) * (s + 1) <= r * r) by (nonlinear_arith)
            requires
                s + 1 <= r,
                0 <= s,
        {}
    }
}

pub proof fn lemma_cbrt_unique(x: nat, r: nat)
    requires
        r * r * r <= x,
        x < (r + 1) * (r + 1) * (r + 1),
    ensures
        r == spec_cbrt(x),
{
    lemma_spec_cbrt_bounds(x);
    let s = spec_cbrt(x);
    if r < s {
        assert((r + 1) * (r + 1) * (r + 1) <= s * s * s) by (nonlinear_arith)
            requires
                r + 1 <= s,
                0 <= r,
        {}
    }
    if s < r {
        assert((s + 1) * (s + 1) * (s + 1) <= r * r * r) by (nonlinear_arith)
            requires
                s + 1 <= r,
                0 <= s,
        {}
    }
}

/// Integer square root of a 64-bit value by bisection.
pub fn isqrt64(x: u64) -> (r: u64)
    ensures
        r == spec_sqrt(x as nat),
        r * r <= x,
        x < (r + 1) * (r + 1),
        r <= 0xFFFF_FFFF,
{
    let mut lo: u64 = 0;
    let mut hi: u64 = 0x1_0000_0000;
    while hi - lo > 1
        invariant
            lo < hi <= 0x1_0000_0000,
            (lo as int) * (lo as int) <= x,
            x < (hi as int) * (hi as int),
        decreases hi - lo,
    {
        let mid = lo + (hi - lo) / 2;
        proof {
            assert((mid as int) * (mid as int) <= 0x1_0000_0000 * 0x1_0000_0000)
                by (nonlinear_arith)
                requires
                    0 <= mid <= 0x1_0000_0000,
            {}
        }
        if (mid as u128) * (mid as u128) <= x as u128 {
            lo = mid;
        } else {
            hi = mid;
        }
    }
    proof {
        lemma_sqrt_unique(x as nat, lo as nat);
    }
    lo
}

/// Integer cube root of a value below `2^63` by bisection.
pub fn icbrt64(x: u64) -> (r: u64)
    requires
        x < 0x8000_0000_0000_0000,
    ensures
        r == spec_cbrt(x as nat),
        r * r * r <= x,
        x < (r + 1) * (r + 1) * (r + 1),
        r <= 0x20_0000,
{
    let mut lo: u64 = 0;
    let mut hi: u64 = 0x20_0000;
    proof {
        assert((0x20_0000 as int) * 0x20_0000 * 0x20_0000 == 0x8000_0000_0000_0000);
    }
    while hi - lo > 1
        invariant
            lo < hi <= 0x20_0000,
            (lo as int) * (lo as int) * (lo as int) <= x,
            x < (hi as int) * (hi as int) * (hi as int),
        decreases hi - lo,
    {
        let mid = lo + (hi - lo) / 2;
        let m = mid as u128;
        proof {
            assert(m * m <= 0x20_0000 * 0x20_0000 && m * m * m <= 0x20_0000 * 0x20_0000
                * 0x20_0000) by (nonlinear_arith)
                requires
                    0 <= m <= 0x20_0000,
            {}
        }
        if m * m * m <= x as u128 {
            lo = mid;
        } else {
            hi = mid;
        }
    }
    proof {
        lemma_cbrt_unique(x as nat, lo as nat);
    }
    lo
}


/// Integer square root of a 128-bit value below `2^102`, by bisection.
pub fn isqrt128(x: u128) -> (r: u128)
    requires
        x < 0x40_0000_0000_0000_0000_0000_0000,
    ensures
        r == spec_sqrt(x as nat),
        r * r <= x,
        x < (r + 1) * (r + 1),
        r <= 0x8_0000_0000_0000,
{
    let mut lo: u128 = 0;
    let mut hi: u128 = 0x8_0000_0000_0000;
    proof {
        assert((0x8_0000_0000_0000 as int) * 0x8_0000_0000_0000
            == 0x40_0000_0000_0000_0000_0000_0000);
    }
    while hi - lo > 1
        invariant
            lo < hi <= 0x8_0000_0000_0000,
            (lo as int) * (lo as int) <= x,
            x < (hi as int) * (hi as int),
        decreases hi - lo,
    {
        let mid = lo + (hi - lo) / 2;
        proof {
            assert((mid as int) * (mid as int) <= 0x8_0000_0000_0000 * 0x8_0000_0000_0000)
                by (nonlinear_arith)
                requires
                    0 <= mid <= 0x8_0000_0000_0000,
            {}
        }
        if mid * mid <= x {
            lo = mid;
        } else {
            hi = mid;
        }
    }
    proof {
        lemma_sqrt_unique(x as nat, lo as nat);
    }
    lo
}

/// Division truncated toward zero, as executable signed division performs
/// it; for a nonnegative dividend it agrees with the mathematical
/// (Euclidean) quotient.
pub open spec fn tdiv(a: int, d: int) -> int {
    if a >= 0 {
        a / d
    } else {
        -((-a) / d)
    }
}

/// Truncating signed division by a positive divisor.
pub fn tdiv_i64(a: i64, d: i64) -> (r: i64)
    requires
        d >= 1,
        a > i64::MIN,
    ensures
        r == tdiv(a as int, d as int),
        a >= 0 ==> 0 <= r <= a && r * d <= a && a < r * d + d,
        a < 0 ==> a <= r <= 0 && a <= r * d && r * d - d < a,
{
    if a >= 0 {
        proof {
            let q = (a as int) / (d as int);
            let rem = (a as int) % (d as int);
            vstd::arithmetic::div_mod::lemma_div_nonincreasing(a as int, d as int);
            vstd::arithmetic::div_mod::lemma_fundamental_div_mod(a as int, d as int);
            vstd::arithmetic::div_mod::lemma_mod_bound(a as int, d as int);
            assert(q * (d as int) <= a && a < q * (d as int) + d) by (nonlinear_arith)
                requires
                    a as int == (d as int) * q + rem,
                    0 <= rem < d,
            {}
        }
        ((a as u64) / (d as u64)) as i64
    } else {
        proof {
            let q = ((-a) as int) / (d as int);
            let rem = ((-a) as int) % (d as int);
            vstd::arithmetic::div_mod::lemma_div_nonincreasing((-a) as int, d as int);
            vstd::arithmetic::div_mod::lemma_fundamental_div_mod((-a) as int, d as int);
            vstd::arithmetic::div_mod::lemma_mod_bound((-a) as int, d as int);
            assert(a <= (-q) * (d as int) && (-q) * (d as int) - d < a) by (nonlinear_arith)
                requires
                    (-a) as int == (d as int) * q + rem,
                    0 <= rem < d,
            {}
        }
        -((((-a) as u64) / (d as u64)) as i64)
    }
}

} // verus!
