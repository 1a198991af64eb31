//! Fixed-point arithmetic: integer square roots, integer powers and
//! roots (for gamma correction), and the quadratic-mean blend.

use vstd::prelude::*;

use crate::SCALE;

verus! {

/// `r` is the integer square root of `v`.
pub open spec fn is_sqrt(r: nat, v: nat) -> bool {
    r * r <= v < (r + 1) * (r + 1)
}

/// The integer square root of `v`.
pub open spec fn spec_isqrt(v: nat) -> nat {
    choose|r: nat| is_sqrt(r, v)
}

/// The integer square root is unique: any witness equals `spec_isqrt`.
pub proof fn lemma_sqrt_unique(r: nat, v: nat)
    requires
        is_sqrt(r, v),
    ensures
        spec_isqrt(v) == r,
{
    assert(exists|x: nat| is_sqrt(x, v));
    let r2 = spec_isqrt(v);
    assert(is_sqrt(r2, v));
    if r2 < r {
        assert((r2 + 1) * (r2 + 1) <= r * r) by (nonlinear_arith)
            requires r2 + 1 <= r;
    }
    if r < r2 {
        assert((r + 1) * (r + 1) <= r2 * r2) by (nonlinear_arith)
            requires r + 1 <= r2;
    }
}

/// Integer square root by binary search.
pub fn isqrt64(v: u64) -> (r: u64)
    requires
        v < 0x4000000000000000,
    ensures
        is_sqrt(r as nat, v as nat),
        r == spec_isqrt(v as nat),
{
    let mut lo: u64 = 0;
    let mut hi: u64 = 0x80000000;
    assert(hi * hi == 0x4000000000000000) by (nonlinear_arith)
        requires hi == 0x80000000u64;
    while lo + 1 < hi
        invariant
            lo < hi,
            hi <= 0x80000000,
            lo * lo <= v,
            v < hi * hi,
        decreases hi - lo,
    {
        let mid = lo + (hi - lo) / 2;
        assert(mid * mid <= 0x4000000000000000) by (nonlinear_arith)
            requires mid <= 0x80000000u64;
        if mid * mid <= v {
            lo = mid;
        } else {
            hi = mid;
        }
    }
    proof {
        lemma_sqrt_unique(lo as nat, v as nat);
    }
    lo
}

/// `b` to the power `e`, over the naturals.
pub open spec fn pow_fix(b: nat, e: nat) -> nat
    decreases e,
{
    if e == 0 {
        1
    } else {
        b * pow_fix(b, (e - 1) as nat)
    }
}

/// Powers are monotone in the base.
pub proof fn lemma_pow_base_le(a: nat, b: nat, e: nat)
    requires
        a <= b,
    ensures
        pow_fix(a, e) <= pow_fix(b, e),
    decreases e,
{
    if e > 0 {
        lemma_pow_base_le(a, b, (e - 1) as nat);
        assert(a * pow_fix(a, (e - 1) as nat) <= b * pow_fix(b, (e - 1) as nat))
            by (nonlinear_arith)
            requires a <= b, pow_fix(a, (e - 1) as nat) <= pow_fix(b, (e - 1) as nat);
    }
}

/// Powers are strictly monotone in the base once the exponent is positive.
pub proof fn lemma_pow_base_lt(a: nat, b: nat, e: nat)
    requires
        a < b,
        e >= 1,
    ensures
        pow_fix(a, e) < pow_fix(b, e),
    decreases e,
{
    if e == 1 {
        assert(pow_fix(a, 0) == 1);
        assert(pow_fix(b, 0) == 1);
        assert(pow_fix(a, 1) == a * pow_fix(a, 0));
        assert(pow_fix(b, 1) == b * pow_fix(b, 0));
        assert(a * 1nat == a) by (nonlinear_arith);
        assert(b * 1nat == b) by (nonlinear_arith);
    } else {
        lemma_pow_base_lt(a, b, (e - 1) as nat);
        lemma_pow_pos(b, (e - 1) as nat);
        assert(pow_fix(a, e) == a * pow_fix(a, (e - 1) as nat));
        assert(pow_fix(b, e) == b * pow_fix(b, (e - 1) as nat));
        assert(a * pow_fix(a, (e - 1) as nat) < b * pow_fix(b, (e - 1) as nat))
            by (nonlinear_arith)
            requires
                a < b,
                pow_fix(a, (e - 1) as nat) < pow_fix(b, (e - 1) as nat),
                pow_fix(b, (e - 1) as nat) >= 1,
        ;
    }
}

/// A power of a positive base is positive.
pub proof fn lemma_pow_pos(b: nat, e: nat)
    requires
        b >= 1,
    ensures
        pow_fix(b, e) >= 1,
    decreases e,
{
    if e > 0 {
        lemma_pow_pos(b, (e - 1) as nat);
        assert(b * pow_fix(b, (e - 1) as nat) >= 1) by (nonlinear_arith)
            requires b >= 1, pow_fix(b, (e - 1) as nat) >= 1;
    }
}

/// Powers add over exponents.
pub proof fn lemma_pow_adds(b: nat, e1: nat, e2: nat)
    ensures
        pow_fix(b, e1) * pow_fix(b, e2) == pow_fix(b, e1 + e2),
    decreases e1,
{
    if e1 == 0 {
        assert(pow_fix(b, 0) == 1);
    } else {
        lemma_pow_adds(b, (e1 - 1) as nat, e2);
        assert(pow_fix(b, e1) == b * pow_fix(b, (e1 - 1) as nat));
        assert(pow_fix(b, e1 + e2) == b * pow_fix(b, (e1 + e2 - 1) as nat));
        assert((b * pow_fix(b, (e1 - 1) as nat)) * pow_fix(b, e2) == b * (pow_fix(
            b,
            (e1 - 1) as nat,
        ) * pow_fix(b, e2))) by (nonlinear_arith);
    }
}

/// The largest useful power bound: `SCALE` to the twelfth fits in a
/// `u128`.
pub proof fn lemma_pow_scale12()
    ensures
        pow_fix(1000, 12) == 1000000000000000000000000000000000000,
{
    assert(pow_fix(1000, 0) == 1);
    assert(pow_fix(1000, 1) == 1000);
    assert(pow_fix(1000, 2) == 1000000);
    assert(pow_fix(1000, 3) == 1000000000);
    assert(pow_fix(1000, 4) == 1000000000000);
    assert(pow_fix(1000, 5) == 1000000000000000);
    assert(pow_fix(1000, 6) == 1000000000000000000);
    assert(pow_fix(1000, 7) == 1000000000000000000000);
    assert(pow_fix(1000, 8) == 1000000000000000000000000);
    assert(pow_fix(1000, 9) == 1000000000000000000000000000);
    assert(pow_fix(1000, 10) == 1000000000000000000000000000000);
    assert(pow_fix(1000, 11) == 1000000000000000000000000000000000);
    assert(pow_fix(1000, 12) == 1000000000000000000000000000000000000);
}

/// `b` to the power `e` for the small operands gamma correction needs.
pub fn pow_exec(b: u64, e: u32) -> (r: u128)
    requires
        b <= 1000,
        e <= 12,
    ensures
        r == pow_fix(b as nat, e as nat),
{
    let mut acc: u128 = 1;
    let mut i: u32 = 0;
    proof {
        lemma_pow_scale12();
    }
    while i < e
        invariant
            i <= e,
            e <= 12,
            b <= 1000,
            acc == pow_fix(b as nat, i as nat),
            pow_fix(1000, 12) == 1000000000000000000000000000000000000,
        decreases e - i,
    {
        proof {
            lemma_pow_base_le(b as nat, 1000, i as nat);
            lemma_pow_base_le(b as nat, 1000, (i + 1) as nat);
            lemma_pow_adds(1000, i as nat, (12 - i) as nat);
            lemma_pow_pos(1000, (12 - i) as nat);
            assert(pow_fix(1000, i as nat) <= pow_fix(1000, 12)) by (nonlinear_arith)
                requires
                    pow_fix(1000, i as nat) * pow_fix(1000, (12 - i) as nat) == pow_fix(1000, 12),
                    pow_fix(1000, (12 - i) as nat) >= 1,
            ;
            lemma_pow_adds(1000, (i + 1) as nat, (11 - i) as nat);
            lemma_pow_pos(1000, (11 - i) as nat);
            assert(pow_fix(1000, (i + 1) as nat) <= pow_fix(1000, 12)) by (nonlinear_arith)
                requires
                    pow_fix(1000, (i + 1) as nat) * pow_fix(1000, (11 - i) as nat) == pow_fix(
                        1000,
                        12,
                    ),
                    pow_fix(1000, (11 - i) as nat) >= 1,
            ;
            assert(acc * b <= pow_fix(1000, (i + 1) as nat)) by (nonlinear_arith)
                requires
                    acc == pow_fix(b as nat, i as nat),
                    pow_fix(b as nat, (i + 1) as nat) == (b as nat) * pow_fix(b as nat, i as nat),
                    pow_fix(b as nat, (i + 1) as nat) <= pow_fix(1000, (i + 1) as nat),
            ;
        }
        acc = acc * (b as u128);
        i = i + 1;
        assert(acc == pow_fix(b as nat, i as nat)) by (nonlinear_arith)
            requires
                acc == pow_fix(b as nat, (i - 1) as nat) * b,
                pow_fix(b as nat, i as nat) == (b as nat) * pow_fix(b as nat, (i - 1) as nat),
        ;
    }
    acc
}

/// `r` is the integer `n`-th root of `v`.
pub open spec fn is_nth_root(r: nat, n: nat, v: nat) -> bool {
    pow_fix(r, n) <= v < pow_fix(r + 1, n)
}

/// The integer `n`-th root of `v`.
pub open spec fn spec_nth_root(n: nat, v: nat) -> nat {
    choose|r: nat| is_nth_root(r, n, v)
}

/// The integer `n`-th root is unique: any witness equals `spec_nth_root`.
pub proof fn lemma_nth_root_unique(r: nat, n: nat, v: nat)
    requires
        is_nth_root(r, n, v),
        n >= 1,
    ensures
        spec_nth_root(n, v) == r,
{
    assert(exists|x: nat| is_nth_root(x, n, v));
    let r2 = spec_nth_root(n, v);
    assert(is_nth_root(r2, n, v));
    if r2 < r {
        lemma_pow_base_le((r2 + 1) as nat, r, n);
    }
    if r < r2 {
        lemma_pow_base_le((r + 1) as nat, r2, n);
    }
}

/// Integer `n`-th root by binary search, for roots up to the twelfth.
pub fn nth_root(v: u128, n: u32) -> (r: u64)
    requires
        1 <= n <= 12,
        v <= pow_fix(1000, n as nat),
    ensures
        is_nth_root(r as nat, n as nat, v as nat),
        r == spec_nth_root(n as nat, v as nat),
        r <= 1000,
{
    let mut lo: u64 = 0;
    let mut hi: u64 = 1001;
    proof {
        assert(pow_fix(0, n as nat) == 0 * pow_fix(0, (n - 1) as nat));
        assert(pow_fix(0, n as nat) == 0) by (nonlinear_arith)
            requires pow_fix(0, n as nat) == 0 * pow_fix(0, (n - 1) as nat);
        lemma_pow_base_lt(1000, 1001, n as nat);
    }
    while lo + 1 < hi
        invariant
            lo < hi,
            hi <= 1001,
            1 <= n <= 12,
            pow_fix(lo as nat, n as nat) <= v,
            v < pow_fix(hi as nat, n as nat),
        decreases hi - lo,
    {
        let mid = lo + (hi - lo) / 2;
        let p = pow_exec(mid, n);
        if p <= v {
            lo = mid;
        } else {
            hi = mid;
        }
    }
    proof {
        lemma_nth_root_unique(lo as nat, n as nat, v as nat);
        if lo > 1000 {
            lemma_pow_base_le(1001, lo as nat, n as nat);
            lemma_pow_base_lt(1000, 1001, n as nat);
        }
    }
    lo
}

/// The quadratic-mean blend of `x` toward `y` with weight `w`:
/// the fixed-point form of `sqrt(x^2 (1-w) + y^2 w)`.
pub open spec fn spec_mix(x: u32, y: u32, w: u32) -> nat {
    spec_isqrt((((x * x) * ((SCALE - w) as u32) + (y * y) * w) / (SCALE as int)) as nat)
}

/// Blend `x` toward `y` with weight `w` by quadratic mean.
pub fn mix_fixed(x: u32, y: u32, w: u32) -> (r: u32)
    requires
        x <= SCALE,
        y <= SCALE,
        w <= SCALE,
    ensures
        r == spec_mix(x, y, w),
        r <= SCALE,
{
    assert((x as u64) * (x as u64) <= 1000000) by (nonlinear_arith)
        requires x <= 1000u32;
    let xx: u64 = (x as u64) * (x as u64);
    assert((y as u64) * (y as u64) <= 1000000) by (nonlinear_arith)
        requires y <= 1000u32;
    let yy: u64 = (y as u64) * (y as u64);
    assert(xx * ((SCALE - w) as u64) <= 1000000000) by (nonlinear_arith)
        requires xx <= 1000000, w <= SCALE, SCALE == 1000u32;
    let xs: u64 = xx * ((SCALE - w) as u64);
    assert(yy * (w as u64) <= 1000000000) by (nonlinear_arith)
        requires yy <= 1000000, w <= 1000u32;
    let ys: u64 = yy * (w as u64);
    let v: u64 = (xs + ys) / (SCALE as u64);
    assert(v <= 1000000) by (nonlinear_arith)
        requires
            xs == xx * ((SCALE - w) as u64),
            ys == yy * (w as u64),
            xx <= 1000000,
            yy <= 1000000,
            w <= 1000u32,
            SCALE == 1000u32,
            v == (xs + ys) / 1000,
    ;
    let r = isqrt64(v);
    proof {
        assert(is_sqrt(r as nat, v as nat));
        if r > SCALE {
            assert((1001 * 1001) <= r * r) by (nonlinear_arith)
                requires r >= 1001u64;
            assert(false);
        }
    }
    r as u32
}

/// Blending with weight zero returns the first argument unchanged.
pub proof fn lemma_mix_zero(x: u32, y: u32)
    requires
        x <= SCALE,
        y <= SCALE,
    ensures
        spec_mix(x, y, 0) == x,
{
    assert((((x * x) * (SCALE as u32) + (y * y) * 0) / (SCALE as int)) == x * x)
        by (nonlinear_arith)
        requires x <= SCALE, SCALE == 1000u32;
    assert(is_sqrt(x as nat, (x * x) as nat)) by (nonlinear_arith);
    lemma_sqrt_unique(x as nat, (x * x) as nat);
}

/// Blending with full weight returns the second argument unchanged.
pub proof fn lemma_mix_full(x: u32, y: u32)
    requires
        x <= SCALE,
        y <= SCALE,
    ensures
        spec_mix(x, y, SCALE) == y,
{
    assert((((x * x) * ((SCALE - SCALE) as u32) + (y * y) * SCALE) / (SCALE as int)) == y * y)
        by (nonlinear_arith)
        requires y <= SCALE, SCALE == 1000u32;
    assert(is_sqrt(y as nat, (y * y) as nat)) by (nonlinear_arith);
    lemma_sqrt_unique(y as nat, (y * y) as nat);
}

/// The gamma-corrected channel: `x^(gd/gn)` in fixed point, i.e. the
/// `gn`-th root of `x^gd` rescaled to `SCALE`. `gn/gd` is the gamma
/// exponent's reciprocal as a small rational; parts up to twelve cover
/// the usual display gammas (2.2 is eleven fifths).
pub open spec fn spec_gamma_channel(x: u32, gn: u32, gd: u32) -> nat {
    let base = pow_fix(x as nat, gd as nat);
    let scaled = if gn >= gd {
        base * pow_fix(1000, (gn - gd) as nat)
    } else {
        base / pow_fix(1000, (gd - gn) as nat)
    };
    spec_nth_root(gn as nat, scaled)
}

/// Apply the gamma exponent `gd/gn` to a fixed-point channel.
pub fn gamma_channel(x: u32, gn: u32, gd: u32) -> (r: u32)
    requires
        x <= SCALE,
        1 <= gn <= 12,
        1 <= gd <= 12,
    ensures
        r == spec_gamma_channel(x, gn, gd),
        r <= SCALE,
{
    let base = pow_exec(x as u64, gd);
    proof {
        lemma_pow_base_le(x as nat, 1000, gd as nat);
        lemma_pow_scale12();
    }
    let scaled: u128 = if gn >= gd {
        let m = pow_exec(1000, gn - gd);
        proof {
            lemma_pow_adds(1000, gd as nat, (gn - gd) as nat);
            lemma_pow_pos(1000, (gn - gd) as nat);
            assert(base * m <= pow_fix(1000, gn as nat)) by (nonlinear_arith)
                requires
                    base <= pow_fix(1000, gd as nat),
                    m == pow_fix(1000, (gn - gd) as nat),
                    pow_fix(1000, gd as nat) * pow_fix(1000, (gn - gd) as nat) == pow_fix(
                        1000,
                        gn as nat,
                    ),
                    m >= 1,
            ;
            lemma_pow_adds(1000, gn as nat, (12 - gn) as nat);
            lemma_pow_pos(1000, (12 - gn) as nat);
            assert(pow_fix(1000, gn as nat) <= pow_fix(1000, 12)) by (nonlinear_arith)
                requires
                    pow_fix(1000, gn as nat) * pow_fix(1000, (12 - gn) as nat) == pow_fix(
                        1000,
                        12,
                    ),
                    pow_fix(1000, (12 - gn) as nat) >= 1,
            ;
        }
        base * m
    } else {
        let d = pow_exec(1000, gd - gn);
        proof {
            lemma_pow_pos(1000, (gd - gn) as nat);
            lemma_pow_adds(1000, gn as nat, (gd - gn) as nat);
            assert(base / d <= pow_fix(1000, gn as nat)) by (nonlinear_arith)
                requires
                    base <= pow_fix(1000, gd as nat),
                    d == pow_fix(1000, (gd - gn) as nat),
                    pow_fix(1000, gn as nat) * pow_fix(1000, (gd - gn) as nat) == pow_fix(
                        1000,
                        gd as nat,
                    ),
                    d >= 1,
            ;
        }
        base / d
    };
    let r = nth_root(scaled, gn);
    r as u32
}

/// With a gamma of one the correction is the identity.
pub proof fn lemma_gamma_identity(x: u32, g: u32)
    requires
        x <= SCALE,
        1 <= g <= 12,
    ensures
        spec_gamma_channel(x, g, g) == x,
{
    let base = pow_fix(x as nat, g as nat);
    assert(pow_fix(1000, 0) == 1);
    assert(base * 1 == base);
    lemma_pow_base_lt(x as nat, (x + 1) as nat, g as nat);
    assert(is_nth_root(x as nat, g as nat, base));
    lemma_nth_root_unique(x as nat, g as nat, base);
}

} // verus!
