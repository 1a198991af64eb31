//! Fixed-point HSL color space: conversion from and to RGB, and the
//! perceptual lightness/saturation remap used by the corrector.

use vstd::prelude::*;

use crate::SCALE;
use crate::color::FixedRgb;
use crate::fixed::{mix_fixed, spec_mix, lemma_mix_zero};

verus! {

/// A color in HSL, fixed point: hue in `[0, 6*SCALE)` (one `SCALE` per
/// sextant of the hue circle), saturation and lightness in `[0, SCALE]`.
#[derive(Clone, Copy, Debug, PartialEq, Eq, Structural)]
pub struct Hsl {
    pub h: u32,
    pub s: u32,
    pub l: u32,
}

impl Hsl {
    /// All components stay inside their ranges.
    pub open spec fn wf(self) -> bool {
        self.h < 6 * SCALE && self.s <= SCALE && self.l <= SCALE
    }
}

/// The larger of two channels.
pub open spec fn smax(a: u32, b: u32) -> u32 {
    if a >= b { a } else { b }
}

/// The smaller of two channels.
pub open spec fn smin(a: u32, b: u32) -> u32 {
    if a <= b { a } else { b }
}

/// The HSL form of a fixed-point RGB color: lightness is the mean of
/// the channel extremes, saturation the chroma over the headroom, hue
/// the sextant angle, all truncated to fixed point.
pub open spec fn spec_hsl_of(c: FixedRgb) -> Hsl {
    let mx = smax(c.r, smax(c.g, c.b)) as int;
    let mn = smin(c.r, smin(c.g, c.b)) as int;
    let d = mx - mn;
    let l = (mx + mn) / 2;
    if d == 0 {
        Hsl { h: 0, s: 0, l: l as u32 }
    } else {
        let s = if mx + mn <= SCALE {
            d * (SCALE as int) / (mx + mn)
        } else {
            d * (SCALE as int) / (2 * (SCALE as int) - (mx + mn))
        };
        let h = if c.r as int == mx {
            if c.g >= c.b {
                (c.g - c.b) * (SCALE as int) / d
            } else {
                6 * (SCALE as int) - (c.b - c.g) * (SCALE as int) / d
            }
        } else if c.g as int == mx {
            if c.b >= c.r {
                2 * (SCALE as int) + (c.b - c.r) * (SCALE as int) / d
            } else {
                2 * (SCALE as int) - (c.r - c.b) * (SCALE as int) / d
            }
        } else {
            if c.r >= c.g {
                4 * (SCALE as int) + (c.r - c.g) * (SCALE as int) / d
            } else {
                4 * (SCALE as int) - (c.g - c.r) * (SCALE as int) / d
            }
        };
        Hsl { h: h as u32, s: s as u32, l: l as u32 }
    }
}

/// Convert a fixed-point RGB color to HSL.
pub fn hsl_of(c: &FixedRgb) -> (r: Hsl)
    requires
        c.wf(),
    ensures
        r == spec_hsl_of(*c),
        r.wf(),
{
    let mx: u32 = if c.r >= c.g { if c.r >= c.b { c.r } else { c.b } } else {
        if c.g >= c.b { c.g } else { c.b }
    };
    let mn: u32 = if c.r <= c.g { if c.r <= c.b { c.r } else { c.b } } else {
        if c.g <= c.b { c.g } else { c.b }
    };
    assert(mx == smax(c.r, smax(c.g, c.b)));
    assert(mn == smin(c.r, smin(c.g, c.b)));
    let d: u32 = mx - mn;
    let l: u32 = (mx + mn) / 2;
    if d == 0 {
        Hsl { h: 0, s: 0, l }
    } else {
        let sum: u32 = mx + mn;
        let s: u32 = if sum <= SCALE {
            assert(d * SCALE <= sum * SCALE) by (nonlinear_arith)
                requires d <= sum;
            assert(d * SCALE / (sum as int) <= SCALE) by (nonlinear_arith)
                requires d <= sum, sum >= 1u32, SCALE >= 1u32;
            d * SCALE / sum
        } else {
            let head: u32 = 2 * SCALE - sum;
            assert(d <= head);
            assert(d * SCALE / (head as int) <= SCALE) by (nonlinear_arith)
                requires d <= head, head >= 1u32, SCALE >= 1u32;
            d * SCALE / head
        };
        let h: u32 = if c.r == mx {
            if c.g >= c.b {
                assert((c.g - c.b) * SCALE / (d as int) <= SCALE) by (nonlinear_arith)
                    requires c.g - c.b <= d, d >= 1u32, SCALE >= 1u32;
                (c.g - c.b) as u32 * SCALE / d
            } else {
                let t: u32 = (c.b - c.g) as u32 * SCALE / d;
                assert(1 <= t <= SCALE) by (nonlinear_arith)
                    requires
                        t == (c.b - c.g) * SCALE / (d as int),
                        1 <= c.b - c.g <= d,
                        1 <= d <= SCALE,
                        SCALE >= 1u32,
                ;
                6 * SCALE - t
            }
        } else if c.g == mx {
            if c.b >= c.r {
                assert((c.b - c.r) * SCALE / (d as int) <= SCALE) by (nonlinear_arith)
                    requires c.b - c.r <= d, d >= 1u32, SCALE >= 1u32;
                2 * SCALE + (c.b - c.r) as u32 * SCALE / d
            } else {
                let t: u32 = (c.r - c.b) as u32 * SCALE / d;
                assert(t <= SCALE) by (nonlinear_arith)
                    requires t == (c.r - c.b) * SCALE / (d as int), c.r - c.b <= d, d >= 1u32, SCALE >= 1u32;
                2 * SCALE - t
            }
        } else {
            if c.r >= c.g {
                assert((c.r - c.g) * SCALE / (d as int) <= SCALE) by (nonlinear_arith)
                    requires c.r - c.g <= d, d >= 1u32, SCALE >= 1u32;
                4 * SCALE + (c.r - c.g) as u32 * SCALE / d
            } else {
                let t: u32 = (c.g - c.r) as u32 * SCALE / d;
                assert(t <= SCALE) by (nonlinear_arith)
                    requires t == (c.g - c.r) * SCALE / (d as int), c.g - c.r <= d, d >= 1u32, SCALE >= 1u32;
                4 * SCALE - t
            }
        };
        Hsl { h, s, l }
    }
}

/// The RGB form of a fixed-point HSL color: chroma from lightness
/// headroom and saturation, the sextant ramp, and the lightness offset.
pub open spec fn spec_rgb_of_hsl(x: Hsl) -> FixedRgb {
    let l = x.l as int;
    let scale = SCALE as int;
    let abs2l = if 2 * l >= scale { 2 * l - scale } else { scale - 2 * l };
    let c = (scale - abs2l) * (x.s as int) / scale;
    let sector = (x.h as int) / scale;
    let hm = (x.h as int) % (2 * scale);
    let absh = if hm >= scale { hm - scale } else { scale - hm };
    let xx = c * (scale - absh) / scale;
    let m = l - c / 2;
    let rgb = if sector == 0 {
        (c, xx, 0int)
    } else if sector == 1 {
        (xx, c, 0int)
    } else if sector == 2 {
        (0int, c, xx)
    } else if sector == 3 {
        (0int, xx, c)
    } else if sector == 4 {
        (xx, 0int, c)
    } else {
        (c, 0int, xx)
    };
    FixedRgb { r: (rgb.0 + m) as u32, g: (rgb.1 + m) as u32, b: (rgb.2 + m) as u32 }
}

/// Convert a fixed-point HSL color back to RGB.
pub fn rgb_of_hsl(x: &Hsl) -> (r: FixedRgb)
    requires
        x.wf(),
    ensures
        r == spec_rgb_of_hsl(*x),
        r.wf(),
{
    let l: u32 = x.l;
    let abs2l: u32 = if 2 * l >= SCALE { 2 * l - SCALE } else { SCALE - 2 * l };
    let room: u32 = SCALE - abs2l;
    assert(room * x.s <= SCALE * SCALE) by (nonlinear_arith)
        requires room <= SCALE, x.s <= SCALE;
    let c: u32 = room * x.s / SCALE;
    assert(c <= room) by (nonlinear_arith)
        requires c == room * x.s / (SCALE as int), x.s <= SCALE, SCALE >= 1u32;
    let sector: u32 = x.h / SCALE;
    let hm: u32 = x.h % (2 * SCALE);
    let absh: u32 = if hm >= SCALE { hm - SCALE } else { SCALE - hm };
    assert(c * (SCALE - absh) <= SCALE * SCALE) by (nonlinear_arith)
        requires c <= SCALE, SCALE - absh <= SCALE;
    let xx: u32 = c * (SCALE - absh) / SCALE;
    assert(xx <= c) by (nonlinear_arith)
        requires xx == c * (SCALE - absh) / (SCALE as int), SCALE - absh <= SCALE, SCALE >= 1u32;
    proof {
        if 2 * l >= SCALE {
            assert(room == 2 * (SCALE - l));
        } else {
            assert(room == 2 * l);
        }
        assert(c / 2 <= l && l + (c - c / 2) <= SCALE);
    }
    let m: u32 = l - c / 2;
    let cm: u32 = c + m;
    let xm: u32 = xx + m;
    if sector == 0 {
        FixedRgb { r: cm, g: xm, b: m }
    } else if sector == 1 {
        FixedRgb { r: xm, g: cm, b: m }
    } else if sector == 2 {
        FixedRgb { r: m, g: cm, b: xm }
    } else if sector == 3 {
        FixedRgb { r: m, g: xm, b: cm }
    } else if sector == 4 {
        FixedRgb { r: xm, g: m, b: cm }
    } else {
        assert(sector == 5) by (nonlinear_arith)
            requires sector == x.h / SCALE, x.h < 6 * SCALE, SCALE >= 1u32, sector >= 5u32;
        FixedRgb { r: cm, g: m, b: xm }
    }
}

/// The perceptual remap: lightness blended toward one half and
/// saturation toward one, each by quadratic mean, hue kept.
pub open spec fn spec_correct_hsl(c: FixedRgb, light_c: u32, sat_c: u32) -> FixedRgb {
    let x = spec_hsl_of(c);
    spec_rgb_of_hsl(
        Hsl {
            h: x.h,
            s: spec_mix(x.s, SCALE, sat_c) as u32,
            l: spec_mix(x.l, (SCALE / 2) as u32, light_c) as u32,
        },
    )
}

/// Remap a color's lightness and saturation toward their ideals.
pub fn correct_hsl(c: &FixedRgb, light_c: u32, sat_c: u32) -> (r: FixedRgb)
    requires
        c.wf(),
        light_c <= SCALE,
        sat_c <= SCALE,
    ensures
        r == spec_correct_hsl(*c, light_c, sat_c),
        r.wf(),
{
    let x = hsl_of(c);
    let s2 = mix_fixed(x.s, SCALE, sat_c);
    let l2 = mix_fixed(x.l, SCALE / 2, light_c);
    rgb_of_hsl(&Hsl { h: x.h, s: s2, l: l2 })
}

/// With both corrections at zero the remap is exactly the plain
/// RGB-to-HSL-to-RGB round trip: nothing but the conversion happens.
pub proof fn lemma_correct_zero_is_round_trip(c: FixedRgb)
    requires
        c.wf(),
    ensures
        spec_correct_hsl(c, 0, 0) == spec_rgb_of_hsl(spec_hsl_of(c)),
{
    let x = spec_hsl_of(c);
    lemma_hsl_of_wf(c);
    lemma_mix_zero(x.s, SCALE);
    lemma_mix_zero(x.l, (SCALE / 2) as u32);
}

/// The HSL form of a well-formed color is well formed.
pub proof fn lemma_hsl_of_wf(c: FixedRgb)
    requires
        c.wf(),
    ensures
        spec_hsl_of(c).wf(),
{
    let mx = smax(c.r, smax(c.g, c.b)) as int;
    let mn = smin(c.r, smin(c.g, c.b)) as int;
    let d = mx - mn;
    if d != 0 {
        if mx + mn <= SCALE {
            assert(d * (SCALE as int) / (mx + mn) <= SCALE) by (nonlinear_arith)
                requires d <= mx + mn, mx + mn >= 1, SCALE >= 1u32;
        } else {
            assert(d * (SCALE as int) / (2 * (SCALE as int) - (mx + mn)) <= SCALE)
                by (nonlinear_arith)
                requires
                    0 < d <= 2 * (SCALE as int) - (mx + mn),
                    mx + mn < 2 * (SCALE as int),
                    SCALE >= 1u32,
            ;
        }
        if c.g as int != mx && c.r as int != mx {
            assert((c.r - c.g) * (SCALE as int) / d <= SCALE) by (nonlinear_arith)
                requires c.r - c.g <= d, d >= 1, SCALE >= 1u32;
            assert((c.g - c.r) * (SCALE as int) / d <= SCALE) by (nonlinear_arith)
                requires c.g - c.r <= d, d >= 1, SCALE >= 1u32;
        }
        if c.r as int == mx {
            assert((c.g - c.b) * (SCALE as int) / d <= SCALE) by (nonlinear_arith)
                requires c.g - c.b <= d, d >= 1, SCALE >= 1u32;
            assert(c.g < c.b ==> 1 <= (c.b - c.g) * (SCALE as int) / d && (c.b - c.g) * (
            SCALE as int) / d <= SCALE) by (nonlinear_arith)
                requires
                    SCALE >= 1u32,
                    c.g < c.b ==> 1 <= c.b - c.g && c.b - c.g <= d && d <= SCALE && d >= 1,
            ;
        }
        if c.r as int != mx && c.g as int == mx {
            assert((c.b - c.r) * (SCALE as int) / d <= SCALE) by (nonlinear_arith)
                requires c.b - c.r <= d, d >= 1, SCALE >= 1u32;
            assert((c.r - c.b) * (SCALE as int) / d <= SCALE) by (nonlinear_arith)
                requires c.r - c.b <= d, d >= 1, SCALE >= 1u32;
        }
    }
}

/// A gray color survives the round trip exactly: its saturation is
/// zero, its lightness is the gray level itself.
pub proof fn lemma_gray_round_trip(v: u32)
    requires
        v <= SCALE,
    ensures
        spec_hsl_of(FixedRgb { r: v, g: v, b: v }) == (Hsl { h: 0, s: 0, l: v }),
        spec_rgb_of_hsl(Hsl { h: 0, s: 0, l: v }) == (FixedRgb { r: v, g: v, b: v }),
{
    let c = FixedRgb { r: v, g: v, b: v };
    assert(smax(c.r, smax(c.g, c.b)) == v);
    assert(smin(c.r, smin(c.g, c.b)) == v);
    assert((v + v) / 2 == v as int);
    let x = Hsl { h: 0, s: 0, l: v };
    let l = x.l as int;
    let scale = SCALE as int;
    let abs2l = if 2 * l >= scale { 2 * l - scale } else { scale - 2 * l };
    assert((scale - abs2l) * 0 == 0) by (nonlinear_arith);
    assert(0int / scale == 0);
    let cc = (scale - abs2l) * (x.s as int) / scale;
    assert(cc == 0);
    let hm = (x.h as int) % (2 * scale);
    let absh = if hm >= scale { hm - scale } else { scale - hm };
    assert(cc * (scale - absh) == 0) by (nonlinear_arith)
        requires cc == 0;
    assert(cc * (scale - absh) / scale == 0);
    assert((x.h as int) / scale == 0);
    assert(l - cc / 2 == v as int);
}

} // verus!
