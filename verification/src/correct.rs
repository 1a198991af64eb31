//! The temporal and perceptual correction stage: gamma, the HSL remap,
//! and exponential smoothing against the previously emitted color.

use vstd::prelude::*;

use crate::SCALE;
use crate::color::{FixedRgb, Rgb8, fixed_byte, spec_fixed_byte};
use crate::fixed::{gamma_channel, spec_gamma_channel};
use crate::hsl::{correct_hsl, spec_correct_hsl};

verus! {

/// The corrector's configuration. The gamma exponent is the rational
/// `gamma_num / gamma_den`; the three weights live in `[0, SCALE]`.
#[derive(Clone, Copy, Debug, PartialEq, Eq, Structural)]
pub struct CorrectionConfig {
    pub gamma_num: u32,
    pub gamma_den: u32,
    pub fade_weight: u32,
    pub light_correction: u32,
    pub saturation_correction: u32,
}

impl CorrectionConfig {
    /// Gamma is a positive rational of small parts; weights stay in
    /// the unit interval.
    pub open spec fn wf(self) -> bool {
        &&& 1 <= self.gamma_num <= 12
        &&& 1 <= self.gamma_den <= 12
        &&& self.fade_weight <= SCALE
        &&& self.light_correction <= SCALE
        &&& self.saturation_correction <= SCALE
    }
}

/// Gamma correction channel by channel: each channel raised to one
/// over gamma.
pub open spec fn spec_gamma_rgb(c: FixedRgb, cfg: CorrectionConfig) -> FixedRgb {
    FixedRgb {
        r: spec_gamma_channel(c.r, cfg.gamma_num, cfg.gamma_den) as u32,
        g: spec_gamma_channel(c.g, cfg.gamma_num, cfg.gamma_den) as u32,
        b: spec_gamma_channel(c.b, cfg.gamma_num, cfg.gamma_den) as u32,
    }
}

/// The corrected sample: gamma, then the HSL lightness and saturation
/// remap.
pub open spec fn spec_corrected(c: FixedRgb, cfg: CorrectionConfig) -> FixedRgb {
    spec_correct_hsl(spec_gamma_rgb(c, cfg), cfg.light_correction, cfg.saturation_correction)
}

/// One channel of the exponential blend of the previous color with the
/// new sample.
pub open spec fn spec_fade_channel(p: u32, c: u32, w: u32) -> int {
    (p * w + c * ((SCALE - w) as u32)) / (SCALE as int)
}

/// The exponential blend: the previous color weighted by the fade
/// weight, the new sample by its complement.
pub open spec fn spec_fade(prev: FixedRgb, c: FixedRgb, w: u32) -> FixedRgb {
    FixedRgb {
        r: spec_fade_channel(prev.r, c.r, w) as u32,
        g: spec_fade_channel(prev.g, c.g, w) as u32,
        b: spec_fade_channel(prev.b, c.b, w) as u32,
    }
}

/// With a fade weight of zero the blend is the new sample alone: the
/// corrector has no memory.
pub proof fn lemma_fade_zero(prev: FixedRgb, c: FixedRgb)
    requires
        prev.wf(),
        c.wf(),
    ensures
        spec_fade(prev, c, 0) == c,
{
    assert((prev.r * 0 + c.r * (SCALE as u32)) / (SCALE as int) == c.r) by (nonlinear_arith)
        requires c.r <= SCALE, SCALE == 1000u32;
    assert((prev.g * 0 + c.g * (SCALE as u32)) / (SCALE as int) == c.g) by (nonlinear_arith)
        requires c.g <= SCALE, SCALE == 1000u32;
    assert((prev.b * 0 + c.b * (SCALE as u32)) / (SCALE as int) == c.b) by (nonlinear_arith)
        requires c.b <= SCALE, SCALE == 1000u32;
}

/// With the full fade weight the blend is the previous color alone:
/// the running color never changes after initialization.
pub proof fn lemma_fade_full(prev: FixedRgb, c: FixedRgb)
    requires
        prev.wf(),
        c.wf(),
    ensures
        spec_fade(prev, c, SCALE) == prev,
{
    assert((prev.r * SCALE + c.r * ((SCALE - SCALE) as u32)) / (SCALE as int) == prev.r)
        by (nonlinear_arith)
        requires prev.r <= SCALE, SCALE == 1000u32;
    assert((prev.g * SCALE + c.g * ((SCALE - SCALE) as u32)) / (SCALE as int) == prev.g)
        by (nonlinear_arith)
        requires prev.g <= SCALE, SCALE == 1000u32;
    assert((prev.b * SCALE + c.b * ((SCALE - SCALE) as u32)) / (SCALE as int) == prev.b)
        by (nonlinear_arith)
        requires prev.b <= SCALE, SCALE == 1000u32;
}

/// Blend one channel of the previous color with the new sample.
fn fade_channel(p: u32, c: u32, w: u32) -> (r: u32)
    requires
        p <= SCALE,
        c <= SCALE,
        w <= SCALE,
    ensures
        r == spec_fade_channel(p, c, w),
        r <= SCALE,
{
    assert(p * w + c * ((SCALE - w) as u32) <= SCALE * SCALE) by (nonlinear_arith)
        requires p <= SCALE, c <= SCALE, w <= SCALE;
    let num: u32 = p * w + c * (SCALE - w);
    assert(num / SCALE <= SCALE) by (nonlinear_arith)
        requires num <= SCALE * SCALE, SCALE >= 1u32;
    num / SCALE
}

/// The one piece of persistent state: the color last emitted to the
/// device, black at process start.
pub struct ColorCorrector {
    pub previous: FixedRgb,
}

impl ColorCorrector {
    /// Start with black as the previously emitted color.
    pub fn new() -> (r: ColorCorrector)
        ensures
            r.previous == (FixedRgb { r: 0, g: 0, b: 0 }),
            r.previous.wf(),
    {
        ColorCorrector { previous: FixedRgb { r: 0, g: 0, b: 0 } }
    }

    /// Advance one frame: gamma-correct the raw sample, remap it in
    /// HSL, blend it with the previous color, store the blend, and
    /// hand back its 8-bit form for the device.
    pub fn step(&mut self, raw: &FixedRgb, cfg: &CorrectionConfig) -> (out: Rgb8)
        requires
            old(self).previous.wf(),
            raw.wf(),
            cfg.wf(),
        ensures
            final(self).previous == spec_fade(
                old(self).previous,
                spec_corrected(*raw, *cfg),
                cfg.fade_weight,
            ),
            final(self).previous.wf(),
            out == spec_fixed_byte(final(self).previous),
            cfg.fade_weight == 0 ==> final(self).previous == spec_corrected(*raw, *cfg),
            cfg.fade_weight == SCALE ==> final(self).previous == old(self).previous,
    {
        let gam = FixedRgb {
            r: gamma_channel(raw.r, cfg.gamma_num, cfg.gamma_den),
            g: gamma_channel(raw.g, cfg.gamma_num, cfg.gamma_den),
            b: gamma_channel(raw.b, cfg.gamma_num, cfg.gamma_den),
        };
        let corrected = correct_hsl(&gam, cfg.light_correction, cfg.saturation_correction);
        let blended = FixedRgb {
            r: fade_channel(self.previous.r, corrected.r, cfg.fade_weight),
            g: fade_channel(self.previous.g, corrected.g, cfg.fade_weight),
            b: fade_channel(self.previous.b, corrected.b, cfg.fade_weight),
        };
        proof {
            if cfg.fade_weight == 0 {
                lemma_fade_zero(old(self).previous, corrected);
            }
            if cfg.fade_weight == SCALE {
                lemma_fade_full(old(self).previous, corrected);
            }
        }
        self.previous = blended;
        fixed_byte(&blended)
    }
}

/// The five-byte command the lighting transport expects: a fixed
/// leading byte, the three 8-bit channels, and the fixed terminator.
pub fn encode_command(c: &Rgb8) -> (r: Vec<u8>)
    ensures
        r@ =~= seq![1u8, c.r, c.g, c.b, 0x64u8],
{
    let mut out: Vec<u8> = Vec::new();
    out.push(1);
    out.push(c.r);
    out.push(c.g);
    out.push(c.b);
    out.push(0x64);
    out
}

} // verus!
