//! Pixels, frames, and the fixed-point color representation.

use vstd::prelude::*;

use crate::SCALE;

verus! {

/// An RGB color with 8-bit channels.
#[derive(Clone, Copy, Debug, PartialEq, Eq, Structural, Hash)]
pub struct Rgb8 {
    pub r: u8,
    pub g: u8,
    pub b: u8,
}

/// A pixel with an alpha channel, as delivered by a frame source.
#[derive(Clone, Copy, Debug, PartialEq, Eq, Structural)]
pub struct Pixel8 {
    pub r: u8,
    pub g: u8,
    pub b: u8,
    pub a: u8,
}

/// A captured frame: row-major pixels, `width * height` of them.
pub struct Frame {
    pub width: usize,
    pub height: usize,
    pub pixels: Vec<Pixel8>,
}

impl Frame {
    /// A frame is well formed when it holds exactly one pixel per cell.
    pub open spec fn wf(self) -> bool {
        self.pixels@.len() == self.width * self.height
    }
}

/// An RGB color in fixed point: each channel in `[0, SCALE]`.
#[derive(Clone, Copy, Debug, PartialEq, Eq, Structural)]
pub struct FixedRgb {
    pub r: u32,
    pub g: u32,
    pub b: u32,
}

impl FixedRgb {
    /// All channels stay inside the unit interval.
    pub open spec fn wf(self) -> bool {
        self.r <= SCALE && self.g <= SCALE && self.b <= SCALE
    }

    /// The all-zero color.
    pub fn black() -> (r: FixedRgb)
        ensures
            r == (FixedRgb { r: 0, g: 0, b: 0 }),
            r.wf(),
    {
        FixedRgb { r: 0, g: 0, b: 0 }
    }
}

/// A pixel is boring when it is nearly transparent or near-opaque
/// near-white: such pixels carry no usable color information and are
/// excluded from quantizer training.
pub open spec fn spec_is_boring_pixel(p: Pixel8) -> bool {
    p.a < 125 || (p.r > 250 && p.g > 250 && p.b > 250)
}

/// Decide whether a pixel is excluded from quantizer training.
pub fn is_boring_pixel(p: &Pixel8) -> (r: bool)
    ensures
        r == spec_is_boring_pixel(*p),
{
    p.a < 125 || (p.r > 250 && p.g > 250 && p.b > 250)
}

/// An 8-bit channel scaled into fixed point; 255 maps exactly to `SCALE`.
pub open spec fn spec_channel_milli(v: u8) -> u32 {
    ((v as u32) * SCALE / 255) as u32
}

/// Scale an 8-bit channel into the fixed-point unit interval.
pub fn channel_milli(v: u8) -> (r: u32)
    ensures
        r == spec_channel_milli(v),
        r <= SCALE,
{
    let r: u32 = (v as u32) * SCALE / 255;
    assert(r <= SCALE) by {
        assert((v as u32) * SCALE <= 255 * SCALE) by (nonlinear_arith)
            requires v <= 255u32;
        assert(255 * SCALE / 255 == SCALE);
        assert((v as u32) * SCALE / 255 <= 255 * SCALE / 255) by (nonlinear_arith)
            requires (v as u32) * SCALE <= 255 * SCALE;
    };
    r
}

/// An 8-bit color scaled into fixed point, channel by channel.
pub open spec fn spec_rgb8_milli(c: Rgb8) -> FixedRgb {
    FixedRgb {
        r: spec_channel_milli(c.r),
        g: spec_channel_milli(c.g),
        b: spec_channel_milli(c.b),
    }
}

/// Scale an 8-bit color into the fixed-point unit interval.
pub fn rgb8_milli(c: &Rgb8) -> (r: FixedRgb)
    ensures
        r == spec_rgb8_milli(*c),
        r.wf(),
{
    FixedRgb { r: channel_milli(c.r), g: channel_milli(c.g), b: channel_milli(c.b) }
}

/// A fixed-point channel scaled back to 8 bits; `SCALE` maps exactly to 255.
pub open spec fn spec_channel_byte(v: u32) -> u8 {
    (v * 255 / (SCALE as int)) as u8
}

/// Scale a fixed-point channel down to 8 bits.
pub fn channel_byte(v: u32) -> (r: u8)
    requires
        v <= SCALE,
    ensures
        r == spec_channel_byte(v),
{
    assert(v * 255 <= SCALE * 255) by (nonlinear_arith)
        requires v <= SCALE;
    assert(v * 255 / (SCALE as int) <= SCALE * 255 / (SCALE as int)) by (nonlinear_arith)
        requires v * 255 <= SCALE * 255, SCALE > 0u32;
    (v * 255 / SCALE) as u8
}

/// A fixed-point color scaled back to 8 bits, channel by channel.
pub open spec fn spec_fixed_byte(c: FixedRgb) -> Rgb8 {
    Rgb8 {
        r: spec_channel_byte(c.r),
        g: spec_channel_byte(c.g),
        b: spec_channel_byte(c.b),
    }
}

/// Scale a fixed-point color down to an 8-bit color for the device.
pub fn fixed_byte(c: &FixedRgb) -> (r: Rgb8)
    requires
        c.wf(),
    ensures
        r == spec_fixed_byte(*c),
{
    Rgb8 { r: channel_byte(c.r), g: channel_byte(c.g), b: channel_byte(c.b) }
}

} // verus!
