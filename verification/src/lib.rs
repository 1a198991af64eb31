//! Screen-to-light ambient color pipeline.
//!
//! Reduces a captured frame to a single representative color: palette
//! quantization with a pixel histogram, vibrancy swatch classification,
//! three interchangeable sampling strategies, and a temporal/perceptual
//! correction stage. All color math is fixed-point over `SCALE` so that
//! every step carries a precise contract.

use vstd::prelude::*;

pub mod color;
pub mod fixed;
pub mod hsl;
pub mod quant;
pub mod vibrancy;
pub mod extract;
pub mod correct;

verus! {

/// Fixed-point unit: values in `[0, SCALE]` stand for reals in `[0, 1]`.
pub const SCALE: u32 = 1000;

/// Errors of the reduction pipeline itself. Capture and transport
/// failures belong to the surrounding program, not to this library.
#[derive(Clone, Copy, Debug, PartialEq, Eq, Structural)]
pub enum PipelineError {
    /// Every pixel of the frame was boring: the quantizer has no
    /// training data and no color can be learned.
    InsufficientSamples,
    /// The dominant-color quantizer rejected the frame.
    Quantization,
}

} // verus!
