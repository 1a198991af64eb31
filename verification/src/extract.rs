//! The three color-sampling strategies: energy-weighted grid average,
//! dominant-color quantization, and vibrancy classification.

use vstd::prelude::*;

use crate::{PipelineError, SCALE};
use crate::color::{
    Frame, Pixel8, Rgb8, FixedRgb, rgb8_milli, spec_rgb8_milli, spec_channel_milli, channel_milli,
};
use crate::fixed::{isqrt64, spec_isqrt, is_sqrt};
use crate::vibrancy::Vibrancy;

verus! {

/// The strategy that reduces a frame to one color sample.
pub enum ColorSamplingAlgorithm {
    /// Grid subsample, averaging squared channel energy; the rate is
    /// the sampled fraction of each axis, in fixed point.
    SquaredAverage { sample_rate: u32 },
    /// Two-color quantization; optionally reorder the pair ascending
    /// by contrast and keep the first.
    MostDominant { quality: u8, sorted: bool },
    /// Downsample, quantize, classify, and take the best category.
    Vibrancy,
}

/// One RGB channel of a pixel, chosen by index.
pub open spec fn spec_pix_channel(p: Pixel8, k: int) -> int {
    if k == 0 {
        p.r as int
    } else if k == 1 {
        p.g as int
    } else {
        p.b as int
    }
}

/// The frame index of grid sample number `t`, columns outermost.
pub open spec fn spec_sample_index(w: int, sx: int, sy: int, sh: int, t: int) -> int {
    (t / sh) * sx + w * ((t % sh) * sy)
}

/// The sum of squared channel values over the first `t` grid samples.
pub open spec fn spec_sq_sum(
    pix: Seq<Pixel8>,
    w: int,
    sx: int,
    sy: int,
    sh: int,
    k: int,
    t: nat,
) -> int
    decreases t,
{
    if t == 0 {
        0
    } else {
        let p = pix[spec_sample_index(w, sx, sy, sh, t - 1)];
        spec_sq_sum(pix, w, sx, sy, sh, k, (t - 1) as nat) + spec_pix_channel(p, k)
            * spec_pix_channel(p, k)
    }
}

/// A sum of squared 8-bit channels over `t` samples stays under
/// `65025 * t`.
pub proof fn lemma_sq_sum_bound(pix: Seq<Pixel8>, w: int, sx: int, sy: int, sh: int, k: int, t: nat)
    ensures
        0 <= spec_sq_sum(pix, w, sx, sy, sh, k, t) <= 65025 * t,
    decreases t,
{
    if t > 0 {
        lemma_sq_sum_bound(pix, w, sx, sy, sh, k, (t - 1) as nat);
        let p = pix[spec_sample_index(w, sx, sy, sh, t - 1)];
        assert(spec_pix_channel(p, k) * spec_pix_channel(p, k) <= 65025) by (nonlinear_arith)
            requires 0 <= spec_pix_channel(p, k) <= 255;
    }
}

/// The number of samples on one axis: the axis length scaled by the
/// rate, rounded, and at least one.
pub open spec fn spec_axis_samples(len: int, rate: u32) -> int {
    let rounded = (len * rate + 500) / (SCALE as int);
    if rounded >= 1 {
        rounded
    } else {
        1
    }
}

/// The energy-weighted average of a grid subsample: squared channels
/// averaged over the samples, rooted, and scaled to fixed point.
pub open spec fn spec_squared_average(frame: Frame, rate: u32) -> FixedRgb {
    let w = frame.width as int;
    let h = frame.height as int;
    let sw = spec_axis_samples(w, rate);
    let sh = spec_axis_samples(h, rate);
    let sx = w / sw;
    let sy = h / sh;
    let total = sw * sh;
    FixedRgb {
        r: spec_channel_milli(
            spec_isqrt(
                (spec_sq_sum(frame.pixels@, w, sx, sy, sh, 0, total as nat) / total) as nat,
            ) as u8,
        ),
        g: spec_channel_milli(
            spec_isqrt(
                (spec_sq_sum(frame.pixels@, w, sx, sy, sh, 1, total as nat) / total) as nat,
            ) as u8,
        ),
        b: spec_channel_milli(
            spec_isqrt(
                (spec_sq_sum(frame.pixels@, w, sx, sy, sh, 2, total as nat) / total) as nat,
            ) as u8,
        ),
    }
}

/// Sample an evenly spaced grid of the frame and average the squared
/// channel energies.
pub fn squared_average(frame: &Frame, sample_rate: u32) -> (r: FixedRgb)
    requires
        frame.wf(),
        frame.width >= 1,
        frame.height >= 1,
        1 <= sample_rate <= SCALE,
        frame.pixels@.len() <= 0xFFFF_FFFF,
    ensures
        r == spec_squared_average(*frame, sample_rate),
        r.wf(),
{
    let w = frame.width;
    let h = frame.height;
    proof {
        assert(w * h <= 0xFFFF_FFFF);
        assert(w <= 0xFFFF_FFFF && h <= 0xFFFF_FFFF) by (nonlinear_arith)
            requires w * h <= 0xFFFF_FFFF, w >= 1usize, h >= 1usize;
        assert((w as u64) * (sample_rate as u64) <= 0xFFFF_FFFF * 1000) by (nonlinear_arith)
            requires w <= 0xFFFF_FFFF, sample_rate <= 1000u32;
        assert((h as u64) * (sample_rate as u64) <= 0xFFFF_FFFF * 1000) by (nonlinear_arith)
            requires h <= 0xFFFF_FFFF, sample_rate <= 1000u32;
    }
    let sww: u64 = ((w as u64) * (sample_rate as u64) + 500) / 1000;
    let shh: u64 = ((h as u64) * (sample_rate as u64) + 500) / 1000;
    proof {
        assert(sww <= w && shh <= h) by (nonlinear_arith)
            requires
                sww == ((w as u64) * (sample_rate as u64) + 500) / 1000,
                shh == ((h as u64) * (sample_rate as u64) + 500) / 1000,
                sample_rate <= 1000u32,
                w >= 1usize,
                h >= 1usize,
        ;
    }
    let sw: usize = if sww >= 1 { sww as usize } else { 1 };
    let sh: usize = if shh >= 1 { shh as usize } else { 1 };
    assert(sw == spec_axis_samples(w as int, sample_rate));
    assert(sh == spec_axis_samples(h as int, sample_rate));
    let sx: usize = w / sw;
    let sy: usize = h / sh;
    proof {
        assert(sx >= 1 && sy >= 1) by (nonlinear_arith)
            requires sx == w / sw, sy == h / sh, 1 <= sw <= w, 1 <= sh <= h;
        assert(sw * sh <= w * h) by (nonlinear_arith)
            requires 1 <= sw <= w, 1 <= sh <= h;
    }
    let total: usize = sw * sh;
    let mut ar: u64 = 0;
    let mut ag: u64 = 0;
    let mut ab: u64 = 0;
    let mut t: usize = 0;
    while t < total
        invariant
            frame.wf(),
            w == frame.width,
            h == frame.height,
            w >= 1,
            h >= 1,
            w * h <= 0xFFFF_FFFF,
            1 <= sw <= w,
            1 <= sh <= h,
            1 <= sx,
            1 <= sy,
            sx == w / sw,
            sy == h / sh,
            total == sw * sh,
            total <= 0xFFFF_FFFF,
            t <= total,
            ar == spec_sq_sum(frame.pixels@, w as int, sx as int, sy as int, sh as int, 0, t as nat),
            ag == spec_sq_sum(frame.pixels@, w as int, sx as int, sy as int, sh as int, 1, t as nat),
            ab == spec_sq_sum(frame.pixels@, w as int, sx as int, sy as int, sh as int, 2, t as nat),
        decreases total - t,
    {
        let x: usize = t / sh;
        let y: usize = t % sh;
        proof {
            assert(x < sw && y < sh) by (nonlinear_arith)
                requires x == t / sh, y == t % sh, t < sw * sh, sh >= 1usize;
            assert(x * sx + sx <= w) by (nonlinear_arith)
                requires x < sw, sx == w / sw, sw >= 1usize;
            assert(y * sy + sy <= h) by (nonlinear_arith)
                requires y < sh, sy == h / sh, sh >= 1usize;
            assert(w * (y * sy) <= w * h - w) by (nonlinear_arith)
                requires y * sy + sy <= h, sy >= 1usize, w >= 1usize;
            assert(x * sx + w * (y * sy) < w * h) by (nonlinear_arith)
                requires x * sx + sx <= w, w * (y * sy) <= w * h - w, sx >= 1usize;
            lemma_sq_sum_bound(frame.pixels@, w as int, sx as int, sy as int, sh as int, 0, t as nat);
            lemma_sq_sum_bound(frame.pixels@, w as int, sx as int, sy as int, sh as int, 1, t as nat);
            lemma_sq_sum_bound(frame.pixels@, w as int, sx as int, sy as int, sh as int, 2, t as nat);
            assert(65025 * (t as nat) <= 65025 * 0x1_0000_0000) by (nonlinear_arith)
                requires t <= 0x1_0000_0000;
        }
        let i: usize = x * sx + w * (y * sy);
        let p = frame.pixels[i];
        proof {
            assert(i == spec_sample_index(w as int, sx as int, sy as int, sh as int, t as int));
        }
        proof {
            assert((p.r as u64) * (p.r as u64) <= 65025 && (p.g as u64) * (p.g as u64) <= 65025
                && (p.b as u64) * (p.b as u64) <= 65025) by (nonlinear_arith)
                requires p.r <= 255u8, p.g <= 255u8, p.b <= 255u8;
        }
        ar = ar + (p.r as u64) * (p.r as u64);
        ag = ag + (p.g as u64) * (p.g as u64);
        ab = ab + (p.b as u64) * (p.b as u64);
        t = t + 1;
    }
    proof {
        assert(total >= 1) by (nonlinear_arith)
            requires total == sw * sh, sw >= 1usize, sh >= 1usize;
        lemma_sq_sum_bound(
            frame.pixels@, w as int, sx as int, sy as int, sh as int, 0, total as nat,
        );
        lemma_sq_sum_bound(
            frame.pixels@, w as int, sx as int, sy as int, sh as int, 1, total as nat,
        );
        lemma_sq_sum_bound(
            frame.pixels@, w as int, sx as int, sy as int, sh as int, 2, total as nat,
        );
    }
    let mr = channel_root(ar, total);
    let mg = channel_root(ag, total);
    let mb = channel_root(ab, total);
    FixedRgb { r: mr, g: mg, b: mb }
}

/// Average a squared-channel sum over the sample count, take the root,
/// and scale the 8-bit result to fixed point.
fn channel_root(acc: u64, total: usize) -> (r: u32)
    requires
        total >= 1,
        acc <= 65025 * (total as int),
        total <= 0xFFFF_FFFF,
    ensures
        r == spec_channel_milli(spec_isqrt((acc as int / (total as int)) as nat) as u8),
        r <= SCALE,
{
    let avg: u64 = acc / (total as u64);
    assert(avg <= 65025) by (nonlinear_arith)
        requires acc <= 65025 * (total as int), avg == acc / (total as u64), total >= 1usize;
    let root = isqrt64(avg);
    proof {
        assert(is_sqrt(root as nat, avg as nat));
        if root > 255 {
            assert(256 * 256 <= root * root) by (nonlinear_arith)
                requires root >= 256u64;
        }
    }
    channel_milli(root as u8)
}

/// The contrast of a color: the product of channel sum and channel
/// spread, over the largest channel.
pub open spec fn spec_contrast(c: Rgb8) -> int {
    let mx = if c.r >= c.g { if c.r >= c.b { c.r } else { c.b } } else {
        if c.g >= c.b { c.g } else { c.b }
    };
    let mn = if c.r <= c.g { if c.r <= c.b { c.r } else { c.b } } else {
        if c.g <= c.b { c.g } else { c.b }
    };
    ((mx + mn) as int * (mx - mn) as int) / (if mx >= 1 { mx as int } else { 1 })
}

/// Compute a color's contrast.
fn contrast(c: &Rgb8) -> (r: u32)
    ensures
        r == spec_contrast(*c),
{
    let mx: u8 = if c.r >= c.g { if c.r >= c.b { c.r } else { c.b } } else {
        if c.g >= c.b { c.g } else { c.b }
    };
    let mn: u8 = if c.r <= c.g { if c.r <= c.b { c.r } else { c.b } } else {
        if c.g <= c.b { c.g } else { c.b }
    };
    assert(((mx as u32) + (mn as u32)) * ((mx as u32) - (mn as u32)) <= 510 * 255)
        by (nonlinear_arith)
        requires mn <= mx, mx <= 255u8;
    let d: u32 = ((mx as u32) + (mn as u32)) * ((mx as u32) - (mn as u32));
    d / (if mx >= 1 { mx as u32 } else { 1 })
}

/// The first index of least contrast in a palette.
fn min_contrast_index(pal: &Vec<Rgb8>) -> (r: usize)
    requires
        pal@.len() >= 1,
    ensures
        r < pal@.len(),
        forall|j: int| 0 <= j < pal@.len() ==> spec_contrast(pal@[j]) >= spec_contrast(pal@[r as int]),
        forall|j: int| 0 <= j < r ==> spec_contrast(pal@[j]) > spec_contrast(pal@[r as int]),
{
    let mut best: usize = 0;
    let mut best_c: u32 = contrast(&pal[0]);
    let mut i: usize = 1;
    while i < pal.len()
        invariant
            pal@.len() >= 1,
            best < i <= pal@.len(),
            best_c == spec_contrast(pal@[best as int]),
            forall|j: int| 0 <= j < i ==> spec_contrast(pal@[j]) >= best_c,
            forall|j: int| 0 <= j < best ==> spec_contrast(pal@[j]) > best_c,
        decreases pal@.len() - i,
    {
        let c = contrast(&pal[i]);
        if c < best_c {
            best = i;
            best_c = c;
        }
        i = i + 1;
    }
    best
}

/// The frame's pixels flattened to RGB bytes, row-major.
pub open spec fn spec_flat_rgb(pix: Seq<Pixel8>) -> Seq<u8>
    decreases pix.len(),
{
    if pix.len() == 0 {
        Seq::empty()
    } else {
        let p = pix.last();
        spec_flat_rgb(pix.drop_last()) + seq![p.r, p.g, p.b]
    }
}

/// Flattening triples the length.
pub proof fn lemma_flat_rgb_len(pix: Seq<Pixel8>)
    ensures
        spec_flat_rgb(pix).len() == 3 * pix.len(),
    decreases pix.len(),
{
    if pix.len() > 0 {
        lemma_flat_rgb_len(pix.drop_last());
    }
}

/// Flatten a frame's pixels to RGB bytes.
fn flat_rgb(frame: &Frame) -> (r: Vec<u8>)
    requires
        frame.wf(),
        frame.pixels@.len() <= 0xFFFF_FFFF,
    ensures
        r@ == spec_flat_rgb(frame.pixels@),
        r@.len() == 3 * frame.pixels@.len(),
{
    let n = frame.pixels.len();
    let mut out: Vec<u8> = Vec::new();
    let mut i: usize = 0;
    while i < n
        invariant
            frame.wf(),
            n == frame.pixels@.len(),
            n <= 0xFFFF_FFFF,
            i <= n,
            out@ == spec_flat_rgb(frame.pixels@.take(i as int)),
            out@.len() == 3 * i,
        decreases n - i,
    {
        let p = frame.pixels[i];
        out.push(p.r);
        out.push(p.g);
        out.push(p.b);
        proof {
            assert(frame.pixels@.take(i + 1).drop_last() =~= frame.pixels@.take(i as int));
            assert(frame.pixels@.take(i + 1).last() == frame.pixels@[i as int]);
            assert(out@ =~= spec_flat_rgb(frame.pixels@.take(i as int)) + seq![p.r, p.g, p.b]);
        }
        i = i + 1;
    }
    proof {
        assert(frame.pixels@.take(n as int) =~= frame.pixels@);
    }
    out
}

#[verifier::external_type_specification]
#[verifier::external_body]
pub struct ExThiefError(color_thief::Error);

/// The palette the dominant-color quantizer derives from flat RGB
/// bytes, when it succeeds: a function of its inputs alone.
pub uninterp spec fn thief_palette(pixels: Seq<u8>, quality: u8, max_colors: u8) -> Seq<Rgb8>;

/// Whether the dominant-color quantizer succeeds on these inputs: the
/// call is pure computation, so this too is a function of them alone.
pub uninterp spec fn thief_succeeds(pixels: Seq<u8>, quality: u8, max_colors: u8) -> bool;

/// Relies on color_thief::get_palette: median-cut quantization over
/// flat RGB bytes; it asserts its quality and color-count ranges, and
/// on success returns between one and `max_colors` colors. The crate
/// accumulates bucket counts and channel sums in 32-bit integers, so
/// only buffers those counters can hold are admitted.
#[verifier::external_body]
fn thief_get_palette(pixels: &Vec<u8>, quality: u8, max_colors: u8) -> (r: Result<
    Vec<Rgb8>,
    color_thief::Error,
>)
    requires
        1 <= quality <= 10,
        2 <= max_colors,
        pixels@.len() <= 60000000,
    ensures
        r is Ok <==> thief_succeeds(pixels@, quality, max_colors),
        r matches Ok(v) ==> v@ == thief_palette(pixels@, quality, max_colors) && 1 <= v@.len()
            <= max_colors,
{
    color_thief::get_palette(pixels.as_slice(), color_thief::ColorFormat::Rgb, quality, max_colors)
        .map(|cs| cs.iter().map(|c| Rgb8 { r: c.r, g: c.g, b: c.b }).collect())
}

/// What a successful dominant-color reduction returns: the scaled
/// first entry of the derived palette, or, when sorting is asked for,
/// the scaled earliest entry of least contrast.
pub open spec fn spec_dominant_ok(frame: Frame, quality: u8, sorted: bool, c: FixedRgb) -> bool {
    let pal = thief_palette(spec_flat_rgb(frame.pixels@), quality, 2);
    &&& c.wf()
    &&& pal.len() >= 1
    &&& if sorted {
        exists|i: int|
            {
                &&& 0 <= i < pal.len()
                &&& c == spec_rgb8_milli(pal[i])
                &&& (forall|j: int|
                    0 <= j < pal.len() ==> spec_contrast(pal[j]) >= spec_contrast(pal[i]))
                &&& (forall|j: int|
                    0 <= j < i ==> spec_contrast(pal[j]) > spec_contrast(pal[i]))
            }
    } else {
        c == spec_rgb8_milli(pal[0])
    }
}

/// Reduce a frame to its dominant color by two-color quantization;
/// with `sorted`, the pair is ordered ascending by contrast first, so
/// the least contrasty of the two is kept.
pub fn most_dominant(frame: &Frame, quality: u8, sorted: bool) -> (r: Result<
    FixedRgb,
    PipelineError,
>)
    requires
        frame.wf(),
        1 <= quality <= 10,
        frame.pixels@.len() <= 20000000,
    ensures
        r matches Err(e) ==> e == PipelineError::Quantization,
        r is Ok <==> thief_succeeds(spec_flat_rgb(frame.pixels@), quality, 2),
        r matches Ok(c) ==> spec_dominant_ok(*frame, quality, sorted, c),
{
    let flat = flat_rgb(frame);
    let pal = match thief_get_palette(&flat, quality, 2) {
        Ok(p) => p,
        Err(_) => {
            return Err(PipelineError::Quantization);
        },
    };
    if sorted {
        let i = min_contrast_index(&pal);
        Ok(rgb8_milli(&pal[i]))
    } else {
        Ok(rgb8_milli(&pal[0]))
    }
}

/// The vibrancy fallback chain: the first assigned category in the
/// order primary, light, light muted, muted, dark muted, dark; black
/// when every category is empty.
pub open spec fn spec_pick_vibrancy(v: Vibrancy) -> Rgb8 {
    if v.primary is Some {
        v.primary->0
    } else if v.light is Some {
        v.light->0
    } else if v.light_muted is Some {
        v.light_muted->0
    } else if v.muted is Some {
        v.muted->0
    } else if v.dark_muted is Some {
        v.dark_muted->0
    } else if v.dark is Some {
        v.dark->0
    } else {
        Rgb8 { r: 0, g: 0, b: 0 }
    }
}

/// Pick the first assigned category, or black when all are empty.
pub fn pick_vibrancy_color(v: &Vibrancy) -> (r: Rgb8)
    ensures
        r == spec_pick_vibrancy(*v),
{
    if let Some(c) = v.primary {
        c
    } else if let Some(c) = v.light {
        c
    } else if let Some(c) = v.light_muted {
        c
    } else if let Some(c) = v.muted {
        c
    } else if let Some(c) = v.dark_muted {
        c
    } else if let Some(c) = v.dark {
        c
    } else {
        Rgb8 { r: 0, g: 0, b: 0 }
    }
}

/// What nearest-neighbor resampling of flat RGB bytes yields: the
/// resampled bytes and the fitted output axes, a function of the
/// inputs alone.
pub uninterp spec fn spec_resized(px: Seq<u8>, w: int, h: int, tw: int, th: int) -> (
    Seq<u8>,
    int,
    int,
);

/// Relies on image::DynamicImage::resize with nearest-neighbor
/// filtering: fits the image within the target box, keeping the aspect
/// ratio, with each output axis at least one pixel.
#[verifier::external_body]
fn resize_nearest(rgb: &Vec<u8>, w: u32, h: u32, tw: u32, th: u32) -> (r: (Vec<u8>, u32, u32))
    requires
        rgb@.len() == 3 * w * h,
        w >= 1,
        h >= 1,
        1 <= tw <= w,
        1 <= th <= h,
    ensures
        (r.0@, r.1 as int, r.2 as int) == spec_resized(rgb@, w as int, h as int, tw as int, th as int),
        r.0@.len() == 3 * (r.1 as int) * (r.2 as int),
        1 <= r.1 <= tw,
        1 <= r.2 <= th,
{
    let buf = image::ImageBuffer::from_raw(w, h, rgb.clone()).unwrap();
    let img = image::DynamicImage::ImageRgb8(buf);
    let out = img.resize(tw, th, image::imageops::FilterType::Nearest).to_rgb8();
    let (ow, oh) = (out.width(), out.height());
    (out.into_raw(), ow, oh)
}

/// The downsample target for one axis: one twentieth of its length,
/// and at least one pixel.
pub open spec fn spec_target_axis(len: int) -> int {
    if len * 5 / 100 >= 1 {
        len * 5 / 100
    } else {
        1
    }
}

/// Whether every pixel of the downsampled frame is boring: the
/// resampled bytes, taken as opaque RGB triples, are all near-white.
pub open spec fn spec_downsample_all_boring(frame: Frame) -> bool {
    let rs = spec_resized(
        spec_flat_rgb(frame.pixels@),
        frame.width as int,
        frame.height as int,
        spec_target_axis(frame.width as int),
        spec_target_axis(frame.height as int),
    );
    forall|j: int|
        0 <= j < rs.1 * rs.2 ==> crate::color::spec_is_boring_pixel(
            (Pixel8 {
                r: #[trigger] rs.0[3 * j],
                g: rs.0[3 * j + 1],
                b: rs.0[3 * j + 2],
                a: 255,
            }),
        )
}

/// The resampled bytes read back as opaque pixels, three bytes each.
pub open spec fn spec_small_pixels(bytes: Seq<u8>, n: int) -> Seq<Pixel8> {
    Seq::new(
        n as nat,
        |j: int|
            Pixel8 { r: bytes[3 * j], g: bytes[3 * j + 1], b: bytes[3 * j + 2], a: 255 },
    )
}

/// What a successful vibrancy reduction returns: the scaled fallback
/// pick of some classification of the downsampled frame's palette.
pub open spec fn spec_vibrancy_ok(frame: Frame, c: FixedRgb) -> bool {
    let rs = spec_resized(
        spec_flat_rgb(frame.pixels@),
        frame.width as int,
        frame.height as int,
        spec_target_axis(frame.width as int),
        spec_target_axis(frame.height as int),
    );
    let spix = spec_small_pixels(rs.0, rs.1 * rs.2);
    exists|v: Vibrancy|
        #[trigger] crate::vibrancy::spec_classified(
            v,
            crate::quant::spec_palette_colors(spix, 256, 10),
            crate::quant::spec_palette_counts(spix, 256, 10),
        ) && c == spec_rgb8_milli(spec_pick_vibrancy(v))
}

/// Reduce a frame by the vibrancy strategy: downsample to one
/// twentieth of each axis, quantize, classify, and take the first
/// assigned category, black when none is. Fails exactly when the
/// downsampled frame has only boring pixels.
pub fn vibrancy_color(frame: &Frame) -> (r: Result<FixedRgb, PipelineError>)
    requires
        frame.wf(),
        frame.width >= 1,
        frame.height >= 1,
        frame.width <= 0xFFFF,
        frame.height <= 0xFFFF,
    ensures
        r matches Err(e) ==> e == PipelineError::InsufficientSamples,
        r is Err <==> spec_downsample_all_boring(*frame),
        r matches Ok(c) ==> c.wf() && spec_vibrancy_ok(*frame, c),
{
    proof {
        assert(frame.pixels@.len() <= 0xFFFF_FFFF) by (nonlinear_arith)
            requires
                frame.pixels@.len() == frame.width * frame.height,
                frame.width <= 0xFFFF,
                frame.height <= 0xFFFF,
        ;
    }
    let w = frame.width;
    let h = frame.height;
    let tww: usize = w * 5 / 100;
    let tw: usize = if tww >= 1 { tww } else { 1 };
    let thh: usize = h * 5 / 100;
    let th: usize = if thh >= 1 { thh } else { 1 };
    assert(tw == spec_target_axis(w as int));
    assert(th == spec_target_axis(h as int));
    let flat = flat_rgb(frame);
    proof {
        assert(flat@.len() == 3 * (w as int) * (h as int)) by (nonlinear_arith)
            requires
                flat@.len() == 3 * (frame.width * frame.height),
                w == frame.width,
                h == frame.height,
        ;
    }
    let (small, ow, oh) = resize_nearest(&flat, w as u32, h as u32, tw as u32, th as u32);
    let mut pixels: Vec<Pixel8> = Vec::new();
    proof {
        assert((ow as int) * (oh as int) <= 0xFFFF * 0xFFFF) by (nonlinear_arith)
            requires 1 <= ow <= 0xFFFFu32, 1 <= oh <= 0xFFFFu32;
        assert(small@.len() == 3 * ((ow as int) * (oh as int))) by (nonlinear_arith)
            requires small@.len() == 3 * (ow as int) * (oh as int);
    }
    let count: usize = (ow as usize) * (oh as usize);
    let small_len: usize = small.len();
    let mut i: usize = 0;
    while i < count
        invariant
            small_len == small@.len(),
            small@.len() == 3 * count,
            count == (ow as int) * (oh as int),
            count <= 0xFFFF_FFFF,
            i <= count,
            pixels@.len() == i,
            forall|j: int|
                0 <= j < i ==> pixels@[j] == (Pixel8 {
                    r: small@[3 * j],
                    g: small@[3 * j + 1],
                    b: small@[3 * j + 2],
                    a: 255,
                }),
        decreases count - i,
    {
        assert(3 * i + 2 < small_len);
        pixels.push(Pixel8 { r: small[3 * i], g: small[3 * i + 1], b: small[3 * i + 2], a: 255 });
        i = i + 1;
    }
    let small_frame = Frame { width: ow as usize, height: oh as usize, pixels };
    proof {
        assert(count <= 0xFFFF_FFFF) by (nonlinear_arith)
            requires count == (ow as int) * (oh as int), ow <= 0xFFFFu32, oh <= 0xFFFFu32;
    }
    proof {
        let rs = spec_resized(
            spec_flat_rgb(frame.pixels@),
            frame.width as int,
            frame.height as int,
            spec_target_axis(frame.width as int),
            spec_target_axis(frame.height as int),
        );
        assert(rs.0 == small@ && rs.1 == ow as int && rs.2 == oh as int);
        assert forall|j: int| 0 <= j < rs.1 * rs.2 implies small_frame.pixels@[j] == (Pixel8 {
            r: rs.0[3 * j],
            g: rs.0[3 * j + 1],
            b: rs.0[3 * j + 2],
            a: 255,
        }) by {
            assert(small_frame.pixels@[j] == (Pixel8 {
                r: small@[3 * j],
                g: small@[3 * j + 1],
                b: small@[3 * j + 2],
                a: 255,
            }));
        }
    }
    let v = match Vibrancy::new(&small_frame) {
        Ok(v) => v,
        Err(e) => {
            proof {
                let rs = spec_resized(
                    spec_flat_rgb(frame.pixels@),
                    frame.width as int,
                    frame.height as int,
                    spec_target_axis(frame.width as int),
                    spec_target_axis(frame.height as int),
                );
                assert forall|j: int| 0 <= j < rs.1 * rs.2 implies crate::color::spec_is_boring_pixel(
                    (Pixel8 {
                        r: #[trigger] rs.0[3 * j],
                        g: rs.0[3 * j + 1],
                        b: rs.0[3 * j + 2],
                        a: 255,
                    }),
                ) by {
                    assert(crate::color::spec_is_boring_pixel(small_frame.pixels@[j]));
                    assert(small_frame.pixels@[j] == (Pixel8 {
                        r: small@[3 * j],
                        g: small@[3 * j + 1],
                        b: small@[3 * j + 2],
                        a: 255,
                    }));
                }
            }
            return Err(e);
        },
    };
    let out = rgb8_milli(&pick_vibrancy_color(&v));
    proof {
        let rs = spec_resized(
            spec_flat_rgb(frame.pixels@),
            frame.width as int,
            frame.height as int,
            spec_target_axis(frame.width as int),
            spec_target_axis(frame.height as int),
        );
        let spix = spec_small_pixels(rs.0, rs.1 * rs.2);
        assert(small_frame.pixels@ =~= spix);
        assert(crate::vibrancy::spec_classified(
            v,
            crate::quant::spec_palette_colors(spix, 256, 10),
            crate::quant::spec_palette_counts(spix, 256, 10),
        ));
    }
    Ok(out)
}

/// Reduce a frame to a single fixed-point color sample with the chosen
/// strategy.
pub fn extract_color(frame: &Frame, alg: &ColorSamplingAlgorithm) -> (r: Result<
    FixedRgb,
    PipelineError,
>)
    requires
        frame.wf(),
        frame.width >= 1,
        frame.height >= 1,
        frame.width <= 0xFFFF,
        frame.height <= 0xFFFF,
        alg matches ColorSamplingAlgorithm::SquaredAverage { sample_rate } ==> 1 <= *sample_rate
            <= SCALE,
        alg matches ColorSamplingAlgorithm::MostDominant { quality, .. } ==> 1 <= *quality <= 10
            && frame.pixels@.len() <= 20000000,
    ensures
        r matches Ok(c) ==> c.wf(),
        alg matches ColorSamplingAlgorithm::SquaredAverage { sample_rate } ==> r matches Ok(c)
            && c == spec_squared_average(*frame, *sample_rate),
        alg matches ColorSamplingAlgorithm::MostDominant { quality, sorted } ==> (r matches Err(
            e,
        ) ==> e == PipelineError::Quantization) && (r is Ok <==> thief_succeeds(
            spec_flat_rgb(frame.pixels@),
            *quality,
            2,
        )) && (r matches Ok(c) ==> spec_dominant_ok(*frame, *quality, *sorted, c)),
        alg matches ColorSamplingAlgorithm::Vibrancy ==> (r matches Err(e) ==> e
            == PipelineError::InsufficientSamples) && (r is Err <==> spec_downsample_all_boring(
            *frame,
        )) && (r matches Ok(c) ==> spec_vibrancy_ok(*frame, c)),
{
    proof {
        assert(frame.pixels@.len() <= 0xFFFF_FFFF) by (nonlinear_arith)
            requires
                frame.pixels@.len() == frame.width * frame.height,
                frame.width <= 0xFFFF,
                frame.height <= 0xFFFF,
        ;
    }
    match alg {
        ColorSamplingAlgorithm::SquaredAverage { sample_rate } => {
            Ok(squared_average(frame, *sample_rate))
        },
        ColorSamplingAlgorithm::MostDominant { quality, sorted } => {
            most_dominant(frame, *quality, *sorted)
        },
        ColorSamplingAlgorithm::Vibrancy => vibrancy_color(frame),
    }
}

} // verus!
