use ambilight::PipelineError;
use ambilight::color::{FixedRgb, Frame, Pixel8, Rgb8, is_boring_pixel};
use ambilight::correct::{ColorCorrector, CorrectionConfig, encode_command};
use ambilight::extract::{
    ColorSamplingAlgorithm, extract_color, most_dominant, pick_vibrancy_color, squared_average,
};
use ambilight::fixed::{gamma_channel, mix_fixed};
use ambilight::hsl::{Hsl, hsl_of, rgb_of_hsl, correct_hsl};
use ambilight::quant::Palette;
use ambilight::vibrancy::{Mtm, Vibrancy, generate_variation_colors};

fn uniform_frame(w: usize, h: usize, p: Pixel8) -> Frame {
    Frame { width: w, height: h, pixels: vec![p; w * h] }
}

fn red_pixel() -> Pixel8 {
    Pixel8 { r: 255, g: 0, b: 0, a: 255 }
}

#[test]
fn boring_pixel_rules() {
    // near-transparent is boring
    assert!(is_boring_pixel(&Pixel8 { r: 10, g: 10, b: 10, a: 124 }));
    // opaque and colorful is interesting
    assert!(!is_boring_pixel(&Pixel8 { r: 10, g: 10, b: 10, a: 125 }));
    // channels at exactly 250 are still interesting
    assert!(!is_boring_pixel(&Pixel8 { r: 250, g: 250, b: 250, a: 255 }));
    // all channels above 250 is boring white
    assert!(is_boring_pixel(&Pixel8 { r: 251, g: 251, b: 251, a: 255 }));
}

#[test]
fn palette_size_and_distinct_entries() {
    // P-style check: palette never exceeds color_count, entries distinct
    let mut pixels = Vec::new();
    for i in 0..64usize {
        let v = (i * 4) as u8;
        pixels.push(Pixel8 { r: v, g: 255 - v, b: 128, a: 255 });
    }
    let frame = Frame { width: 8, height: 8, pixels };
    let p = Palette::new(&frame, 8, 10).unwrap();
    assert!(p.colors.len() <= 8);
    for i in 0..p.colors.len() {
        for j in (i + 1)..p.colors.len() {
            assert_ne!(p.colors[i], p.colors[j]);
        }
    }
}

#[test]
fn histogram_counts_every_pixel() {
    // half the pixels are boring white, yet all are counted
    let mut pixels = Vec::new();
    for i in 0..100usize {
        if i % 2 == 0 {
            pixels.push(Pixel8 { r: 255, g: 255, b: 255, a: 255 });
        } else {
            pixels.push(Pixel8 { r: 30, g: 60, b: 90, a: 255 });
        }
    }
    let frame = Frame { width: 10, height: 10, pixels };
    let p = Palette::new(&frame, 8, 5).unwrap();
    let total: usize = p.counts.iter().sum();
    assert_eq!(total, 100);
}

#[test]
fn all_white_frame_has_no_training_samples() {
    // Scenario: a fully opaque white frame raises the sampling error
    let frame = uniform_frame(8, 8, Pixel8 { r: 255, g: 255, b: 255, a: 255 });
    let r = Palette::new(&frame, 8, 10);
    assert_eq!(r.unwrap_err(), PipelineError::InsufficientSamples);
    let v = Vibrancy::new(&frame);
    assert_eq!(v.unwrap_err(), PipelineError::InsufficientSamples);
}

#[test]
fn pure_red_most_dominant() {
    // Scenario: pure red everywhere gives a raw sample of red. The
    // median-cut quantizer reports bucket centers, so each 8-bit
    // channel can sit up to half a 5-bit bucket away from (255, 0, 0).
    let frame = uniform_frame(16, 16, red_pixel());
    let c = most_dominant(&frame, 2, false).unwrap();
    assert!(c.r >= 960 && c.g <= 40 && c.b <= 40, "not red: {c:?}");
}

#[test]
fn pure_red_most_dominant_sorted() {
    let frame = uniform_frame(16, 16, red_pixel());
    let c = most_dominant(&frame, 2, true).unwrap();
    assert!(c.r >= 960 && c.g <= 40 && c.b <= 40, "not red: {c:?}");
}

#[test]
fn vibrancy_fallback_is_black() {
    // Scenario: no category assigned, the extractor falls back to black
    let v = Vibrancy::default();
    assert_eq!(pick_vibrancy_color(&v), Rgb8 { r: 0, g: 0, b: 0 });
}

#[test]
fn vibrancy_fallback_priority_order() {
    let c1 = Rgb8 { r: 10, g: 20, b: 30 };
    let c2 = Rgb8 { r: 40, g: 50, b: 60 };
    let mut v = Vibrancy::default();
    v.dark = Some(c2);
    assert_eq!(pick_vibrancy_color(&v), c2);
    v.muted = Some(c1);
    assert_eq!(pick_vibrancy_color(&v), c1);
    v.primary = Some(c2);
    assert_eq!(pick_vibrancy_color(&v), c2);
}

#[test]
fn vibrancy_categories_are_distinct() {
    // a frame of several strong colors never assigns one swatch twice
    let mut pixels = Vec::new();
    for i in 0..400usize {
        let p = match i % 4 {
            0 => Pixel8 { r: 200, g: 0, b: 0, a: 255 },
            1 => Pixel8 { r: 0, g: 180, b: 0, a: 255 },
            2 => Pixel8 { r: 0, g: 0, b: 160, a: 255 },
            _ => Pixel8 { r: 120, g: 120, b: 120, a: 255 },
        };
        pixels.push(p);
    }
    let frame = Frame { width: 20, height: 20, pixels };
    let v = Vibrancy::new(&frame).unwrap();
    let cats = [v.primary, v.dark, v.light, v.muted, v.dark_muted, v.light_muted];
    for i in 0..cats.len() {
        for j in (i + 1)..cats.len() {
            if cats[i].is_some() && cats[j].is_some() {
                assert_ne!(cats[i], cats[j]);
            }
        }
    }
}

#[test]
fn higher_population_wins_at_equal_color_distance() {
    // two hues with the same saturation and lightness: the one backed
    // by more pixels takes the category
    let red = Rgb8 { r: 200, g: 0, b: 0 };
    let green = Rgb8 { r: 0, g: 200, b: 0 };
    let p = Palette { colors: vec![red, green], counts: vec![1, 5] };
    let v = Vibrancy::default();
    let pick = v.find_color_variation(
        &p,
        &Mtm { min: 300, target: 500, max: 700 },
        &Mtm { min: 350, target: 1000, max: 1000 },
    );
    assert_eq!(pick, Some(green));
}

#[test]
fn earliest_swatch_wins_ties() {
    let red = Rgb8 { r: 200, g: 0, b: 0 };
    let green = Rgb8 { r: 0, g: 200, b: 0 };
    let p = Palette { colors: vec![red, green], counts: vec![3, 3] };
    let v = Vibrancy::default();
    let pick = v.find_color_variation(
        &p,
        &Mtm { min: 300, target: 500, max: 700 },
        &Mtm { min: 350, target: 1000, max: 1000 },
    );
    assert_eq!(pick, Some(red));
}

#[test]
fn zero_population_swatch_is_skipped() {
    let red = Rgb8 { r: 200, g: 0, b: 0 };
    let p = Palette { colors: vec![red], counts: vec![0] };
    let v = Vibrancy::default();
    let pick = v.find_color_variation(
        &p,
        &Mtm { min: 300, target: 500, max: 700 },
        &Mtm { min: 350, target: 1000, max: 1000 },
    );
    assert_eq!(pick, None);
}

#[test]
fn generate_respects_exclusion() {
    // one eligible vibrant color: primary takes it, the other vibrant
    // categories cannot reuse it
    let red = Rgb8 { r: 200, g: 0, b: 0 };
    let p = Palette { colors: vec![red], counts: vec![7] };
    let v = generate_variation_colors(&p);
    assert_eq!(v.primary, Some(red));
    assert_eq!(v.dark, None);
    assert_eq!(v.muted, None);
}

#[test]
fn squared_average_uniform_frame() {
    let frame = uniform_frame(10, 10, Pixel8 { r: 10, g: 20, b: 30, a: 255 });
    let c = squared_average(&frame, 1000);
    // isqrt of the squared channel is the channel itself, scaled
    assert_eq!(c, FixedRgb { r: 39, g: 78, b: 117 });
}

#[test]
fn extract_dispatches_squared_average() {
    let frame = uniform_frame(10, 10, Pixel8 { r: 10, g: 20, b: 30, a: 255 });
    let alg = ColorSamplingAlgorithm::SquaredAverage { sample_rate: 500 };
    let c = extract_color(&frame, &alg).unwrap();
    assert_eq!(c, FixedRgb { r: 39, g: 78, b: 117 });
}

#[test]
fn extract_vibrancy_on_red_frame() {
    let frame = uniform_frame(40, 40, red_pixel());
    let c = extract_color(&frame, &ColorSamplingAlgorithm::Vibrancy).unwrap();
    assert!(c.r <= 1000 && c.g <= 1000 && c.b <= 1000);
}

#[test]
fn gamma_identity_and_square_root() {
    // gamma of one leaves the channel alone
    assert_eq!(gamma_channel(777, 3, 3), 777);
    // gamma two is the square root in fixed point
    assert_eq!(gamma_channel(250, 2, 1), 500);
    assert_eq!(gamma_channel(0, 2, 1), 0);
    assert_eq!(gamma_channel(1000, 2, 1), 1000);
    // the display gamma 2.2 as eleven fifths: half comes out as the
    // floor of 1000 * 0.5^(5/11)
    assert_eq!(gamma_channel(1000, 11, 5), 1000);
    assert_eq!(gamma_channel(0, 11, 5), 0);
    assert_eq!(gamma_channel(500, 11, 5), 729);
}

#[test]
fn mix_endpoints_and_midpoint() {
    assert_eq!(mix_fixed(300, 500, 0), 300);
    assert_eq!(mix_fixed(300, 500, 1000), 500);
    // quadratic mean of 0 and 1 at half weight
    assert_eq!(mix_fixed(0, 1000, 500), 707);
}

#[test]
fn hsl_round_trip_red_exact() {
    let c = FixedRgb { r: 1000, g: 0, b: 0 };
    let h = hsl_of(&c);
    assert_eq!(h, Hsl { h: 0, s: 1000, l: 500 });
    assert_eq!(rgb_of_hsl(&h), c);
}

#[test]
fn hsl_round_trip_gray_exact() {
    let c = FixedRgb { r: 500, g: 500, b: 500 };
    let h = hsl_of(&c);
    assert_eq!(h, Hsl { h: 0, s: 0, l: 500 });
    assert_eq!(rgb_of_hsl(&h), c);
    assert_eq!(correct_hsl(&c, 0, 0), c);
}

#[test]
fn hsl_round_trip_close_everywhere() {
    // with both corrections at zero, the remap is the plain round
    // trip; fixed-point truncation keeps it within a few steps
    let samples = [
        FixedRgb { r: 120, g: 540, b: 980 },
        FixedRgb { r: 1000, g: 999, b: 0 },
        FixedRgb { r: 333, g: 333, b: 334 },
        FixedRgb { r: 0, g: 0, b: 1 },
        FixedRgb { r: 750, g: 250, b: 500 },
    ];
    for c in samples {
        let back = correct_hsl(&c, 0, 0);
        let dr = (c.r as f64 - back.r as f64).abs();
        let dg = (c.g as f64 - back.g as f64).abs();
        let db = (c.b as f64 - back.b as f64).abs();
        assert!(dr <= 5.0 && dg <= 5.0 && db <= 5.0, "{c:?} came back as {back:?}");
    }
}

#[test]
fn fade_zero_has_no_memory() {
    let cfg = CorrectionConfig {
        gamma_num: 1,
        gamma_den: 1,
        fade_weight: 0,
        light_correction: 0,
        saturation_correction: 0,
    };
    let mut a = ColorCorrector::new();
    let mut b = ColorCorrector::new();
    // feed a different first frame to each corrector
    a.step(&FixedRgb { r: 900, g: 100, b: 200 }, &cfg);
    b.step(&FixedRgb { r: 0, g: 0, b: 0 }, &cfg);
    // with no fade the second frame's output matches regardless
    let target = FixedRgb { r: 120, g: 540, b: 980 };
    let oa = a.step(&target, &cfg);
    let ob = b.step(&target, &cfg);
    assert_eq!(oa, ob);
    assert_eq!(a.previous, b.previous);
}

#[test]
fn fade_full_freezes_the_running_color() {
    let cfg = CorrectionConfig {
        gamma_num: 1,
        gamma_den: 1,
        fade_weight: 1000,
        light_correction: 0,
        saturation_correction: 0,
    };
    let mut c = ColorCorrector::new();
    for _ in 0..5 {
        let out = c.step(&FixedRgb { r: 1000, g: 1000, b: 1000 }, &cfg);
        assert_eq!(out, Rgb8 { r: 0, g: 0, b: 0 });
        assert_eq!(c.previous, FixedRgb { r: 0, g: 0, b: 0 });
    }
}

#[test]
fn corrector_blends_toward_the_sample() {
    let cfg = CorrectionConfig {
        gamma_num: 1,
        gamma_den: 1,
        fade_weight: 500,
        light_correction: 0,
        saturation_correction: 0,
    };
    let mut c = ColorCorrector::new();
    c.step(&FixedRgb { r: 1000, g: 0, b: 0 }, &cfg);
    // half the corrected red sample: previous was black
    assert_eq!(c.previous, FixedRgb { r: 500, g: 0, b: 0 });
}

#[test]
fn frequency_and_sorting() {
    let red = Rgb8 { r: 200, g: 0, b: 0 };
    let green = Rgb8 { r: 0, g: 200, b: 0 };
    let blue = Rgb8 { r: 0, g: 0, b: 200 };
    let p = Palette { colors: vec![red, green, blue], counts: vec![5, 1, 3] };
    assert_eq!(p.frequency_of(&red), 5);
    assert_eq!(p.frequency_of(&green), 1);
    assert_eq!(p.frequency_of(&Rgb8 { r: 9, g: 9, b: 9 }), 0);
    let sorted = p.sort_by_frequency();
    assert_eq!(sorted.colors, vec![green, blue, red]);
    assert_eq!(sorted.counts, vec![5, 1, 3]);
}

#[test]
fn command_encoding() {
    let cmd = encode_command(&Rgb8 { r: 7, g: 8, b: 9 });
    assert_eq!(cmd, vec![0x01, 7, 8, 9, 0x64]);
}

#[test]
fn byte_output_scaling() {
    let cfg = CorrectionConfig {
        gamma_num: 1,
        gamma_den: 1,
        fade_weight: 0,
        light_correction: 0,
        saturation_correction: 0,
    };
    let mut c = ColorCorrector::new();
    let out = c.step(&FixedRgb { r: 1000, g: 0, b: 1000 }, &cfg);
    // full channels come out as 255 after the byte scaling
    assert_eq!(out, Rgb8 { r: 255, g: 0, b: 255 });
}
