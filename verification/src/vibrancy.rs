//! Vibrancy swatch classification: score every palette color against a
//! category's luma and saturation windows, pick the best not yet
//! assigned, in the fixed category order.

use vstd::prelude::*;

use crate::{PipelineError, SCALE};
use crate::color::{Frame, Rgb8, rgb8_milli, spec_rgb8_milli};
use crate::hsl::{Hsl, hsl_of, spec_hsl_of};
use crate::quant::{
    Palette, lemma_sum_elem_le, lemma_sum_nonneg, lemma_sum_split, sum_counts,
};

verus! {

/// A closed acceptance interval plus the ideal value inside it.
#[derive(Clone, Copy, Debug, PartialEq, Eq, Structural)]
pub struct Mtm {
    pub min: u32,
    pub target: u32,
    pub max: u32,
}

impl Mtm {
    /// The target stays inside the unit interval, so score differences
    /// against it stay bounded.
    pub open spec fn wf(self) -> bool {
        self.target <= SCALE
    }
}

/// Up to six named swatches, at most one color per category and no
/// color in two categories. Categories are assigned in the fixed order
/// primary, light, dark, muted, light muted, dark muted.
#[derive(Clone, Copy, Debug, PartialEq, Eq)]
pub struct Vibrancy {
    pub primary: Option<Rgb8>,
    pub dark: Option<Rgb8>,
    pub light: Option<Rgb8>,
    pub muted: Option<Rgb8>,
    pub dark_muted: Option<Rgb8>,
    pub light_muted: Option<Rgb8>,
}

/// The vibrancy map with every category still empty.
pub open spec fn spec_empty_vibrancy() -> Vibrancy {
    Vibrancy {
        primary: None,
        dark: None,
        light: None,
        muted: None,
        dark_muted: None,
        light_muted: None,
    }
}

impl Default for Vibrancy {
    /// The empty vibrancy map.
    fn default() -> (r: Vibrancy)
        ensures
            r == spec_empty_vibrancy(),
    {
        Vibrancy {
            primary: None,
            dark: None,
            light: None,
            muted: None,
            dark_muted: None,
            light_muted: None,
        }
    }
}

/// Whether some category already holds this color.
pub open spec fn spec_already_set(v: Vibrancy, c: Rgb8) -> bool {
    v.primary == Some(c) || v.dark == Some(c) || v.light == Some(c) || v.muted == Some(c)
        || v.dark_muted == Some(c) || v.light_muted == Some(c)
}

/// Two categories never hold the same color.
pub open spec fn spec_all_distinct(v: Vibrancy) -> bool {
    &&& distinct_categories(v.primary, v.dark)
    &&& distinct_categories(v.primary, v.light)
    &&& distinct_categories(v.primary, v.muted)
    &&& distinct_categories(v.primary, v.dark_muted)
    &&& distinct_categories(v.primary, v.light_muted)
    &&& distinct_categories(v.dark, v.light)
    &&& distinct_categories(v.dark, v.muted)
    &&& distinct_categories(v.dark, v.dark_muted)
    &&& distinct_categories(v.dark, v.light_muted)
    &&& distinct_categories(v.light, v.muted)
    &&& distinct_categories(v.light, v.dark_muted)
    &&& distinct_categories(v.light, v.light_muted)
    &&& distinct_categories(v.muted, v.dark_muted)
    &&& distinct_categories(v.muted, v.light_muted)
    &&& distinct_categories(v.dark_muted, v.light_muted)
}

/// Two category entries differ unless one is empty.
pub open spec fn distinct_categories(a: Option<Rgb8>, b: Option<Rgb8>) -> bool {
    a is None || b is None || a != b
}

/// The HSL form of an 8-bit swatch color.
pub open spec fn swatch_hsl(c: Rgb8) -> Hsl {
    spec_hsl_of(spec_rgb8_milli(c))
}

/// The absolute difference of two fixed-point values.
pub open spec fn spec_abs_diff(a: u32, b: u32) -> int {
    if a >= b { a - b } else { b - a }
}

/// A swatch's score for a category, scaled by ten times the total
/// population so that comparisons stay in the integers: the weighted
/// mean of closeness to the saturation target (weight three), closeness
/// to the luma target (weight six), and population share (weight one).
pub open spec fn spec_score(c: Rgb8, luma: Mtm, sat: Mtm, pop: usize, total: int) -> int {
    3 * total * (SCALE - spec_abs_diff(swatch_hsl(c).s, sat.target)) + 6 * total * (SCALE
        - spec_abs_diff(swatch_hsl(c).l, luma.target)) + (SCALE as int) * pop
}

/// The score of palette entry `i`, over the palette's color and count
/// sequences.
pub open spec fn spec_score_at(cs: Seq<Rgb8>, ks: Seq<usize>, i: int, luma: Mtm, sat: Mtm) -> int {
    spec_score(cs[i], luma, sat, ks[i], sum_counts(ks))
}

/// A palette entry is eligible for a category when its saturation and
/// luma lie in the windows, some pixel maps to it, and no earlier
/// category took it.
pub open spec fn spec_eligible(
    v: Vibrancy,
    cs: Seq<Rgb8>,
    ks: Seq<usize>,
    i: int,
    luma: Mtm,
    sat: Mtm,
) -> bool {
    &&& sat.min <= swatch_hsl(cs[i]).s <= sat.max
    &&& luma.min <= swatch_hsl(cs[i]).l <= luma.max
    &&& ks[i] > 0
    &&& !spec_already_set(v, cs[i])
}

/// The entry at `i` is the winner: eligible, of maximal score, and the
/// earliest entry of that score.
pub open spec fn spec_best_pick(
    v: Vibrancy,
    cs: Seq<Rgb8>,
    ks: Seq<usize>,
    i: int,
    luma: Mtm,
    sat: Mtm,
) -> bool {
    &&& spec_eligible(v, cs, ks, i, luma, sat)
    &&& (forall|j: int|
        0 <= j < cs.len() && spec_eligible(v, cs, ks, j, luma, sat) ==> spec_score_at(
            cs,
            ks,
            j,
            luma,
            sat,
        ) <= spec_score_at(cs, ks, i, luma, sat))
    &&& (forall|j: int|
        0 <= j < i && spec_eligible(v, cs, ks, j, luma, sat) ==> spec_score_at(cs, ks, j, luma, sat)
            < spec_score_at(cs, ks, i, luma, sat))
}

/// What a category search returns: nothing exactly when nothing is
/// eligible, else the winning color.
pub open spec fn pick_ok(
    v: Vibrancy,
    r: Option<Rgb8>,
    cs: Seq<Rgb8>,
    ks: Seq<usize>,
    luma: Mtm,
    sat: Mtm,
) -> bool {
    match r {
        None => forall|i: int| 0 <= i < cs.len() ==> !spec_eligible(v, cs, ks, i, luma, sat),
        Some(c) => exists|i: int|
            0 <= i < cs.len() && cs[i] == c && spec_best_pick(v, cs, ks, i, luma, sat),
    }
}

/// A vibrancy map is the classification of a palette: each category,
/// in the fixed order, took the best eligible swatch left to it, and
/// no color serves two categories.
pub open spec fn spec_classified(v: Vibrancy, cs: Seq<Rgb8>, ks: Seq<usize>) -> bool {
    &&& pick_ok(
        spec_empty_vibrancy(),
        v.primary,
        cs,
        ks,
        (Mtm { min: 300, target: 500, max: 700 }),
        (Mtm { min: 350, target: 1000, max: 1000 }),
    )
    &&& pick_ok(
        (Vibrancy { primary: v.primary, ..spec_empty_vibrancy() }),
        v.light,
        cs,
        ks,
        (Mtm { min: 550, target: 740, max: 1000 }),
        (Mtm { min: 350, target: 1000, max: 1000 }),
    )
    &&& pick_ok(
        (Vibrancy { primary: v.primary, light: v.light, ..spec_empty_vibrancy() }),
        v.dark,
        cs,
        ks,
        (Mtm { min: 0, target: 260, max: 450 }),
        (Mtm { min: 350, target: 1000, max: 1000 }),
    )
    &&& pick_ok(
        (Vibrancy { primary: v.primary, light: v.light, dark: v.dark, ..spec_empty_vibrancy() }),
        v.muted,
        cs,
        ks,
        (Mtm { min: 300, target: 500, max: 700 }),
        (Mtm { min: 0, target: 300, max: 400 }),
    )
    &&& pick_ok(
        (Vibrancy {
            primary: v.primary,
            light: v.light,
            dark: v.dark,
            muted: v.muted,
            ..spec_empty_vibrancy()
        }),
        v.light_muted,
        cs,
        ks,
        (Mtm { min: 550, target: 740, max: 1000 }),
        (Mtm { min: 0, target: 300, max: 400 }),
    )
    &&& pick_ok(
        (Vibrancy {
            primary: v.primary,
            light: v.light,
            dark: v.dark,
            muted: v.muted,
            light_muted: v.light_muted,
            ..spec_empty_vibrancy()
        }),
        v.dark_muted,
        cs,
        ks,
        (Mtm { min: 0, target: 260, max: 450 }),
        (Mtm { min: 0, target: 300, max: 400 }),
    )
    &&& spec_all_distinct(v)
}

/// Raising a swatch's population while its saturation and luma stand
/// still never lowers its score.
pub proof fn lemma_score_monotone_in_population(
    c: Rgb8,
    luma: Mtm,
    sat: Mtm,
    pop1: usize,
    pop2: usize,
    total: int,
)
    requires
        pop1 <= pop2,
    ensures
        spec_score(c, luma, sat, pop1, total) <= spec_score(c, luma, sat, pop2, total),
{
}

/// A swatch's HSL form stays inside the fixed-point ranges.
pub proof fn lemma_swatch_hsl_wf(c: Rgb8)
    ensures
        swatch_hsl(c).wf(),
{
    assert((c.r as int) * 1000 / 255 <= 1000) by (nonlinear_arith)
        requires c.r <= 255u8;
    assert((c.g as int) * 1000 / 255 <= 1000) by (nonlinear_arith)
        requires c.g <= 255u8;
    assert((c.b as int) * 1000 / 255 <= 1000) by (nonlinear_arith)
        requires c.b <= 255u8;
    crate::hsl::lemma_hsl_of_wf(spec_rgb8_milli(c));
}

/// The six category windows together accept every populated swatch:
/// whatever its saturation and lightness, one of the categories of an
/// empty vibrancy map is open to it. An all-empty result can therefore
/// only come from a palette whose histogram is all zero.
pub proof fn lemma_windows_cover_every_swatch(cs: Seq<Rgb8>, ks: Seq<usize>, i: int)
    requires
        ks.len() == cs.len(),
        0 <= i < cs.len(),
        ks[i] > 0,
    ensures
        spec_eligible(
            spec_empty_vibrancy(),
            cs,
            ks,
            i,
            (Mtm { min: 300, target: 500, max: 700 }),
            (Mtm { min: 350, target: 1000, max: 1000 }),
        ) || spec_eligible(
            spec_empty_vibrancy(),
            cs,
            ks,
            i,
            (Mtm { min: 550, target: 740, max: 1000 }),
            (Mtm { min: 350, target: 1000, max: 1000 }),
        ) || spec_eligible(
            spec_empty_vibrancy(),
            cs,
            ks,
            i,
            (Mtm { min: 0, target: 260, max: 450 }),
            (Mtm { min: 350, target: 1000, max: 1000 }),
        ) || spec_eligible(
            spec_empty_vibrancy(),
            cs,
            ks,
            i,
            (Mtm { min: 300, target: 500, max: 700 }),
            (Mtm { min: 0, target: 300, max: 400 }),
        ) || spec_eligible(
            spec_empty_vibrancy(),
            cs,
            ks,
            i,
            (Mtm { min: 550, target: 740, max: 1000 }),
            (Mtm { min: 0, target: 300, max: 400 }),
        ) || spec_eligible(
            spec_empty_vibrancy(),
            cs,
            ks,
            i,
            (Mtm { min: 0, target: 260, max: 450 }),
            (Mtm { min: 0, target: 300, max: 400 }),
        ),
{
    lemma_swatch_hsl_wf(cs[i]);
}

/// The total population of a palette's histogram.
pub fn total_population(p: &Palette) -> (r: u64)
    requires
        p.wf(),
        sum_counts(p.counts@) <= 0xFFFF_FFFF,
    ensures
        r as int == sum_counts(p.counts@),
{
    let n = p.counts.len();
    let mut acc: u64 = 0;
    let mut i: usize = 0;
    while i < n
        invariant
            p.wf(),
            n == p.counts@.len(),
            i <= n,
            sum_counts(p.counts@) <= 0xFFFF_FFFF,
            acc == sum_counts(p.counts@.take(i as int)),
        decreases n - i,
    {
        proof {
            lemma_sum_split(p.counts@, i + 1);
            lemma_sum_nonneg(p.counts@.skip(i + 1));
            assert(p.counts@.take(i + 1) =~= p.counts@.take(i as int).push(p.counts@[i as int]));
            crate::quant::lemma_sum_push(p.counts@.take(i as int), p.counts@[i as int]);
        }
        acc = acc + (p.counts[i] as u64);
        i = i + 1;
    }
    proof {
        assert(p.counts@.take(n as int) =~= p.counts@);
    }
    acc
}

/// A swatch's category score, in the integer scale of `spec_score`.
fn score_value(c: &Rgb8, luma: &Mtm, sat: &Mtm, pop: usize, total: u64) -> (r: u64)
    requires
        luma.wf(),
        sat.wf(),
        total <= 0xFFFF_FFFF,
        pop <= total,
    ensures
        r as int == spec_score(*c, *luma, *sat, pop, total as int),
{
    let h = hsl_of(&rgb8_milli(c));
    let ds: u32 = if h.s >= sat.target {
        h.s - sat.target
    } else {
        sat.target - h.s
    };
    let dl: u32 = if h.l >= luma.target {
        h.l - luma.target
    } else {
        luma.target - h.l
    };
    assert(3u64 * total * ((SCALE - ds) as u64) <= 3000 * 0xFFFF_FFFF) by (nonlinear_arith)
        requires total <= 0xFFFF_FFFFu64, ds <= SCALE, SCALE == 1000u32;
    let t1: u64 = 3u64 * total * ((SCALE - ds) as u64);
    assert(6u64 * total * ((SCALE - dl) as u64) <= 6000 * 0xFFFF_FFFF) by (nonlinear_arith)
        requires total <= 0xFFFF_FFFFu64, dl <= SCALE, SCALE == 1000u32;
    let t2: u64 = 6u64 * total * ((SCALE - dl) as u64);
    assert((SCALE as u64) * (pop as u64) <= 1000 * 0xFFFF_FFFF) by (nonlinear_arith)
        requires pop <= total, total <= 0xFFFF_FFFFu64, SCALE == 1000u32;
    let t3: u64 = (SCALE as u64) * (pop as u64);
    t1 + t2 + t3
}

impl Vibrancy {
    /// Whether some category already holds this color.
    fn color_already_set(&self, color: &Rgb8) -> (r: bool)
        ensures
            r == spec_already_set(*self, *color),
    {
        opt_holds(&self.primary, color) || opt_holds(&self.dark, color) || opt_holds(
            &self.light,
            color,
        ) || opt_holds(&self.muted, color) || opt_holds(&self.dark_muted, color) || opt_holds(
            &self.light_muted,
            color,
        )
    }

    /// Search the palette for the best-scoring eligible swatch for one
    /// category; the earliest swatch wins ties.
    pub fn find_color_variation(&self, p: &Palette, luma: &Mtm, sat: &Mtm) -> (r: Option<Rgb8>)
        requires
            p.wf(),
            luma.wf(),
            sat.wf(),
            sum_counts(p.counts@) <= 0xFFFF_FFFF,
        ensures
            pick_ok(*self, r, p.colors@, p.counts@, *luma, *sat),
            r matches Some(c) ==> !spec_already_set(*self, c),
    {
        let total = total_population(p);
        let n = p.colors.len();
        let mut best: Option<Rgb8> = None;
        let mut best_idx: usize = 0;
        let mut best_score: u64 = 0;
        let mut i: usize = 0;
        while i < n
            invariant
                p.wf(),
                luma.wf(),
                sat.wf(),
                n == p.colors@.len(),
                total as int == sum_counts(p.counts@),
                total <= 0xFFFF_FFFF,
                i <= n,
                best is None ==> forall|j: int|
                    0 <= j < i ==> !spec_eligible(*self, p.colors@, p.counts@, j, *luma, *sat),
                best matches Some(c) ==> {
                    &&& best_idx < i
                    &&& p.colors@[best_idx as int] == c
                    &&& spec_eligible(*self, p.colors@, p.counts@, best_idx as int, *luma, *sat)
                    &&& best_score as int == spec_score_at(
                        p.colors@,
                        p.counts@,
                        best_idx as int,
                        *luma,
                        *sat,
                    )
                    &&& (forall|j: int|
                        0 <= j < i && spec_eligible(*self, p.colors@, p.counts@, j, *luma, *sat)
                            ==> spec_score_at(p.colors@, p.counts@, j, *luma, *sat) <= best_score)
                    &&& (forall|j: int|
                        0 <= j < best_idx && spec_eligible(
                            *self,
                            p.colors@,
                            p.counts@,
                            j,
                            *luma,
                            *sat,
                        ) ==> spec_score_at(p.colors@, p.counts@, j, *luma, *sat) < best_score)
                },
            decreases n - i,
        {
            let c = p.colors[i];
            let h = hsl_of(&rgb8_milli(&c));
            let pop = p.counts[i];
            if h.s >= sat.min && h.s <= sat.max && h.l >= luma.min && h.l <= luma.max && pop > 0
                && !self.color_already_set(&c) {
                proof {
                    lemma_sum_elem_le(p.counts@, i as int);
                }
                let v = score_value(&c, luma, sat, pop, total);
                if best.is_none() || v > best_score {
                    best = Some(c);
                    best_idx = i;
                    best_score = v;
                }
            }
            i = i + 1;
        }
        best
    }
}

/// Classify a palette into the six vibrancy categories, in the fixed
/// order primary, light, dark, muted, light muted, dark muted; each
/// category takes the best eligible swatch left to it.
pub fn generate_variation_colors(p: &Palette) -> (v: Vibrancy)
    requires
        p.wf(),
        sum_counts(p.counts@) <= 0xFFFF_FFFF,
    ensures
        spec_classified(v, p.colors@, p.counts@),
{
    let mut vibrancy = Vibrancy::default();
    let r1 = vibrancy.find_color_variation(
        p,
        &Mtm { min: 300, target: 500, max: 700 },
        &Mtm { min: 350, target: 1000, max: 1000 },
    );
    vibrancy.primary = r1;
    let r2 = vibrancy.find_color_variation(
        p,
        &Mtm { min: 550, target: 740, max: 1000 },
        &Mtm { min: 350, target: 1000, max: 1000 },
    );
    vibrancy.light = r2;
    let r3 = vibrancy.find_color_variation(
        p,
        &Mtm { min: 0, target: 260, max: 450 },
        &Mtm { min: 350, target: 1000, max: 1000 },
    );
    vibrancy.dark = r3;
    let r4 = vibrancy.find_color_variation(
        p,
        &Mtm { min: 300, target: 500, max: 700 },
        &Mtm { min: 0, target: 300, max: 400 },
    );
    vibrancy.muted = r4;
    let r5 = vibrancy.find_color_variation(
        p,
        &Mtm { min: 550, target: 740, max: 1000 },
        &Mtm { min: 0, target: 300, max: 400 },
    );
    vibrancy.light_muted = r5;
    let r6 = vibrancy.find_color_variation(
        p,
        &Mtm { min: 0, target: 260, max: 450 },
        &Mtm { min: 0, target: 300, max: 400 },
    );
    vibrancy.dark_muted = r6;
    vibrancy
}

impl Vibrancy {
    /// Classify a frame: build a palette of up to 256 colors at quality
    /// ten, then assign the six categories. Fails exactly when every
    /// pixel of the frame is boring.
    pub fn new(frame: &Frame) -> (r: Result<Vibrancy, PipelineError>)
        requires
            frame.wf(),
            frame.pixels@.len() <= 0xFFFF_FFFF,
        ensures
            r matches Err(e) ==> e == PipelineError::InsufficientSamples,
            r is Err <==> (forall|j: int|
                0 <= j < frame.pixels@.len() ==> crate::color::spec_is_boring_pixel(
                    frame.pixels@[j],
                )),
            r matches Ok(v) ==> spec_all_distinct(v) && spec_classified(
                v,
                crate::quant::spec_palette_colors(frame.pixels@, 256, 10),
                crate::quant::spec_palette_counts(frame.pixels@, 256, 10),
            ),
    {
        let palette = match Palette::new(frame, 256, 10) {
            Ok(p) => p,
            Err(e) => {
                return Err(e);
            },
        };
        Ok(generate_variation_colors(&palette))
    }
}

/// Whether an optional swatch holds exactly this color.
fn opt_holds(o: &Option<Rgb8>, c: &Rgb8) -> (r: bool)
    ensures
        r == (*o == Some(*c)),
{
    match o {
        Some(x) => x.r == c.r && x.g == c.g && x.b == c.b,
        None => false,
    }
}

} // verus!
