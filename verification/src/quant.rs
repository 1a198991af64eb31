//! Palette quantization: train the neural quantizer on the frame's
//! interesting pixels, classify every pixel to build the histogram,
//! and deduplicate the trained colors into the final palette.

use vstd::prelude::*;

use crate::PipelineError;
use crate::color::{Frame, Pixel8, Rgb8, is_boring_pixel, spec_is_boring_pixel};

verus! {

/// The sum of a histogram's counts.
pub open spec fn sum_counts(s: Seq<usize>) -> int
    decreases s.len(),
{
    if s.len() == 0 {
        0
    } else {
        s[0] + sum_counts(s.drop_first())
    }
}

/// Appending a count adds it to the sum.
pub proof fn lemma_sum_push(s: Seq<usize>, x: usize)
    ensures
        sum_counts(s.push(x)) == sum_counts(s) + x,
    decreases s.len(),
{
    if s.len() == 0 {
        assert(s.push(x)[0] == x);
        assert(s.push(x).drop_first() =~= Seq::<usize>::empty());
        assert(sum_counts(Seq::<usize>::empty()) == 0);
    } else {
        assert(s.push(x).drop_first() =~= s.drop_first().push(x));
        lemma_sum_push(s.drop_first(), x);
    }
}

/// Replacing a count shifts the sum by the difference.
pub proof fn lemma_sum_update(s: Seq<usize>, k: int, v: usize)
    requires
        0 <= k < s.len(),
    ensures
        sum_counts(s.update(k, v)) == sum_counts(s) - s[k] + v,
    decreases s.len(),
{
    if k == 0 {
        assert(s.update(0, v).drop_first() =~= s.drop_first());
    } else {
        assert(s.update(k, v).drop_first() =~= s.drop_first().update(k - 1, v));
        lemma_sum_update(s.drop_first(), k - 1, v);
    }
}

/// A sum of counts is never negative.
pub proof fn lemma_sum_nonneg(s: Seq<usize>)
    ensures
        sum_counts(s) >= 0,
    decreases s.len(),
{
    if s.len() > 0 {
        lemma_sum_nonneg(s.drop_first());
    }
}

/// Each count is at most the sum.
pub proof fn lemma_sum_elem_le(s: Seq<usize>, k: int)
    requires
        0 <= k < s.len(),
    ensures
        s[k] <= sum_counts(s),
    decreases s.len(),
{
    if k == 0 {
        lemma_sum_nonneg(s.drop_first());
    } else {
        lemma_sum_elem_le(s.drop_first(), k - 1);
    }
}

/// A sum splits at any cut point.
pub proof fn lemma_sum_split(s: Seq<usize>, i: int)
    requires
        0 <= i <= s.len(),
    ensures
        sum_counts(s) == sum_counts(s.take(i)) + sum_counts(s.skip(i)),
    decreases i,
{
    if i == 0 {
        assert(s.take(0) =~= Seq::<usize>::empty());
        assert(s.skip(0) =~= s);
    } else {
        lemma_sum_split(s, i - 1);
        assert(s.take(i) =~= s.take(i - 1).push(s[i - 1]));
        lemma_sum_push(s.take(i - 1), s[i - 1]);
        assert(s.skip(i - 1)[0] == s[i - 1]);
        assert(s.skip(i - 1).drop_first() =~= s.skip(i));
    }
}

/// The first index of a color in a palette sequence, or the length if
/// it does not occur.
pub open spec fn spec_index_of(s: Seq<Rgb8>, c: Rgb8) -> int
    decreases s.len(),
{
    if s.len() == 0 {
        0
    } else if s[0] == c {
        0
    } else {
        1 + spec_index_of(s.drop_first(), c)
    }
}

/// `spec_index_of` points at the first occurrence, and at the length
/// exactly when the color is absent.
pub proof fn lemma_index_of(s: Seq<Rgb8>, c: Rgb8)
    ensures
        0 <= spec_index_of(s, c) <= s.len(),
        spec_index_of(s, c) < s.len() ==> s[spec_index_of(s, c)] == c,
        forall|j: int| 0 <= j < spec_index_of(s, c) ==> s[j] != c,
    decreases s.len(),
{
    if s.len() > 0 && s[0] != c {
        lemma_index_of(s.drop_first(), c);
        assert forall|j: int| 0 <= j < spec_index_of(s, c) implies s[j] != c by {
            if j > 0 {
                assert(s[j] == s.drop_first()[j - 1]);
            }
        }
    }
}

/// All entries of a palette sequence are channel-distinct.
pub open spec fn distinct_colors(s: Seq<Rgb8>) -> bool {
    forall|i: int, j: int| 0 <= i < j < s.len() ==> s[i] != s[j]
}

/// The RGBA training bytes of a frame: each interesting pixel's four
/// channels, in frame order; boring pixels contribute nothing.
pub open spec fn spec_training_samples(pix: Seq<Pixel8>) -> Seq<u8>
    decreases pix.len(),
{
    if pix.len() == 0 {
        Seq::empty()
    } else {
        let p = pix.last();
        let rest = spec_training_samples(pix.drop_last());
        if spec_is_boring_pixel(p) {
            rest
        } else {
            rest + seq![p.r, p.g, p.b, p.a]
        }
    }
}

/// First-occurrence deduplication: each color keeps the position of
/// its first appearance, later duplicates vanish.
pub open spec fn spec_dedup(s: Seq<Rgb8>) -> Seq<Rgb8>
    decreases s.len(),
{
    if s.len() == 0 {
        Seq::empty()
    } else {
        let prefix = spec_dedup(s.drop_last());
        if prefix.contains(s.last()) {
            prefix
        } else {
            prefix.push(s.last())
        }
    }
}

#[verifier::external_type_specification]
#[verifier::external_body]
pub struct ExNeuQuant(color_quant::NeuQuant);

/// The trained color map held inside a quantizer, in palette order.
pub uninterp spec fn nq_colormap(q: color_quant::NeuQuant) -> Seq<Rgb8>;

/// The index of the trained color nearest a given RGBA pixel.
pub uninterp spec fn nq_index_of(q: color_quant::NeuQuant, r: u8, g: u8, b: u8, a: u8) -> usize;

/// The color list the quantizer trains from flat RGBA samples: a
/// function of the quality, the palette bound and the samples alone.
pub uninterp spec fn nq_trained(quality: i32, colors: usize, samples: Seq<u8>) -> Seq<Rgb8>;

/// The nearest-entry index the trained quantizer assigns to an RGBA
/// pixel: a function of the training inputs and the pixel alone.
pub uninterp spec fn nq_classified(
    quality: i32,
    colors: usize,
    samples: Seq<u8>,
    r: u8,
    g: u8,
    b: u8,
    a: u8,
) -> usize;

/// Relies on color_quant::NeuQuant::new: trains an adaptive network of
/// exactly `colors` entries from flat RGBA samples; the sample factor
/// divides sample counts, so it must be positive. Training and
/// classification are pure computation, so what the network holds and
/// how it classifies are functions of the training inputs alone.
#[verifier::external_body]
fn nq_train(quality: i32, colors: usize, samples: &Vec<u8>) -> (q: color_quant::NeuQuant)
    requires
        1 <= quality <= 30,
        1 <= colors <= 512,
        samples@.len() % 4 == 0,
    ensures
        nq_colormap(q).len() == colors,
        nq_colormap(q) == nq_trained(quality, colors, samples@),
        forall|r: u8, g: u8, b: u8, a: u8|
            #[trigger] nq_index_of(q, r, g, b, a) == nq_classified(
                quality,
                colors,
                samples@,
                r,
                g,
                b,
                a,
            ),
{
    color_quant::NeuQuant::new(quality, colors, samples.as_slice())
}

/// Relies on color_quant::NeuQuant::color_map_rgba: one RGBA quadruple
/// per trained entry, in palette order; the alpha byte is dropped here.
#[verifier::external_body]
fn nq_palette(q: &color_quant::NeuQuant) -> (r: Vec<Rgb8>)
    ensures
        r@ == nq_colormap(*q),
{
    q.color_map_rgba().chunks_exact(4).map(|c| Rgb8 { r: c[0], g: c[1], b: c[2] }).collect()
}

/// Relies on color_quant::NeuQuant::index_of: the position, inside the
/// trained color map, of the entry nearest the given RGBA pixel.
#[verifier::external_body]
fn nq_nearest(q: &color_quant::NeuQuant, p: &Pixel8) -> (r: usize)
    requires
        nq_colormap(*q).len() >= 1,
    ensures
        r == nq_index_of(*q, p.r, p.g, p.b, p.a),
        r < nq_colormap(*q).len(),
{
    q.index_of(&[p.r, p.g, p.b, p.a])
}

/// A first-occurrence witness pins `spec_index_of`.
pub proof fn lemma_index_of_unique(s: Seq<Rgb8>, c: Rgb8, x: int)
    requires
        0 <= x < s.len(),
        s[x] == c,
        forall|t: int| 0 <= t < x ==> s[t] != c,
    ensures
        spec_index_of(s, c) == x,
{
    lemma_index_of(s, c);
    let idx = spec_index_of(s, c);
    if idx < x {
        assert(s[idx] == c);
        assert(s[idx] != c);
    }
    if idx > x {
        assert(s[x] != c);
    }
}

/// The histogram bucket one pixel lands in: the deduplicated position
/// of the trained color nearest it, with training fixed by the frame.
pub open spec fn spec_bucket(pix: Seq<Pixel8>, cc: usize, quality: i32, p: Pixel8) -> int {
    let samples = spec_training_samples(pix);
    let raw = nq_trained(quality, cc, samples);
    spec_index_of(
        spec_dedup(raw),
        raw[nq_classified(quality, cc, samples, p.r, p.g, p.b, p.a) as int],
    )
}

/// How many of the counted pixels land in bucket `j`.
pub open spec fn spec_bucket_count(
    pix: Seq<Pixel8>,
    cc: usize,
    quality: i32,
    counted: Seq<Pixel8>,
    j: int,
) -> int
    decreases counted.len(),
{
    if counted.len() == 0 {
        0
    } else {
        spec_bucket_count(pix, cc, quality, counted.drop_last(), j) + if spec_bucket(
            pix,
            cc,
            quality,
            counted.last(),
        ) == j {
            1int
        } else {
            0
        }
    }
}

/// The palette colors a frame yields: the trained color list,
/// deduplicated with the first occurrence kept, in first-seen order.
pub open spec fn spec_palette_colors(pix: Seq<Pixel8>, cc: usize, quality: i32) -> Seq<Rgb8> {
    spec_dedup(nq_trained(quality, cc, spec_training_samples(pix)))
}

/// The histogram a frame yields: for each palette index, the number of
/// frame pixels whose nearest trained color deduplicates to it.
pub open spec fn spec_palette_counts(pix: Seq<Pixel8>, cc: usize, quality: i32) -> Seq<usize> {
    Seq::new(
        spec_palette_colors(pix, cc, quality).len(),
        |j: int| spec_bucket_count(pix, cc, quality, pix, j) as usize,
    )
}

/// A palette: ordered distinct colors, and a histogram mapping each
/// palette index to the number of frame pixels nearest that color.
#[derive(Debug)]
pub struct Palette {
    /// The deduplicated colors, first occurrence kept.
    pub colors: Vec<Rgb8>,
    /// One count per color, over all pixels of the frame.
    pub counts: Vec<usize>,
}

impl Palette {
    /// One count per color, and no color twice.
    pub open spec fn wf(self) -> bool {
        self.counts@.len() == self.colors@.len() && distinct_colors(self.colors@)
    }

    /// The histogram count of a color, zero if it is not in the palette.
    pub open spec fn spec_frequency_of(self, c: Rgb8) -> usize {
        if spec_index_of(self.colors@, c) < self.colors@.len() {
            self.counts@[spec_index_of(self.colors@, c)]
        } else {
            0
        }
    }

    /// Build a palette from a frame.
    ///
    /// Boring pixels are excluded from training; every pixel, boring or
    /// not, is classified into the histogram. Fails exactly when every
    /// pixel of the frame is boring, for then nothing can be learned.
    pub fn new(frame: &Frame, color_count: usize, quality: i32) -> (r: Result<
        Palette,
        PipelineError,
    >)
        requires
            frame.wf(),
            8 <= color_count <= 512,
            1 <= quality <= 30,
        ensures
            r matches Err(e) ==> e == PipelineError::InsufficientSamples,
            r is Err <==> (forall|j: int|
                0 <= j < frame.pixels@.len() ==> spec_is_boring_pixel(frame.pixels@[j])),
            r matches Ok(p) ==> p.wf() && p.colors@.len() <= color_count && sum_counts(p.counts@)
                == frame.pixels@.len() && sum_counts(p.counts@) == frame.width * frame.height,
            r matches Ok(p) ==> p.colors@ == spec_palette_colors(
                frame.pixels@,
                color_count,
                quality,
            ) && p.counts@ == spec_palette_counts(frame.pixels@, color_count, quality),
    {
        let n = frame.pixels.len();

        // Gather the training bytes: the interesting pixels only.
        let mut samples: Vec<u8> = Vec::new();
        let mut i: usize = 0;
        while i < n
            invariant
                n == frame.pixels@.len(),
                i <= n,
                samples@ == spec_training_samples(frame.pixels@.take(i as int)),
                samples@.len() % 4 == 0,
                samples@.len() <= 4 * i,
                (samples@.len() == 0 <==> (forall|j: int|
                    0 <= j < i ==> spec_is_boring_pixel(frame.pixels@[j]))),
            decreases n - i,
        {
            let p = frame.pixels[i];
            proof {
                assert(frame.pixels@.take(i + 1).drop_last() =~= frame.pixels@.take(i as int));
                assert(frame.pixels@.take(i + 1).last() == frame.pixels@[i as int]);
            }
            if !is_boring_pixel(&p) {
                samples.push(p.r);
                samples.push(p.g);
                samples.push(p.b);
                samples.push(p.a);
                proof {
                    assert(samples@ =~= spec_training_samples(frame.pixels@.take(i as int))
                        + seq![p.r, p.g, p.b, p.a]);
                }
            }
            i = i + 1;
        }
        proof {
            assert(frame.pixels@.take(n as int) =~= frame.pixels@);
        }
        if samples.len() == 0 {
            return Err(PipelineError::InsufficientSamples);
        }
        let q = nq_train(quality, color_count, &samples);
        let raw = nq_palette(&q);

        // Deduplicate the trained colors, first occurrence kept, and
        // remember where each trained entry went.
        let mut colors: Vec<Rgb8> = Vec::new();
        let mut remap: Vec<usize> = Vec::new();
        let mut i: usize = 0;
        while i < color_count
            invariant
                raw@.len() == color_count,
                i <= color_count,
                colors@ == spec_dedup(raw@.take(i as int)),
                colors@.len() <= i,
                distinct_colors(colors@),
                remap@.len() == i,
                forall|k: int|
                    0 <= k < i ==> (#[trigger] remap@[k]) < colors@.len() && colors@[remap@[k] as int]
                        == raw@[k] && (forall|t: int| 0 <= t < remap@[k] ==> colors@[t] != raw@[k]),
            decreases color_count - i,
        {
            let color = raw[i];
            proof {
                assert(raw@.take(i + 1).drop_last() =~= raw@.take(i as int));
                assert(raw@.take(i + 1).last() == raw@[i as int]);
            }
            // Find the color among those already kept.
            let mut j: usize = 0;
            let mut found = false;
            while j < colors.len() && !found
                invariant
                    j <= colors@.len(),
                    found ==> j < colors@.len() && colors@[j as int] == color,
                    forall|t: int| 0 <= t < j ==> colors@[t] != color,
                decreases colors@.len() - j, (if found { 0int } else { 1int }),
            {
                if colors[j] == color {
                    found = true;
                } else {
                    j = j + 1;
                }
            }
            if found {
                proof {
                    assert(colors@.contains(color));
                }
                remap.push(j);
            } else {
                proof {
                    assert(!colors@.contains(color)) by {
                        if colors@.contains(color) {
                            let t = choose|t: int| 0 <= t < colors@.len() && colors@[t] == color;
                            assert(colors@[t] != color);
                        }
                    }
                }
                let newidx = colors.len();
                colors.push(color);
                remap.push(newidx);
            }
            i = i + 1;
        }
        proof {
            assert(raw@.take(color_count as int) =~= raw@);
        }

        // Classify every pixel of the frame, boring or not, into the
        // bucket of its nearest trained color.
        let mut counts: Vec<usize> = Vec::new();
        let cl = colors.len();
        let mut k: usize = 0;
        while k < cl
            invariant
                k <= cl,
                counts@.len() == k,
                sum_counts(counts@) == 0,
                forall|jj: int| 0 <= jj < k ==> counts@[jj] == 0,
            decreases cl - k,
        {
            proof {
                lemma_sum_push(counts@, 0);
            }
            counts.push(0);
            k = k + 1;
        }
        let mut i: usize = 0;
        while i < n
            invariant
                n == frame.pixels@.len(),
                i <= n,
                counts@.len() == colors@.len(),
                raw@.len() == color_count,
                color_count >= 1,
                nq_colormap(q) == raw@,
                raw@ == nq_trained(quality, color_count, spec_training_samples(frame.pixels@)),
                colors@ == spec_dedup(raw@),
                forall|r: u8, g: u8, b: u8, a: u8|
                    #[trigger] nq_index_of(q, r, g, b, a) == nq_classified(
                        quality,
                        color_count,
                        spec_training_samples(frame.pixels@),
                        r,
                        g,
                        b,
                        a,
                    ),
                remap@.len() == color_count,
                forall|k: int|
                    0 <= k < color_count ==> (#[trigger] remap@[k]) < colors@.len()
                        && colors@[remap@[k] as int] == raw@[k] && (forall|t: int|
                        0 <= t < remap@[k] ==> colors@[t] != raw@[k]),
                sum_counts(counts@) == i,
                forall|jj: int|
                    0 <= jj < counts@.len() ==> counts@[jj] == spec_bucket_count(
                        frame.pixels@,
                        color_count,
                        quality,
                        frame.pixels@.take(i as int),
                        jj,
                    ),
            decreases n - i,
        {
            let p = frame.pixels[i];
            let idx = nq_nearest(&q, &p);
            let jdx = remap[idx];
            proof {
                lemma_sum_elem_le(counts@, jdx as int);
                lemma_sum_update(counts@, jdx as int, (counts@[jdx as int] + 1) as usize);
            }
            let ghost pre = counts@;
            let c0 = counts[jdx];
            counts.set(jdx, c0 + 1);
            proof {
                lemma_index_of_unique(colors@, raw@[idx as int], jdx as int);
                assert(spec_bucket(frame.pixels@, color_count, quality, p) == jdx);
                assert(frame.pixels@.take(i + 1).drop_last() =~= frame.pixels@.take(i as int));
                assert(frame.pixels@.take(i + 1).last() == p);
                assert forall|jj: int| 0 <= jj < counts@.len() implies counts@[jj]
                    == spec_bucket_count(
                    frame.pixels@,
                    color_count,
                    quality,
                    frame.pixels@.take(i + 1),
                    jj,
                ) by {
                    assert(spec_bucket_count(
                        frame.pixels@,
                        color_count,
                        quality,
                        frame.pixels@.take(i + 1),
                        jj,
                    ) == spec_bucket_count(
                        frame.pixels@,
                        color_count,
                        quality,
                        frame.pixels@.take(i as int),
                        jj,
                    ) + if spec_bucket(frame.pixels@, color_count, quality, p) == jj {
                        1int
                    } else {
                        0
                    });
                    if jj == jdx {
                        assert(counts@[jj] == pre[jj] + 1);
                    } else {
                        assert(counts@[jj] == pre[jj]);
                    }
                }
            }
            i = i + 1;
        }
        proof {
            assert(frame.pixels@.take(n as int) =~= frame.pixels@);
            let ks = spec_palette_counts(frame.pixels@, color_count, quality);
            assert(counts@ =~= ks) by {
                assert(ks.len() == colors@.len());
                assert forall|jj: int| 0 <= jj < counts@.len() implies counts@[jj] == ks[jj] by {
                    assert(ks[jj] == spec_bucket_count(
                        frame.pixels@,
                        color_count,
                        quality,
                        frame.pixels@,
                        jj,
                    ) as usize);
                }
            }
        }
        Ok(Palette { colors, counts })
    }

    /// The palette's colors reordered ascending by histogram count;
    /// the histogram itself is kept as it stands.
    pub fn sort_by_frequency(&self) -> (r: Palette)
        requires
            self.wf(),
        ensures
            r.wf(),
            r.counts@ == self.counts@,
            r.colors@.to_multiset() == self.colors@.to_multiset(),
            forall|a: int, b: int|
                0 <= a < b < r.colors@.len() ==> self.spec_frequency_of(r.colors@[a])
                    <= self.spec_frequency_of(r.colors@[b]),
            forall|a: int, b: int|
                0 <= a < b < r.colors@.len() && self.spec_frequency_of(r.colors@[a])
                    == self.spec_frequency_of(r.colors@[b]) ==> spec_index_of(
                    self.colors@,
                    r.colors@[a],
                ) < spec_index_of(self.colors@, r.colors@[b]),
    {
        let mut v: Vec<Rgb8> = Vec::new();
        let mut t: usize = 0;
        while t < self.colors.len()
            invariant
                t <= self.colors@.len(),
                v@ == self.colors@.take(t as int),
            decreases self.colors@.len() - t,
        {
            v.push(self.colors[t]);
            proof {
                assert(v@ =~= self.colors@.take(t + 1));
            }
            t = t + 1;
        }
        proof {
            assert(v@ =~= self.colors@);
        }
        let mut counts: Vec<usize> = Vec::new();
        let mut t: usize = 0;
        while t < self.counts.len()
            invariant
                t <= self.counts@.len(),
                counts@ == self.counts@.take(t as int),
            decreases self.counts@.len() - t,
        {
            counts.push(self.counts[t]);
            proof {
                assert(counts@ =~= self.counts@.take(t + 1));
            }
            t = t + 1;
        }
        proof {
            assert(counts@ =~= self.counts@);
            assert forall|a: int, b: int| 0 <= a < b < v@.len() implies spec_index_of(
                self.colors@,
                v@[a],
            ) < spec_index_of(self.colors@, v@[b]) by {
                lemma_index_of_unique(self.colors@, v@[a], a);
                lemma_index_of_unique(self.colors@, v@[b], b);
            }
        }
        let n = v.len();
        let mut i: usize = 1;
        while i < n
            invariant
                self.wf(),
                n == v@.len(),
                n == self.colors@.len(),
                1 <= i,
                i <= n || n == 0,
                v@.to_multiset() == self.colors@.to_multiset(),
                forall|a: int, b: int|
                    0 <= a < b < i ==> self.spec_frequency_of(v@[a]) <= self.spec_frequency_of(
                        v@[b],
                    ),
                forall|a: int, b: int|
                    0 <= a < b < n && self.spec_frequency_of(v@[a]) == self.spec_frequency_of(
                        v@[b],
                    ) ==> spec_index_of(self.colors@, v@[a]) < spec_index_of(self.colors@, v@[b]),
            decreases n - i,
        {
            let mut j: usize = i;
            let mut done = false;
            while j > 0 && !done
                invariant
                    self.wf(),
                    n == v@.len(),
                    n == self.colors@.len(),
                    j <= i < n,
                    v@.to_multiset() == self.colors@.to_multiset(),
                    forall|a: int, b: int|
                        0 <= a < b <= i && a != j && b != j ==> self.spec_frequency_of(v@[a])
                            <= self.spec_frequency_of(v@[b]),
                    forall|b: int|
                        j < b <= i ==> self.spec_frequency_of(v@[j as int])
                            <= self.spec_frequency_of(v@[b]),
                    done ==> (j == 0 || self.spec_frequency_of(v@[j - 1])
                        <= self.spec_frequency_of(v@[j as int])),
                    forall|a: int, b: int|
                        0 <= a < b < n && self.spec_frequency_of(v@[a]) == self.spec_frequency_of(
                            v@[b],
                        ) ==> spec_index_of(self.colors@, v@[a]) < spec_index_of(
                            self.colors@,
                            v@[b],
                        ),
                decreases j + (if done { 0int } else { 1int }),
            {
                let fa = self.frequency_of(&v[j - 1]);
                let fb = self.frequency_of(&v[j]);
                if fa <= fb {
                    done = true;
                } else {
                    let x = v[j - 1];
                    let y = v[j];
                    let ghost v0 = v@;
                    v.set(j - 1, y);
                    v.set(j, x);
                    proof {
                        broadcast use vstd::seq_lib::to_multiset_update;
                        broadcast use vstd::seq_lib::to_multiset_contains;
                        broadcast use vstd::multiset::group_multiset_axioms;

                        assert(v@ == v0.update(j - 1, y).update(j as int, x));
                        assert(v@.to_multiset() =~= v0.to_multiset());
                        assert forall|a: int, b: int|
                            0 <= a < b < n && self.spec_frequency_of(v@[a])
                                == self.spec_frequency_of(v@[b]) implies spec_index_of(
                            self.colors@,
                            v@[a],
                        ) < spec_index_of(self.colors@, v@[b]) by {
                            let aa = if a == j - 1 { j as int } else if a == j { j - 1 } else { a };
                            let bb = if b == j - 1 { j as int } else if b == j { j - 1 } else { b };
                            assert(v@[a] == v0[aa] && v@[b] == v0[bb]);
                            if a == j - 1 && b == j {
                                assert(self.spec_frequency_of(v0[j - 1]) > self.spec_frequency_of(
                                    v0[j as int],
                                ));
                            } else {
                                assert(aa < bb);
                            }
                        }
                    }
                    j = j - 1;
                }
            }
            proof {
                assert forall|a: int, b: int| 0 <= a < b <= i implies self.spec_frequency_of(
                    v@[a],
                ) <= self.spec_frequency_of(v@[b]) by {
                    if a == j {
                        assert(self.spec_frequency_of(v@[a]) <= self.spec_frequency_of(v@[b]));
                    } else if b == j {
                        assert(a <= j - 1);
                        if a < j - 1 {
                            assert(self.spec_frequency_of(v@[a]) <= self.spec_frequency_of(
                                v@[j - 1],
                            ));
                        }
                        assert(self.spec_frequency_of(v@[j - 1]) <= self.spec_frequency_of(
                            v@[j as int],
                        ));
                    }
                }
            }
            i = i + 1;
        }
        proof {
            assert(self.colors@.no_duplicates());
            self.colors@.lemma_multiset_has_no_duplicates();
            v@.lemma_multiset_has_no_duplicates_conv();
            assert(distinct_colors(v@));
        }
        Palette { colors: v, counts }
    }

    /// The histogram count of a color, zero if it is not in the palette.
    pub fn frequency_of(&self, color: &Rgb8) -> (r: usize)
        requires
            self.wf(),
        ensures
            r == self.spec_frequency_of(*color),
    {
        proof {
            lemma_index_of(self.colors@, *color);
        }
        let mut j: usize = 0;
        while j < self.colors.len()
            invariant
                self.wf(),
                j <= self.colors@.len(),
                forall|t: int| 0 <= t < j ==> self.colors@[t] != color,
                j <= spec_index_of(self.colors@, *color),
            decreases self.colors@.len() - j,
        {
            if self.colors[j] == *color {
                proof {
                    lemma_index_of(self.colors@, *color);
                    if spec_index_of(self.colors@, *color) > j {
                        assert(false);
                    }
                }
                return self.counts[j];
            }
            proof {
                lemma_index_of(self.colors@, *color);
                if spec_index_of(self.colors@, *color) == j {
                    assert(self.colors@[j as int] == *color);
                }
            }
            j = j + 1;
        }
        0
    }
}

} // verus!
