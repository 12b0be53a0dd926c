//! The pixel raster and the grayscale encoding of escape-time results.
//!
//! A render produces one byte per pixel, row-major.  The per-pixel work —
//! evaluating the escape iteration — yields an optional iteration count;
//! this module turns a grid of such counts into the output buffer, either
//! in one pass or band by band, and proves that the two agree byte for
//! byte whatever the band partition is.

use vstd::prelude::*;
use crate::bands::{Band, plan_shape, ceil_div, plan_bands, lemma_band_in_grid};

verus! {

/// The brightest sample value a pixel can take.
pub const MAX_INTENSITY: u8 = 255;

/// A rectangular raster of samples: a flat buffer of `width * height`
/// entries, row-major, so the sample at `(row, col)` sits at index
/// `row * width + col`.
pub struct Image<P> {
    pixels: Vec<P>,
    width: usize,
    height: usize,
}

impl<P> View for Image<P> {
    type V = Seq<P>;

    closed spec fn view(&self) -> Seq<P> {
        self.pixels@
    }
}

impl<P: Copy> Image<P> {
    /// The grid width this raster was made with.
    pub closed spec fn spec_width(&self) -> usize {
        self.width
    }

    /// The grid height this raster was made with.
    pub closed spec fn spec_height(&self) -> usize {
        self.height
    }

    /// The buffer holds exactly one sample per pixel of the grid.
    pub open spec fn wf(&self) -> bool {
        self@.len() == self.spec_width() * self.spec_height()
    }

    /// A raster of the given dimensions with every sample set to `fill`.
    pub fn new(width: usize, height: usize, fill: P) -> (img: Image<P>)
        requires
            width * height <= usize::MAX,
        ensures
            img.wf(),
            img.spec_width() == width,
            img.spec_height() == height,
            forall|i: int| 0 <= i < img@.len() ==> img@[i] == fill,
    {
        let n = width * height;
        let mut pixels: Vec<P> = Vec::new();
        let mut i: usize = 0;
        while i < n
            invariant
                i <= n,
                pixels@.len() == i,
                forall|j: int| 0 <= j < i ==> pixels@[j] == fill,
            decreases n - i,
        {
            pixels.push(fill);
            i = i + 1;
        }
        Image { pixels, width, height }
    }

    pub fn width(&self) -> (w: usize)
        ensures
            w == self.spec_width(),
    {
        self.width
    }

    pub fn height(&self) -> (h: usize)
        ensures
            h == self.spec_height(),
    {
        self.height
    }

    /// The sample at `(row, col)`.
    pub fn get(&self, row: usize, col: usize) -> (p: P)
        requires
            self.wf(),
            row < self.spec_height(),
            col < self.spec_width(),
        ensures
            p == self@[row * self.spec_width() + col],
    {
        let n = self.pixels.len();
        proof {
            lemma_pixel_index(
                row as int,
                col as int,
                self.spec_width() as int,
                self.spec_height() as int,
            );
            assert(row * self.spec_width() + col < n);
        }
        self.pixels[row * self.width + col]
    }

    /// Overwrite the sample at `(row, col)`; every other sample and the
    /// dimensions stay as they were.
    pub fn set(&mut self, row: usize, col: usize, p: P)
        requires
            old(self).wf(),
            row < old(self).spec_height(),
            col < old(self).spec_width(),
        ensures
            final(self).wf(),
            final(self).spec_width() == old(self).spec_width(),
            final(self).spec_height() == old(self).spec_height(),
            final(self)@ == old(self)@.update(row * old(self).spec_width() + col, p),
    {
        let n = self.pixels.len();
        proof {
            lemma_pixel_index(
                row as int,
                col as int,
                self.spec_width() as int,
                self.spec_height() as int,
            );
            assert(row * self.spec_width() + col < n);
        }
        let i = row * self.width + col;
        self.pixels.set(i, p);
    }

    /// The samples of one grid row, left to right.
    pub fn row(&self, row: usize) -> (r: Vec<P>)
        requires
            self.wf(),
            row < self.spec_height(),
        ensures
            r@ == self@.subrange(
                row * self.spec_width(),
                row * self.spec_width() + self.spec_width(),
            ),
    {
        let n = self.pixels.len();
        proof {
            if self.spec_width() > 0 {
                lemma_pixel_index(
                    row as int,
                    self.spec_width() - 1,
                    self.spec_width() as int,
                    self.spec_height() as int,
                );
            } else {
                assert(row * self.spec_width() == 0) by (nonlinear_arith)
                    requires
                        self.spec_width() == 0,
                ;
                assert(self@.len() == 0) by (nonlinear_arith)
                    requires
                        self@.len() == self.spec_width() * self.spec_height(),
                        self.spec_width() == 0,
                ;
            }
            assert(row * self.spec_width() + self.spec_width() <= n);
        }
        let start = row * self.width;
        let mut r: Vec<P> = Vec::new();
        let mut c: usize = 0;
        while c < self.width
            invariant
                c <= self.width,
                n == self@.len(),
                start == row * self.spec_width(),
                start + self.spec_width() <= n,
                r@ =~= self@.subrange(start as int, start + c),
            decreases self.width - c,
        {
            r.push(self.pixels[start + c]);
            proof {
                assert(r@ =~= self@.subrange(start as int, start + c + 1));
            }
            c = c + 1;
        }
        r
    }
}

/// A pixel's flat index lies inside the buffer of its grid.
proof fn lemma_pixel_index(row: int, col: int, width: int, height: int) by (nonlinear_arith)
    requires
        0 <= row < height,
        0 <= col < width,
    ensures
        0 <= row * width + col < width * height,
        row * width + width <= width * height,
{
}

/// What a single escape-time result looks like as a grayscale sample:
/// a point that never escaped is darkest at the cap, an early escaper is
/// darker than a late one.
pub open spec fn intensity_spec(r: Option<u32>) -> u8 {
    match r {
        None => 0u8,
        Some(count) => (MAX_INTENSITY - count) as u8,
    }
}

/// Every escape count of the grid is below the intensity cap.
pub open spec fn counts_ok(counts: Seq<Option<u32>>) -> bool {
    forall|i: int|
        0 <= i < counts.len() ==> ((#[trigger] counts[i]) matches Some(c) ==> c <= MAX_INTENSITY)
}

/// The whole output buffer as a function of the grid of escape counts.
pub open spec fn shade_spec(counts: Seq<Option<u32>>) -> Seq<u8> {
    counts.map_values(|r: Option<u32>| intensity_spec(r))
}

/// Turn one escape-time result into the grayscale sample written to the
/// raster: non-escaping points map to 0, a point that escaped at
/// iteration `count` maps to `MAX_INTENSITY - count`.
pub fn intensity(r: Option<u32>) -> (p: u8)
    requires
        r matches Some(count) ==> count <= MAX_INTENSITY,
    ensures
        p == intensity_spec(r),
{
    match r {
        None => 0,
        Some(count) => MAX_INTENSITY - (count as u8),
    }
}

/// Shade a whole grid of escape counts into the output buffer, one byte
/// per pixel, in order.
pub fn render_counts(counts: &Vec<Option<u32>>) -> (pixels: Vec<u8>)
    requires
        counts_ok(counts@),
    ensures
        pixels@ == shade_spec(counts@),
{
    let mut pixels: Vec<u8> = Vec::new();
    let mut i: usize = 0;
    while i < counts.len()
        invariant
            counts_ok(counts@),
            i <= counts.len(),
            pixels@ == shade_spec(counts@.subrange(0, i as int)),
        decreases counts.len() - i,
    {
        let p = intensity(counts[i]);
        pixels.push(p);
        proof {
            assert(counts@.subrange(0, i + 1).drop_last() =~= counts@.subrange(0, i as int));
            assert(shade_spec(counts@.subrange(0, i + 1)) =~= shade_spec(
                counts@.subrange(0, i as int),
            ).push(intensity_spec(counts@[i as int])));
        }
        i = i + 1;
    }
    proof {
        assert(counts@.subrange(0, counts@.len() as int) =~= counts@);
    }
    pixels
}

/// The escape counts of one band of the grid: the rows
/// `[top, top + height)`, each `width` entries wide.
pub open spec fn band_slice(counts: Seq<Option<u32>>, band: Band, width: int) -> Seq<
    Option<u32>,
> {
    counts.subrange(band.top * width, (band.top + band.height) * width)
}

/// The buffers of the bands of a plan, shaded independently and laid end
/// to end in plan order.
pub open spec fn banded_shade_spec(counts: Seq<Option<u32>>, plan: Seq<Band>, width: int) -> Seq<
    u8,
>
    decreases plan.len(),
{
    if plan.len() == 0 {
        Seq::empty()
    } else {
        banded_shade_spec(counts, plan.drop_last(), width) + shade_spec(
            band_slice(counts, plan.last(), width),
        )
    }
}

/// Shading a prefix and a suffix separately gives the same bytes as
/// shading the whole.
proof fn lemma_shade_split(counts: Seq<Option<u32>>, mid: int)
    requires
        0 <= mid <= counts.len(),
    ensures
        shade_spec(counts) =~= shade_spec(counts.subrange(0, mid)) + shade_spec(
            counts.subrange(mid, counts.len() as int),
        ),
{
}

/// Rendering band by band produces exactly the bytes of a whole-grid
/// render: the band partition neither loses, repeats, nor reorders a
/// pixel.  This holds for every band plan of the grid's height, so the
/// output buffer does not depend on the worker count.
pub proof fn law_band_invariance(counts: Seq<Option<u32>>, plan: Seq<Band>, width: int, height: int, bh: int)
    requires
        plan_shape(plan, height, bh),
        width >= 1,
        counts.len() == height * width,
    ensures
        banded_shade_spec(counts, plan, width) == shade_spec(counts),
    decreases plan.len(),
{
    let last = plan.last();
    assert((last.top + last.height) * width == last.top * width + last.height * width)
        by (nonlinear_arith);
    assert((last.top + last.height) * width == height * width);
    if plan.len() == 1 {
        assert(last.top == 0);
        let none: Seq<Band> = plan.drop_last();
        assert(none.len() == 0);
        assert(banded_shade_spec(counts, none, width) =~= Seq::<u8>::empty());
        assert(banded_shade_spec(counts, plan, width) =~= shade_spec(
            band_slice(counts, last, width),
        ));
        assert(band_slice(counts, last, width) =~= counts);
    } else {
        let prefix = plan.drop_last();
        assert(prefix.last() == plan[plan.len() - 2]);
        assert(plan[plan.len() - 2 + 1].top == plan[plan.len() - 2].top + plan[plan.len()
            - 2].height);
        assert(plan_shape(prefix, last.top as int, bh));
        assert(last.top * width >= 0) by (nonlinear_arith)
            requires
                last.top >= 0,
                width >= 1,
        ;
        assert(last.top * width <= counts.len()) by {
            assert(last.height * width >= 0) by (nonlinear_arith)
                requires
                    last.height >= 0,
                    width >= 1,
            ;
        }
        let sub = counts.subrange(0, last.top * width);
        law_band_invariance(sub, prefix, width, last.top as int, bh);
        lemma_shade_split(counts, last.top * width);
        assert(band_slice(counts, last, width) =~= counts.subrange(
            last.top * width,
            counts.len() as int,
        ));
        assert forall|i: int|
            0 <= i < prefix.len() implies 0 <= (#[trigger] prefix[i].top) * width && (prefix[i].top
            + prefix[i].height) * width <= sub.len() by {
            lemma_band_in_grid(prefix, last.top as int, bh, i);
            assert(0 <= prefix[i].top * width && (prefix[i].top + prefix[i].height) * width
                <= last.top * width) by (nonlinear_arith)
                requires
                    0 <= prefix[i].top,
                    0 <= prefix[i].height,
                    prefix[i].top + prefix[i].height <= last.top,
                    width >= 1,
            ;
        }
        lemma_banded_shade_stable(counts, sub, prefix, width);
    }
}

/// A band plan only reads the rows below its own height, so shading its
/// bands against the whole grid or against just those rows is the same.
proof fn lemma_banded_shade_stable(
    counts: Seq<Option<u32>>,
    sub: Seq<Option<u32>>,
    plan: Seq<Band>,
    width: int,
)
    requires
        width >= 0,
        sub.len() <= counts.len(),
        sub =~= counts.subrange(0, sub.len() as int),
        forall|i: int|
            0 <= i < plan.len() ==> 0 <= (#[trigger] plan[i].top) * width && (plan[i].top
                + plan[i].height) * width <= sub.len(),
    ensures
        banded_shade_spec(counts, plan, width) == banded_shade_spec(sub, plan, width),
    decreases plan.len(),
{
    if plan.len() == 0 {
    } else {
        let last = plan.last();
        assert(0 <= last.top * width && (last.top + last.height) * width <= sub.len());
        assert(last.top * width <= (last.top + last.height) * width) by (nonlinear_arith)
            requires
                width >= 0,
                last.height >= 0,
                last.top >= 0,
        ;
        assert(band_slice(counts, last, width) =~= band_slice(sub, last, width));
        lemma_banded_shade_stable(counts, sub, plan.drop_last(), width);
    }
}

/// Shade the grid band by band, exactly as the parallel render does —
/// each band of the plan shaded on its own and written into its own rows
/// — and prove the result identical to the one-pass render.
pub fn render_banded(counts: &Vec<Option<u32>>, width: usize, height: usize, workers: usize) -> (pixels: Vec<u8>)
    requires
        counts_ok(counts@),
        1 <= width,
        1 <= height,
        1 <= workers,
        counts@.len() == height * width,
    ensures
        pixels@ == shade_spec(counts@),
{
    let plan = plan_bands(height, workers);
    let ghost bh = ceil_div(height as int, workers as int);
    let mut pixels: Vec<u8> = Vec::new();
    let mut b: usize = 0;
    proof {
        assert(plan@.subrange(0, 0) =~= Seq::<Band>::empty());
    }
    while b < plan.len()
        invariant
            counts_ok(counts@),
            1 <= width,
            1 <= height,
            counts@.len() == height * width,
            plan_shape(plan@, height as int, bh),
            b <= plan@.len(),
            pixels@ == banded_shade_spec(counts@, plan@.subrange(0, b as int), width as int),
            b < plan@.len() ==> pixels@.len() == plan@[b as int].top * width,
            b == plan@.len() ==> pixels@.len() == counts@.len(),
        decreases plan@.len() - b,
    {
        let band = plan[b];
        let total = counts.len();
        proof {
            lemma_band_in_grid(plan@, height as int, bh, b as int);
            assert((band.top + band.height) * width == band.top * width + band.height * width)
                by (nonlinear_arith);
            assert(0 <= band.top * width && 0 <= band.height * width && (band.top + band.height)
                * width <= height * width) by (nonlinear_arith)
                requires
                    band.top + band.height <= height,
                    band.top >= 0,
                    band.height >= 0,
                    width >= 1,
            ;
            assert(height * width == total);
        }
        let start = band.top * width;
        let end = start + band.height * width;
        let mut i: usize = start;
        while i < end
            invariant
                counts_ok(counts@),
                plan@[b as int] == band,
                b < plan@.len(),
                band.top * width == start,
                start <= i <= end,
                end == (band.top + band.height) * width,
                end <= counts@.len(),
                pixels@.len() == i,
                pixels@ == banded_shade_spec(counts@, plan@.subrange(0, b as int), width as int)
                    + shade_spec(counts@.subrange(start as int, i as int)),
            decreases end - i,
        {
            let p = intensity(counts[i]);
            pixels.push(p);
            proof {
                assert(counts@.subrange(start as int, i + 1).drop_last() =~= counts@.subrange(
                    start as int,
                    i as int,
                ));
                assert(shade_spec(counts@.subrange(start as int, i + 1)) =~= shade_spec(
                    counts@.subrange(start as int, i as int),
                ).push(intensity_spec(counts@[i as int])));
            }
            i = i + 1;
        }
        proof {
            assert(plan@.subrange(0, b + 1).drop_last() =~= plan@.subrange(0, b as int));
            assert(plan@.subrange(0, b + 1).last() == band);
            assert(banded_shade_spec(counts@, plan@.subrange(0, b + 1), width as int)
                == banded_shade_spec(counts@, plan@.subrange(0, b as int), width as int)
                + shade_spec(band_slice(counts@, band, width as int)));
            if b + 1 < plan@.len() {
                assert(plan@[b as int + 1].top == band.top + band.height);
            } else {
                assert(band.top + band.height == height);
                assert(height * width == (band.top + band.height) * width);
            }
        }
        b = b + 1;
    }
    proof {
        assert(plan@.subrange(0, plan@.len() as int) =~= plan@);
        law_band_invariance(counts@, plan@, width as int, height as int, bh);
    }
    pixels
}

} // verus!
