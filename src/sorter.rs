//! The pixel-sorting engine: algorithm selection, parameters, and the
//! top-level transform.
use vstd::prelude::*;
use crate::pixel::{Pixel, luma};
use crate::line::{gather, sorted_between, is_line_sorted, lemma_sorted_line_unchanged};
use crate::raster::Raster;
use crate::hue::{
    hue_rotated, hue_color, tinted, shift_pixel_hue, hue_to_rgb_pixel, blend_tint_preserve_luminance,
    lemma_hue_round_trip,
};
use crate::traverse::{
    all_lines_sorted, is_chain, views, rows, row_line, columns, diagonals, lemma_rows, lemma_columns,
    lemma_diagonals, sort_disjoint_lines, sort_lines_in_turn, row_lines, column_lines, diagonal_lines,
};
use crate::radial::{rays, ray_lines, lemma_rays_clipped};

verus! {

broadcast use vstd::multiset::group_multiset_properties;

/// The traversal along which pixels are sorted.
#[derive(Clone, Copy, Debug, PartialEq, Eq, Structural)]
pub enum SortingAlgorithm {
    Horizontal,
    Vertical,
    Diagonal,
    Radial,
}

/// The algorithm after `a`, wrapping from the last back to the first.
pub open spec fn next_algorithm(a: SortingAlgorithm) -> SortingAlgorithm {
    match a {
        SortingAlgorithm::Horizontal => SortingAlgorithm::Vertical,
        SortingAlgorithm::Vertical => SortingAlgorithm::Diagonal,
        SortingAlgorithm::Diagonal => SortingAlgorithm::Radial,
        SortingAlgorithm::Radial => SortingAlgorithm::Horizontal,
    }
}

/// Every algorithm, in cycling order.
pub open spec fn all_algorithms() -> Seq<SortingAlgorithm> {
    seq![
        SortingAlgorithm::Horizontal,
        SortingAlgorithm::Vertical,
        SortingAlgorithm::Diagonal,
        SortingAlgorithm::Radial,
    ]
}

impl SortingAlgorithm {
    /// Every algorithm, in cycling order.
    pub fn all() -> (r: Vec<SortingAlgorithm>)
        ensures
            r@ == all_algorithms(),
    {
        let r = vec![
            SortingAlgorithm::Horizontal,
            SortingAlgorithm::Vertical,
            SortingAlgorithm::Diagonal,
            SortingAlgorithm::Radial,
        ];
        proof {
            assert(r@ =~= all_algorithms());
        }
        r
    }

    /// Display name.
    pub fn name(&self) -> (r: &'static str)
        ensures
            *self == SortingAlgorithm::Horizontal ==> r@ == "Horizontal"@,
            *self == SortingAlgorithm::Vertical ==> r@ == "Vertical"@,
            *self == SortingAlgorithm::Diagonal ==> r@ == "Diagonal"@,
            *self == SortingAlgorithm::Radial ==> r@ == "Radial"@,
    {
        match self {
            SortingAlgorithm::Horizontal => "Horizontal",
            SortingAlgorithm::Vertical => "Vertical",
            SortingAlgorithm::Diagonal => "Diagonal",
            SortingAlgorithm::Radial => "Radial",
        }
    }

    /// The next algorithm in cycling order; the last wraps to the first.
    pub fn next(&self) -> (r: SortingAlgorithm)
        ensures
            r == next_algorithm(*self),
    {
        match self {
            SortingAlgorithm::Horizontal => SortingAlgorithm::Vertical,
            SortingAlgorithm::Vertical => SortingAlgorithm::Diagonal,
            SortingAlgorithm::Diagonal => SortingAlgorithm::Radial,
            SortingAlgorithm::Radial => SortingAlgorithm::Horizontal,
        }
    }
}

/// Parameters of one sorting run.
#[derive(Clone, Copy, Debug, PartialEq, Eq, Structural)]
pub struct SortingParameters {
    /// Luminance step that starts a new interval, in thousandths of a
    /// luminance unit (`0 ..= 255000`).
    pub threshold: u32,
    /// Hue rotation applied before sorting, in degrees; 0 for none.
    pub hue_shift: u32,
    /// Hue of the tint blended in after sorting, in degrees; 0 for none.
    pub color_tint: u32,
}

/// Default interval threshold: 50 luminance units.
pub const DEFAULT_THRESHOLD: u32 = 50000;

impl Default for SortingParameters {
    fn default() -> (p: SortingParameters)
        ensures
            p == (SortingParameters { threshold: DEFAULT_THRESHOLD, hue_shift: 0, color_tint: 0 }),
    {
        SortingParameters { threshold: DEFAULT_THRESHOLD, hue_shift: 0, color_tint: 0 }
    }
}

/// Nominal strength of the post-sort tint, in percent.
pub const TINT_STRENGTH_PERCENT: u32 = 20;

/// Every pixel of `s` with its hue turned by `degrees`.
pub open spec fn hue_shifted(s: Seq<Pixel>, degrees: int) -> Seq<Pixel> {
    Seq::new(s.len(), |i: int| hue_rotated(s[i], degrees))
}

/// Every pixel of `s` tinted toward the colour of hue `tint_hue`.
pub open spec fn tint_applied(s: Seq<Pixel>, tint_hue: int) -> Seq<Pixel> {
    Seq::new(s.len(), |i: int| tinted(s[i], hue_color(tint_hue), TINT_STRENGTH_PERCENT as int))
}

/// `after` is `before` (a `w` by `h` buffer) sorted along the lines of
/// `algorithm` under threshold `t`: rows, columns and diagonals share no
/// pixel; rays are sorted one after another.
pub open spec fn is_sorted_by(
    algorithm: SortingAlgorithm,
    before: Seq<Pixel>,
    after: Seq<Pixel>,
    w: int,
    h: int,
    t: int,
) -> bool {
    &&& after.len() == before.len()
    &&& after.to_multiset() == before.to_multiset()
    &&& match algorithm {
        SortingAlgorithm::Horizontal => all_lines_sorted(before, after, rows(w, h), t),
        SortingAlgorithm::Vertical => all_lines_sorted(before, after, columns(w, h), t),
        SortingAlgorithm::Diagonal => all_lines_sorted(before, after, diagonals(w, h), t),
        SortingAlgorithm::Radial => exists|states: Seq<Seq<Pixel>>| #![auto]
            is_chain(states, rays(w, h), t) && states[0] == before && states.last() == after,
    }
}

/// The buffer that sorting starts from: the input, hue-rotated when a hue
/// shift is set.
pub open spec fn presorted(image: Raster, params: SortingParameters) -> Seq<Pixel> {
    if params.hue_shift != 0 {
        hue_shifted(image.pixels@, params.hue_shift as int)
    } else {
        image.pixels@
    }
}

/// `result` is a valid outcome of sorting `image` with `algorithm` and
/// `params`.
pub open spec fn is_sort_result(
    image: Raster,
    algorithm: SortingAlgorithm,
    params: SortingParameters,
    result: Raster,
) -> bool {
    &&& result.wf()
    &&& result.width == image.width
    &&& result.height == image.height
    &&& is_sorted_by(
        algorithm,
        presorted(image, params),
        result.pixels@,
        image.width as int,
        image.height as int,
        params.threshold as int,
    )
}

/// A copy of `image`.
fn copy_raster(image: &Raster) -> (r: Raster)
    ensures
        r.width == image.width,
        r.height == image.height,
        r.pixels@ == image.pixels@,
{
    let mut pixels: Vec<Pixel> = Vec::new();
    let mut i: usize = 0;
    while i < image.pixels.len()
        invariant
            i <= image.pixels@.len(),
            pixels@ == image.pixels@.subrange(0, i as int),
        decreases image.pixels@.len() - i,
    {
        pixels.push(image.pixels[i]);
        i = i + 1;
        proof {
            assert(pixels@ =~= image.pixels@.subrange(0, i as int));
        }
    }
    proof {
        assert(pixels@ =~= image.pixels@);
    }
    Raster { width: image.width, height: image.height, pixels }
}

/// The pixel-sorting engine.
#[derive(Clone, Copy, Debug)]
pub struct PixelSorter;

impl PixelSorter {
    pub fn new() -> (s: PixelSorter) {
        PixelSorter
    }

    /// Luminance of a pixel, in thousandths (`0 ..= 255000`).
    pub fn pixel_brightness(&self, p: &Pixel) -> (l: u32)
        ensures
            l as int == luma(*p),
    {
        p.luminance()
    }

    /// Sorts a copy of `image`: hue rotation first when `params.hue_shift`
    /// is set, then the traversal of `algorithm`. The input is untouched.
    pub fn sort_pixels(
        &self,
        image: &Raster,
        algorithm: SortingAlgorithm,
        params: &SortingParameters,
    ) -> (result: Raster)
        requires
            image.wf(),
        ensures
            is_sort_result(*image, algorithm, *params, result),
            params.hue_shift == 0 ==> result.pixels@.to_multiset() == image.pixels@.to_multiset(),
    {
        let mut result = copy_raster(image);
        if params.hue_shift != 0 {
            self.apply_hue_shift(&mut result, params.hue_shift);
        }
        match algorithm {
            SortingAlgorithm::Horizontal => self.sort_horizontal(&mut result, params),
            SortingAlgorithm::Vertical => self.sort_vertical(&mut result, params),
            SortingAlgorithm::Diagonal => self.sort_diagonal(&mut result, params),
            SortingAlgorithm::Radial => self.sort_radial(&mut result, params),
        }
        result
    }

    /// Same transform as `sort_pixels`, for on-screen preview.
    pub fn preview_sort(
        &self,
        image: &Raster,
        algorithm: SortingAlgorithm,
        params: &SortingParameters,
    ) -> (result: Raster)
        requires
            image.wf(),
        ensures
            is_sort_result(*image, algorithm, *params, result),
    {
        let preview_params = SortingParameters {
            threshold: params.threshold,
            hue_shift: params.hue_shift,
            color_tint: params.color_tint,
        };
        self.sort_pixels(image, algorithm, &preview_params)
    }

    /// Sorts every row.
    pub fn sort_horizontal(&self, image: &mut Raster, params: &SortingParameters)
        requires
            old(image).wf(),
        ensures
            final(image).wf(),
            final(image).width == old(image).width,
            final(image).height == old(image).height,
            is_sorted_by(
                SortingAlgorithm::Horizontal,
                old(image).pixels@,
                final(image).pixels@,
                old(image).width as int,
                old(image).height as int,
                params.threshold as int,
            ),
    {
        let _n = image.pixels.len();
        proof {
            lemma_rows(image.width as int, image.height as int);
        }
        let lines = row_lines(image.width, image.height);
        sort_disjoint_lines(&mut image.pixels, &lines, params.threshold);
    }

    /// Sorts every column.
    pub fn sort_vertical(&self, image: &mut Raster, params: &SortingParameters)
        requires
            old(image).wf(),
        ensures
            final(image).wf(),
            final(image).width == old(image).width,
            final(image).height == old(image).height,
            is_sorted_by(
                SortingAlgorithm::Vertical,
                old(image).pixels@,
                final(image).pixels@,
                old(image).width as int,
                old(image).height as int,
                params.threshold as int,
            ),
    {
        let _n = image.pixels.len();
        proof {
            lemma_columns(image.width as int, image.height as int);
        }
        let lines = column_lines(image.width, image.height);
        sort_disjoint_lines(&mut image.pixels, &lines, params.threshold);
    }

    /// Sorts every top-left to bottom-right diagonal.
    pub fn sort_diagonal(&self, image: &mut Raster, params: &SortingParameters)
        requires
            old(image).wf(),
        ensures
            final(image).wf(),
            final(image).width == old(image).width,
            final(image).height == old(image).height,
            is_sorted_by(
                SortingAlgorithm::Diagonal,
                old(image).pixels@,
                final(image).pixels@,
                old(image).width as int,
                old(image).height as int,
                params.threshold as int,
            ),
    {
        let _n = image.pixels.len();
        proof {
            lemma_diagonals(image.width as int, image.height as int);
        }
        let lines = diagonal_lines(image.width, image.height);
        sort_disjoint_lines(&mut image.pixels, &lines, params.threshold);
    }

    /// Sorts along each ray from the centre, one ray after another.
    pub fn sort_radial(&self, image: &mut Raster, params: &SortingParameters)
        requires
            old(image).wf(),
        ensures
            final(image).wf(),
            final(image).width == old(image).width,
            final(image).height == old(image).height,
            is_sorted_by(
                SortingAlgorithm::Radial,
                old(image).pixels@,
                final(image).pixels@,
                old(image).width as int,
                old(image).height as int,
                params.threshold as int,
            ),
    {
        let _n = image.pixels.len();
        proof {
            lemma_rays_clipped(image.width as int, image.height as int);
        }
        let lines = ray_lines(image.width, image.height);
        sort_lines_in_turn(&mut image.pixels, &lines, params.threshold);
    }

    /// Turns the hue of every pixel by `degrees`.
    pub fn apply_hue_shift(&self, image: &mut Raster, degrees: u32)
        requires
            old(image).wf(),
        ensures
            final(image).wf(),
            final(image).width == old(image).width,
            final(image).height == old(image).height,
            final(image).pixels@ == hue_shifted(old(image).pixels@, degrees as int),
    {
        let ghost p0 = image.pixels@;
        let mut i: usize = 0;
        while i < image.pixels.len()
            invariant
                image.pixels@.len() == p0.len(),
                image.width == old(image).width,
                image.height == old(image).height,
                p0 == old(image).pixels@,
                i <= p0.len(),
                forall|k: int| 0 <= k < i ==> image.pixels@[k] == hue_rotated(p0[k], degrees as int),
                forall|k: int| i <= k < p0.len() ==> image.pixels@[k] == p0[k],
            decreases p0.len() - i,
        {
            let q = shift_pixel_hue(&image.pixels[i], degrees);
            image.pixels.set(i, q);
            i = i + 1;
        }
        proof {
            assert(image.pixels@ =~= hue_shifted(p0, degrees as int));
        }
    }

    /// Blends every pixel toward the colour of hue `tint_hue` (the
    /// post-sort tint; see `blend_tint_preserve_luminance`).
    pub fn apply_tint_to_image(&self, image: &mut Raster, tint_hue: u32)
        requires
            old(image).wf(),
        ensures
            final(image).wf(),
            final(image).width == old(image).width,
            final(image).height == old(image).height,
            final(image).pixels@ == tint_applied(old(image).pixels@, tint_hue as int),
    {
        let ghost p0 = image.pixels@;
        let tint = hue_to_rgb_pixel(tint_hue);
        let mut i: usize = 0;
        while i < image.pixels.len()
            invariant
                image.pixels@.len() == p0.len(),
                image.width == old(image).width,
                image.height == old(image).height,
                p0 == old(image).pixels@,
                tint == hue_color(tint_hue as int),
                i <= p0.len(),
                forall|k: int| 0 <= k < i ==> image.pixels@[k] == tinted(
                    p0[k],
                    hue_color(tint_hue as int),
                    TINT_STRENGTH_PERCENT as int,
                ),
                forall|k: int| i <= k < p0.len() ==> image.pixels@[k] == p0[k],
            decreases p0.len() - i,
        {
            let q = blend_tint_preserve_luminance(&image.pixels[i], &tint, TINT_STRENGTH_PERCENT);
            image.pixels.set(i, q);
            i = i + 1;
        }
        proof {
            assert(image.pixels@ =~= tint_applied(p0, tint_hue as int));
        }
    }
}

/// A horizontal pass over a raster whose every row already has
/// non-decreasing luminance changes nothing; so a second pass with the same
/// parameters gives exactly what the first gave.
pub proof fn lemma_horizontal_idempotent_on_gradients(
    before: Seq<Pixel>,
    once: Seq<Pixel>,
    twice: Seq<Pixel>,
    w: int,
    h: int,
    t: int,
)
    requires
        0 <= w,
        0 <= h,
        before.len() == w * h,
        w * h <= usize::MAX,
        forall|y: int| 0 <= y < h ==> sorted_between(#[trigger] gather(before, row_line(w, y)), 0, w),
        is_sorted_by(SortingAlgorithm::Horizontal, before, once, w, h, t),
        is_sorted_by(SortingAlgorithm::Horizontal, once, twice, w, h, t),
    ensures
        once == before,
        twice == once,
{
    lemma_gradient_pass_unchanged(before, once, w, h, t);
    lemma_gradient_pass_unchanged(once, twice, w, h, t);
}

/// One horizontal pass over rows of non-decreasing luminance is the identity.
proof fn lemma_gradient_pass_unchanged(before: Seq<Pixel>, after: Seq<Pixel>, w: int, h: int, t: int)
    requires
        0 <= w,
        0 <= h,
        before.len() == w * h,
        w * h <= usize::MAX,
        forall|y: int| 0 <= y < h ==> sorted_between(#[trigger] gather(before, row_line(w, y)), 0, w),
        is_sorted_by(SortingAlgorithm::Horizontal, before, after, w, h, t),
    ensures
        after == before,
{
    assert forall|i: int| 0 <= i < before.len() implies after[i] == before[i] by {
        assert(w > 0) by {
            if w == 0 {
                assert(w * h == 0);
            }
        }
        let x = i % w;
        let y = i / w;
        vstd::arithmetic::div_mod::lemma_fundamental_div_mod(i, w);
        vstd::arithmetic::div_mod::lemma_mod_bound(i, w);
        assert(0 <= y < h) by {
            if y >= h {
                assert(w * y + x >= w * h) by (nonlinear_arith)
                    requires
                        y >= h,
                        x >= 0,
                        w > 0,
                ;
            }
            if y < 0 {
                assert(w * y + x < 0) by (nonlinear_arith)
                    requires
                        y < 0,
                        x < w,
                        w > 0,
                ;
            }
        }
        let row = row_line(w, y);
        assert(rows(w, h)[y] == row);
        assert(is_line_sorted(gather(before, row), gather(after, row), t));
        assert(gather(before, row).len() == w);
        lemma_sorted_line_unchanged(gather(before, row), gather(after, row), t);
        assert(y * w == w * y) by (nonlinear_arith);
        assert(row[x] as int == i);
        assert(gather(after, row)[x] == after[i]);
        assert(gather(before, row)[x] == before[i]);
    }
    assert(after =~= before);
}

/// Shifting the hue of a whole buffer by `degrees` and then by
/// `360 - degrees` leaves every channel of every pixel within one of where
/// it was.
pub proof fn lemma_buffer_hue_round_trip(s: Seq<Pixel>, degrees: int)
    requires
        0 <= degrees <= 360,
    ensures
        hue_shifted(hue_shifted(s, degrees), 360 - degrees).len() == s.len(),
        forall|i: int| 0 <= i < s.len() ==> {
            let q = #[trigger] hue_shifted(hue_shifted(s, degrees), 360 - degrees)[i];
            &&& -1 <= q.r - s[i].r <= 1
            &&& -1 <= q.g - s[i].g <= 1
            &&& -1 <= q.b - s[i].b <= 1
        },
{
    assert forall|i: int| 0 <= i < s.len() implies {
        let q = #[trigger] hue_shifted(hue_shifted(s, degrees), 360 - degrees)[i];
        &&& -1 <= q.r - s[i].r <= 1
        &&& -1 <= q.g - s[i].g <= 1
        &&& -1 <= q.b - s[i].b <= 1
    } by {
        lemma_hue_round_trip(s[i], degrees);
    }
}

} // verus!
