//! Traversal strategies: the families of lines (rows, columns, diagonals,
//! rays) along which a raster is sorted, and the passes that sort them.
use vstd::prelude::*;
use crate::pixel::Pixel;
use crate::raster::{idx, lemma_idx};
use crate::line::{gather, valid_line, off_line, is_line_sorted, sort_line};

verus! {

broadcast use vstd::multiset::group_multiset_properties;

/// The lines, seen as sequences of buffer positions.
pub open spec fn views(lines: Seq<Vec<usize>>) -> Seq<Seq<usize>> {
    Seq::new(lines.len(), |k: int| lines[k]@)
}

/// Every line is valid for a buffer of length `n`.
pub open spec fn lines_valid(lines: Seq<Seq<usize>>, n: int) -> bool {
    forall|l: int| 0 <= l < lines.len() ==> valid_line(#[trigger] lines[l], n)
}

/// No buffer position lies on two different lines.
pub open spec fn lines_disjoint(lines: Seq<Seq<usize>>) -> bool {
    forall|l: int, m: int, k: int, j: int|
        0 <= l < lines.len() && 0 <= m < lines.len() && l != m && 0 <= k < lines[l].len()
            && 0 <= j < lines[m].len() ==> #[trigger] lines[l][k] != #[trigger] lines[m][j]
}

/// Every line of `lines` is sorted from `before` to `after` (the lines do
/// not share pixels, so the order in which they are taken does not matter).
pub open spec fn all_lines_sorted(
    before: Seq<Pixel>,
    after: Seq<Pixel>,
    lines: Seq<Seq<usize>>,
    t: int,
) -> bool {
    forall|l: int| 0 <= l < lines.len() ==> is_line_sorted(
        gather(before, #[trigger] lines[l]),
        gather(after, lines[l]),
        t,
    )
}

/// One step: `after` is `before` with `line` sorted and every pixel off the
/// line kept.
pub open spec fn is_step(before: Seq<Pixel>, after: Seq<Pixel>, line: Seq<usize>, t: int) -> bool {
    &&& after.len() == before.len()
    &&& forall|i: int| 0 <= i < before.len() && off_line(line, i) ==> after[i] == before[i]
    &&& is_line_sorted(gather(before, line), gather(after, line), t)
}

/// `states` are the buffers before and after each line is sorted in turn.
pub open spec fn is_chain(states: Seq<Seq<Pixel>>, lines: Seq<Seq<usize>>, t: int) -> bool {
    &&& states.len() == lines.len() + 1
    &&& forall|k: int| 0 <= k < lines.len() ==> is_step(#[trigger] states[k], states[k + 1], lines[k], t)
}

/// Sorts each of a family of lines that share no pixel.
pub fn sort_disjoint_lines(pixels: &mut Vec<Pixel>, lines: &Vec<Vec<usize>>, threshold: u32)
    requires
        lines_valid(views(lines@), old(pixels)@.len() as int),
        lines_disjoint(views(lines@)),
    ensures
        final(pixels)@.len() == old(pixels)@.len(),
        final(pixels)@.to_multiset() == old(pixels)@.to_multiset(),
        all_lines_sorted(old(pixels)@, final(pixels)@, views(lines@), threshold as int),
{
    let ghost p0 = pixels@;
    let ghost ls = views(lines@);
    let mut l: usize = 0;
    while l < lines.len()
        invariant
            ls == views(lines@),
            lines_valid(ls, pixels@.len() as int),
            lines_disjoint(ls),
            l <= ls.len(),
            pixels@.len() == p0.len(),
            pixels@.to_multiset() == p0.to_multiset(),
            forall|m: int| l <= m < ls.len() ==> gather(pixels@, #[trigger] ls[m]) == gather(p0, ls[m]),
            forall|m: int| 0 <= m < l ==> is_line_sorted(
                gather(p0, #[trigger] ls[m]),
                gather(pixels@, ls[m]),
                threshold as int,
            ),
        decreases ls.len() - l,
    {
        let ghost before = pixels@;
        proof {
            assert(valid_line(ls[l as int], pixels@.len() as int));
        }
        sort_line(pixels, &lines[l], threshold);
        proof {
            assert(ls[l as int] == lines@[l as int]@);
            assert forall|m: int| 0 <= m < ls.len() && m != l implies gather(pixels@, #[trigger] ls[m])
                == gather(before, ls[m]) by {
                assert(valid_line(ls[m], before.len() as int));
                assert forall|j: int| 0 <= j < ls[m].len() implies pixels@[#[trigger] ls[m][j] as int]
                    == before[ls[m][j] as int] by {
                    assert forall|k: int| 0 <= k < ls[l as int].len() implies (
                    #[trigger] ls[l as int][k]) as int != ls[m][j] as int by {}
                    assert(off_line(ls[l as int], ls[m][j] as int));
                    assert(ls[m][j] < before.len());
                }
                assert(gather(pixels@, ls[m]) =~= gather(before, ls[m]));
            }
        }
        l = l + 1;
    }
}

/// Sorts a family of lines one after another; later lines see what earlier
/// ones left.
pub fn sort_lines_in_turn(pixels: &mut Vec<Pixel>, lines: &Vec<Vec<usize>>, threshold: u32)
    requires
        lines_valid(views(lines@), old(pixels)@.len() as int),
    ensures
        final(pixels)@.len() == old(pixels)@.len(),
        final(pixels)@.to_multiset() == old(pixels)@.to_multiset(),
        exists|states: Seq<Seq<Pixel>>| #![auto]
            is_chain(states, views(lines@), threshold as int) && states[0] == old(pixels)@
                && states.last() == final(pixels)@,
{
    let ghost p0 = pixels@;
    let ghost ls = views(lines@);
    let ghost mut states: Seq<Seq<Pixel>> = seq![p0];
    let mut l: usize = 0;
    while l < lines.len()
        invariant
            ls == views(lines@),
            lines_valid(ls, pixels@.len() as int),
            l <= ls.len(),
            pixels@.len() == p0.len(),
            pixels@.to_multiset() == p0.to_multiset(),
            states.len() == l + 1,
            states[0] == p0,
            states.last() == pixels@,
            forall|k: int| 0 <= k < l ==> is_step(#[trigger] states[k], states[k + 1], ls[k], threshold as int),
        decreases ls.len() - l,
    {
        let ghost before = pixels@;
        proof {
            assert(valid_line(ls[l as int], pixels@.len() as int));
        }
        sort_line(pixels, &lines[l], threshold);
        proof {
            assert(ls[l as int] == lines@[l as int]@);
            let s0 = states;
            states = states.push(pixels@);
            assert forall|k: int| 0 <= k < l + 1 implies is_step(#[trigger] states[k], states[k + 1], ls[k], threshold as int) by {
                if k < l {
                    assert(states[k] == s0[k] && states[k + 1] == s0[k + 1]);
                } else {
                    assert(states[k] == before);
                }
            }
        }
        l = l + 1;
    }
    proof {
        assert(is_chain(states, ls, threshold as int));
    }
}

/// Row `y`: the pixels `(x, y)` for `x` in `0 .. w`.
pub open spec fn row_line(w: int, y: int) -> Seq<usize> {
    Seq::new(w as nat, |x: int| idx(w, x, y) as usize)
}

/// All rows, top to bottom.
pub open spec fn rows(w: int, h: int) -> Seq<Seq<usize>> {
    Seq::new(h as nat, |y: int| row_line(w, y))
}

/// Column `x`: the pixels `(x, y)` for `y` in `0 .. h`.
pub open spec fn col_line(w: int, h: int, x: int) -> Seq<usize> {
    Seq::new(h as nat, |y: int| idx(w, x, y) as usize)
}

/// All columns, left to right.
pub open spec fn columns(w: int, h: int) -> Seq<Seq<usize>> {
    Seq::new(w as nat, |x: int| col_line(w, h, x))
}

pub open spec fn min(a: int, b: int) -> int {
    if a <= b { a } else { b }
}

/// Number of pixels on the diagonal with offset `o` (`x - y == o`).
pub open spec fn diag_len(w: int, h: int, o: int) -> int {
    if o >= 0 { min(h, w - o) } else { min(w, h + o) }
}

/// Column of the `i`-th pixel of the diagonal with offset `o`.
pub open spec fn diag_x(o: int, i: int) -> int {
    if o >= 0 { i + o } else { i }
}

/// Row of the `i`-th pixel of the diagonal with offset `o`.
pub open spec fn diag_y(o: int, i: int) -> int {
    if o >= 0 { i } else { i - o }
}

/// The top-left to bottom-right diagonal with offset `o`, from its first
/// pixel on the top or left edge.
pub open spec fn diag_line(w: int, h: int, o: int) -> Seq<usize> {
    Seq::new(diag_len(w, h, o) as nat, |i: int| idx(w, diag_x(o, i), diag_y(o, i)) as usize)
}

/// All diagonals, offsets `-(h - 1)` to `w - 1`.
pub open spec fn diagonals(w: int, h: int) -> Seq<Seq<usize>> {
    if w == 0 || h == 0 {
        Seq::empty()
    } else {
        Seq::new((w + h - 1) as nat, |k: int| diag_line(w, h, k - (h - 1)))
    }
}

/// A family of lines whose entries are the positions of distinct in-bounds
/// coordinates is valid and disjoint.
pub proof fn lemma_coordinate_lines(
    fam: Seq<Seq<usize>>,
    w: int,
    h: int,
    fx: spec_fn(int, int) -> int,
    fy: spec_fn(int, int) -> int,
)
    requires
        forall|l: int, k: int| 0 <= l < fam.len() && 0 <= k < fam[l].len() ==> {
            &&& 0 <= #[trigger] fx(l, k) < w
            &&& 0 <= fy(l, k) < h
            &&& fam[l][k] as int == idx(w, fx(l, k), fy(l, k))
        },
        forall|l: int, k: int, m: int, j: int|
            0 <= l < fam.len() && 0 <= k < fam[l].len() && 0 <= m < fam.len() && 0 <= j < fam[m].len()
                && (l != m || k != j) ==> #[trigger] fx(l, k) != #[trigger] fx(m, j) || fy(l, k) != fy(m, j),
    ensures
        lines_valid(fam, w * h),
        lines_disjoint(fam),
{
    assert forall|l: int| 0 <= l < fam.len() implies valid_line(#[trigger] fam[l], w * h) by {
        assert forall|k: int| 0 <= k < fam[l].len() implies (#[trigger] fam[l][k]) < w * h by {
            assert(0 <= fx(l, k) < w);
            lemma_idx(w, h, fx(l, k), fy(l, k), fx(l, k), fy(l, k));
        }
        assert forall|k: int, j: int| 0 <= k < fam[l].len() && 0 <= j < fam[l].len() && k != j
            implies #[trigger] fam[l][k] != #[trigger] fam[l][j] by {
            assert(0 <= fx(l, k) < w);
            assert(0 <= fx(l, j) < w);
            lemma_idx(w, h, fx(l, k), fy(l, k), fx(l, j), fy(l, j));
        }
    }
    assert forall|l: int, m: int, k: int, j: int|
        0 <= l < fam.len() && 0 <= m < fam.len() && l != m && 0 <= k < fam[l].len()
            && 0 <= j < fam[m].len() implies #[trigger] fam[l][k] != #[trigger] fam[m][j] by {
        assert(0 <= fx(l, k) < w);
        assert(0 <= fx(m, j) < w);
        lemma_idx(w, h, fx(l, k), fy(l, k), fx(m, j), fy(m, j));
    }
}

pub proof fn lemma_rows(w: int, h: int)
    requires
        0 <= w,
        0 <= h,
        w * h <= usize::MAX,
    ensures
        lines_valid(rows(w, h), w * h),
        lines_disjoint(rows(w, h)),
{
    let fam = rows(w, h);
    let fx = |l: int, k: int| k;
    let fy = |l: int, k: int| l;
    assert forall|l: int, k: int| 0 <= l < fam.len() && 0 <= k < fam[l].len() implies {
        &&& 0 <= #[trigger] fx(l, k) < w
        &&& 0 <= fy(l, k) < h
        &&& fam[l][k] as int == idx(w, fx(l, k), fy(l, k))
    } by {
        lemma_idx(w, h, k, l, k, l);
    }
    lemma_coordinate_lines(fam, w, h, fx, fy);
}

pub proof fn lemma_columns(w: int, h: int)
    requires
        0 <= w,
        0 <= h,
        w * h <= usize::MAX,
    ensures
        lines_valid(columns(w, h), w * h),
        lines_disjoint(columns(w, h)),
{
    let fam = columns(w, h);
    let fx = |l: int, k: int| l;
    let fy = |l: int, k: int| k;
    assert forall|l: int, k: int| 0 <= l < fam.len() && 0 <= k < fam[l].len() implies {
        &&& 0 <= #[trigger] fx(l, k) < w
        &&& 0 <= fy(l, k) < h
        &&& fam[l][k] as int == idx(w, fx(l, k), fy(l, k))
    } by {
        lemma_idx(w, h, l, k, l, k);
    }
    lemma_coordinate_lines(fam, w, h, fx, fy);
}

pub proof fn lemma_diagonals(w: int, h: int)
    requires
        0 <= w,
        0 <= h,
        w * h <= usize::MAX,
    ensures
        lines_valid(diagonals(w, h), w * h),
        lines_disjoint(diagonals(w, h)),
{
    let fam = diagonals(w, h);
    let fx = |l: int, k: int| diag_x(l - (h - 1), k);
    let fy = |l: int, k: int| diag_y(l - (h - 1), k);
    assert forall|l: int, k: int| 0 <= l < fam.len() && 0 <= k < fam[l].len() implies {
        &&& 0 <= #[trigger] fx(l, k) < w
        &&& 0 <= fy(l, k) < h
        &&& fam[l][k] as int == idx(w, fx(l, k), fy(l, k))
    } by {
        lemma_idx(w, h, fx(l, k), fy(l, k), fx(l, k), fy(l, k));
    }
    lemma_coordinate_lines(fam, w, h, fx, fy);
}

/// Index lists of all rows.
pub fn row_lines(w: u32, h: u32) -> (lines: Vec<Vec<usize>>)
    requires
        w as int * h as int <= usize::MAX,
    ensures
        views(lines@) == rows(w as int, h as int),
{
    let mut lines: Vec<Vec<usize>> = Vec::new();
    let mut y: u32 = 0;
    while y < h
        invariant
            y <= h,
            w as int * h as int <= usize::MAX,
            lines@.len() == y,
            forall|k: int| 0 <= k < y ==> (#[trigger] lines@[k])@ == row_line(w as int, k),
        decreases h - y,
    {
        let mut line: Vec<usize> = Vec::new();
        let mut x: u32 = 0;
        while x < w
            invariant
                x <= w,
                y < h,
                w as int * h as int <= usize::MAX,
                line@ == row_line(w as int, y as int).subrange(0, x as int),
            decreases w - x,
        {
            proof {
                lemma_idx(w as int, h as int, x as int, y as int, x as int, y as int);
            }
            line.push(y as usize * w as usize + x as usize);
            x = x + 1;
            proof {
                assert(line@ =~= row_line(w as int, y as int).subrange(0, x as int));
            }
        }
        proof {
            assert(line@ =~= row_line(w as int, y as int));
        }
        lines.push(line);
        y = y + 1;
    }
    proof {
        assert(views(lines@) =~= rows(w as int, h as int));
    }
    lines
}

/// Index lists of all columns.
pub fn column_lines(w: u32, h: u32) -> (lines: Vec<Vec<usize>>)
    requires
        w as int * h as int <= usize::MAX,
    ensures
        views(lines@) == columns(w as int, h as int),
{
    let mut lines: Vec<Vec<usize>> = Vec::new();
    let mut x: u32 = 0;
    while x < w
        invariant
            x <= w,
            w as int * h as int <= usize::MAX,
            lines@.len() == x,
            forall|k: int| 0 <= k < x ==> (#[trigger] lines@[k])@ == col_line(w as int, h as int, k),
        decreases w - x,
    {
        let mut line: Vec<usize> = Vec::new();
        let mut y: u32 = 0;
        while y < h
            invariant
                y <= h,
                x < w,
                w as int * h as int <= usize::MAX,
                line@ == col_line(w as int, h as int, x as int).subrange(0, y as int),
            decreases h - y,
        {
            proof {
                lemma_idx(w as int, h as int, x as int, y as int, x as int, y as int);
            }
            line.push(y as usize * w as usize + x as usize);
            y = y + 1;
            proof {
                assert(line@ =~= col_line(w as int, h as int, x as int).subrange(0, y as int));
            }
        }
        proof {
            assert(line@ =~= col_line(w as int, h as int, x as int));
        }
        lines.push(line);
        x = x + 1;
    }
    proof {
        assert(views(lines@) =~= columns(w as int, h as int));
    }
    lines
}

/// Index list of one diagonal; `k` counts offsets from `-(h - 1)`.
fn diagonal_line(w: u32, h: u32, k: u64) -> (line: Vec<usize>)
    requires
        0 < w,
        0 < h,
        k < w as int + h as int - 1,
        w as int * h as int <= usize::MAX,
    ensures
        line@ == diag_line(w as int, h as int, k - (h - 1)),
{
    let ghost o = k - (h - 1);
    let ghost spec_line = diag_line(w as int, h as int, o);
    let mut line: Vec<usize> = Vec::new();
    if k >= (h - 1) as u64 {
        let ou: u32 = (k - (h - 1) as u64) as u32;
        let n: u32 = if h <= w - ou { h } else { w - ou };
        let mut i: u32 = 0;
        while i < n
            invariant
                i <= n,
                o == ou as int,
                o >= 0,
                n as int == diag_len(w as int, h as int, o),
                w as int * h as int <= usize::MAX,
                spec_line == diag_line(w as int, h as int, o),
                line@ == spec_line.subrange(0, i as int),
            decreases n - i,
        {
            proof {
                lemma_idx(w as int, h as int, (i + ou) as int, i as int, (i + ou) as int, i as int);
            }
            line.push(i as usize * w as usize + (i + ou) as usize);
            i = i + 1;
            proof {
                assert(line@ =~= spec_line.subrange(0, i as int));
            }
        }
        proof {
            assert(line@ =~= spec_line);
        }
    } else {
        let nu: u32 = ((h - 1) as u64 - k) as u32;
        let n: u32 = if w <= h - nu { w } else { h - nu };
        let mut i: u32 = 0;
        while i < n
            invariant
                i <= n,
                o == -(nu as int),
                o < 0,
                n as int == diag_len(w as int, h as int, o),
                w as int * h as int <= usize::MAX,
                spec_line == diag_line(w as int, h as int, o),
                line@ == spec_line.subrange(0, i as int),
            decreases n - i,
        {
            proof {
                lemma_idx(w as int, h as int, i as int, (i + nu) as int, i as int, (i + nu) as int);
            }
            line.push((i + nu) as usize * w as usize + i as usize);
            i = i + 1;
            proof {
                assert(line@ =~= spec_line.subrange(0, i as int));
            }
        }
        proof {
            assert(line@ =~= spec_line);
        }
    }
    line
}

/// Index lists of all diagonals.
pub fn diagonal_lines(w: u32, h: u32) -> (lines: Vec<Vec<usize>>)
    requires
        w as int * h as int <= usize::MAX,
    ensures
        views(lines@) == diagonals(w as int, h as int),
{
    let mut lines: Vec<Vec<usize>> = Vec::new();
    if w == 0 || h == 0 {
        proof {
            assert(views(lines@) =~= diagonals(w as int, h as int));
        }
        return lines;
    }
    let count: u64 = w as u64 - 1 + h as u64;
    let mut k: u64 = 0;
    while k < count
        invariant
            0 < w,
            0 < h,
            count == w + h - 1,
            k <= count,
            w as int * h as int <= usize::MAX,
            lines@.len() == k,
            forall|j: int| 0 <= j < k ==> (#[trigger] lines@[j])@ == diag_line(w as int, h as int, j - (h - 1)),
        decreases count - k,
    {
        let line = diagonal_line(w, h, k);
        lines.push(line);
        k = k + 1;
    }
    proof {
        assert(views(lines@) =~= diagonals(w as int, h as int));
    }
    lines
}

} // verus!
