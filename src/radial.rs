//! Radial traversal: rays from the image centre, sampled at each integer
//! radius.
use vstd::prelude::*;
use crate::raster::{idx, lemma_idx};
use crate::line::valid_line;
use crate::traverse::{lines_valid, views, min};

verus! {

/// Number of rays, spaced 10 degrees apart.
pub const RAY_COUNT: usize = 36;

/// Cosine and sine of `10 * a` degrees, scaled by 10000 and rounded.
pub open spec fn ray_direction(a: int) -> (int, int) {
    if a == 0 {
        (10000, 0)
    } else if a == 1 {
        (9848, 1736)
    } else if a == 2 {
        (9397, 3420)
    } else if a == 3 {
        (8660, 5000)
    } else if a == 4 {
        (7660, 6428)
    } else if a == 5 {
        (6428, 7660)
    } else if a == 6 {
        (5000, 8660)
    } else if a == 7 {
        (3420, 9397)
    } else if a == 8 {
        (1736, 9848)
    } else if a == 9 {
        (0, 10000)
    } else if a == 10 {
        (-1736, 9848)
    } else if a == 11 {
        (-3420, 9397)
    } else if a == 12 {
        (-5000, 8660)
    } else if a == 13 {
        (-6428, 7660)
    } else if a == 14 {
        (-7660, 6428)
    } else if a == 15 {
        (-8660, 5000)
    } else if a == 16 {
        (-9397, 3420)
    } else if a == 17 {
        (-9848, 1736)
    } else if a == 18 {
        (-10000, 0)
    } else if a == 19 {
        (-9848, -1736)
    } else if a == 20 {
        (-9397, -3420)
    } else if a == 21 {
        (-8660, -5000)
    } else if a == 22 {
        (-7660, -6428)
    } else if a == 23 {
        (-6428, -7660)
    } else if a == 24 {
        (-5000, -8660)
    } else if a == 25 {
        (-3420, -9397)
    } else if a == 26 {
        (-1736, -9848)
    } else if a == 27 {
        (0, -10000)
    } else if a == 28 {
        (1736, -9848)
    } else if a == 29 {
        (3420, -9397)
    } else if a == 30 {
        (5000, -8660)
    } else if a == 31 {
        (6428, -7660)
    } else if a == 32 {
        (7660, -6428)
    } else if a == 33 {
        (8660, -5000)
    } else if a == 34 {
        (9397, -3420)
    } else {
        (9848, -1736)
    }
}

/// Nearest integer to `n / 10000`, halves rounded up.
pub open spec fn round_scaled(n: int) -> int {
    (n + 5000) / 10000
}

/// Column sampled by ray `a` at radius `r`.
pub open spec fn ray_x(w: int, a: int, r: int) -> int {
    w / 2 + round_scaled(r * ray_direction(a).0)
}

/// Row sampled by ray `a` at radius `r`.
pub open spec fn ray_y(h: int, a: int, r: int) -> int {
    h / 2 + round_scaled(r * ray_direction(a).1)
}

pub open spec fn in_bounds(w: int, h: int, x: int, y: int) -> bool {
    0 <= x < w && 0 <= y < h
}

/// The positions that ray `a` visits at radii `1 ..= r`: a sample outside
/// the raster is skipped, and one that repeats an earlier position too.
pub open spec fn ray_upto(w: int, h: int, a: int, r: int) -> Seq<usize>
    decreases r,
{
    if r <= 0 {
        Seq::empty()
    } else {
        let prev = ray_upto(w, h, a, r - 1);
        let x = ray_x(w, a, r);
        let y = ray_y(h, a, r);
        if in_bounds(w, h, x, y) && !prev.contains(idx(w, x, y) as usize) {
            prev.push(idx(w, x, y) as usize)
        } else {
            prev
        }
    }
}

/// Rays are walked out to the smaller half-dimension.
pub open spec fn ray_radius(w: int, h: int) -> int {
    min(w / 2, h / 2)
}

/// All rays of a `w` by `h` raster.
pub open spec fn rays(w: int, h: int) -> Seq<Seq<usize>> {
    Seq::new(RAY_COUNT as nat, |a: int| ray_upto(w, h, a, ray_radius(w, h)))
}

/// Every position on a ray is the position of an in-bounds sample of that
/// ray, and no position repeats.
pub proof fn lemma_ray_upto(w: int, h: int, a: int, r: int)
    requires
        0 <= w,
        0 <= h,
        w * h <= usize::MAX,
    ensures
        valid_line(ray_upto(w, h, a, r), w * h),
        forall|k: int| 0 <= k < ray_upto(w, h, a, r).len() ==> exists|q: int| 1 <= q <= r
            && in_bounds(w, h, ray_x(w, a, q), ray_y(h, a, q))
            && #[trigger] ray_upto(w, h, a, r)[k] as int == idx(w, ray_x(w, a, q), ray_y(h, a, q)),
    decreases r,
{
    if r > 0 {
        lemma_ray_upto(w, h, a, r - 1);
        let prev = ray_upto(w, h, a, r - 1);
        let cur = ray_upto(w, h, a, r);
        let x = ray_x(w, a, r);
        let y = ray_y(h, a, r);
        let pushed = in_bounds(w, h, x, y) && !prev.contains(idx(w, x, y) as usize);
        if pushed {
            lemma_idx(w, h, x, y, x, y);
            assert(cur == prev.push(idx(w, x, y) as usize));
            assert forall|k: int, m: int| 0 <= k < cur.len() && 0 <= m < cur.len() && k != m
                implies #[trigger] cur[k] != #[trigger] cur[m] by {
                if k == prev.len() {
                    assert(prev[m] == cur[m]);
                } else if m == prev.len() {
                    assert(prev[k] == cur[k]);
                }
            }
        } else {
            assert(cur == prev);
        }
        assert forall|k: int| 0 <= k < cur.len() implies exists|q: int| 1 <= q <= r
            && in_bounds(w, h, ray_x(w, a, q), ray_y(h, a, q))
            && #[trigger] cur[k] as int == idx(w, ray_x(w, a, q), ray_y(h, a, q)) by {
            if k < prev.len() {
                assert(cur[k] == prev[k]);
                let q = choose|q: int| 1 <= q <= r - 1
                    && in_bounds(w, h, ray_x(w, a, q), ray_y(h, a, q))
                    && #[trigger] prev[k] as int == idx(w, ray_x(w, a, q), ray_y(h, a, q));
                assert(1 <= q <= r && in_bounds(w, h, ray_x(w, a, q), ray_y(h, a, q))
                    && cur[k] as int == idx(w, ray_x(w, a, q), ray_y(h, a, q)));
            } else {
                assert(cur[k] as int == idx(w, ray_x(w, a, r), ray_y(h, a, r)));
            }
        }
    }
}

/// Ray samples are clipped to the raster: every ray only holds positions
/// of in-bounds samples, each at most once.
pub proof fn lemma_rays_clipped(w: int, h: int)
    requires
        0 <= w,
        0 <= h,
        w * h <= usize::MAX,
    ensures
        lines_valid(rays(w, h), w * h),
        forall|a: int, k: int| 0 <= a < RAY_COUNT && 0 <= k < rays(w, h)[a].len() ==> exists|q: int|
            1 <= q <= ray_radius(w, h) && in_bounds(w, h, ray_x(w, a, q), ray_y(h, a, q))
            && #[trigger] rays(w, h)[a][k] as int == idx(w, ray_x(w, a, q), ray_y(h, a, q)),
{
    assert forall|a: int| 0 <= a < rays(w, h).len() implies valid_line(#[trigger] rays(w, h)[a], w * h) by {
        lemma_ray_upto(w, h, a, ray_radius(w, h));
    }
    assert forall|a: int, k: int| 0 <= a < RAY_COUNT && 0 <= k < rays(w, h)[a].len() implies exists|q: int|
        1 <= q <= ray_radius(w, h) && in_bounds(w, h, ray_x(w, a, q), ray_y(h, a, q))
        && #[trigger] rays(w, h)[a][k] as int == idx(w, ray_x(w, a, q), ray_y(h, a, q)) by {
        lemma_ray_upto(w, h, a, ray_radius(w, h));
        assert(rays(w, h)[a] == ray_upto(w, h, a, ray_radius(w, h)));
    }
}

/// Scaled cosine and sine of ray `a` (see `ray_direction`).
fn direction(a: usize) -> (d: (i32, i32))
    ensures
        d.0 as int == ray_direction(a as int).0,
        d.1 as int == ray_direction(a as int).1,
        -10000 <= d.0 <= 10000,
        -10000 <= d.1 <= 10000,
{
    match a {
        0 => (10000, 0),
        1 => (9848, 1736),
        2 => (9397, 3420),
        3 => (8660, 5000),
        4 => (7660, 6428),
        5 => (6428, 7660),
        6 => (5000, 8660),
        7 => (3420, 9397),
        8 => (1736, 9848),
        9 => (0, 10000),
        10 => (-1736, 9848),
        11 => (-3420, 9397),
        12 => (-5000, 8660),
        13 => (-6428, 7660),
        14 => (-7660, 6428),
        15 => (-8660, 5000),
        16 => (-9397, 3420),
        17 => (-9848, 1736),
        18 => (-10000, 0),
        19 => (-9848, -1736),
        20 => (-9397, -3420),
        21 => (-8660, -5000),
        22 => (-7660, -6428),
        23 => (-6428, -7660),
        24 => (-5000, -8660),
        25 => (-3420, -9397),
        26 => (-1736, -9848),
        27 => (0, -10000),
        28 => (1736, -9848),
        29 => (3420, -9397),
        30 => (5000, -8660),
        31 => (6428, -7660),
        32 => (7660, -6428),
        33 => (8660, -5000),
        34 => (9397, -3420),
        _ => (9848, -1736),
    }
}

/// `round_scaled(r * c)` for a scaled cosine or sine `c`.
fn offset(r: u32, c: i32) -> (o: i64)
    requires
        -10000 <= c <= 10000,
    ensures
        o as int == round_scaled(r * c),
{
    let m: u64 = (c + 10000) as u64;
    assert(r as u64 * m <= 4294967295u64 * 20000) by (nonlinear_arith)
        requires
            r <= 4294967295u64,
            m <= 20000,
    ;
    let shifted: u64 = r as u64 * m + 5000;
    let q: u64 = shifted / 10000;
    proof {
        let x = r * c + 5000;
        assert(shifted as int == x + r * 10000) by (nonlinear_arith)
            requires
                shifted as int == r * m + 5000,
                m == c + 10000,
                x == r * c + 5000,
        ;
        vstd::arithmetic::div_mod::lemma_hoist_over_denominator(x, r as int, 10000);
    }
    q as i64 - r as i64
}

/// Whether `v` occurs in `line`.
fn holds(line: &Vec<usize>, v: usize) -> (b: bool)
    ensures
        b == line@.contains(v),
{
    let mut k: usize = 0;
    while k < line.len()
        invariant
            k <= line@.len(),
            forall|j: int| 0 <= j < k ==> line@[j] != v,
        decreases line@.len() - k,
    {
        if line[k] == v {
            return true;
        }
        k = k + 1;
    }
    false
}

/// Index list of ray `a`.
pub fn ray_line(w: u32, h: u32, a: usize) -> (line: Vec<usize>)
    requires
        w as int * h as int <= usize::MAX,
    ensures
        line@ == ray_upto(w as int, h as int, a as int, ray_radius(w as int, h as int)),
{
    let (c, s) = direction(a);
    let cx: u32 = w / 2;
    let cy: u32 = h / 2;
    let rmax: u32 = if cx <= cy { cx } else { cy };
    let mut line: Vec<usize> = Vec::new();
    let mut r: u32 = 1;
    while r <= rmax
        invariant
            1 <= r <= rmax + 1,
            rmax as int == ray_radius(w as int, h as int),
            rmax <= cx,
            cx as int == w / 2,
            cy as int == h / 2,
            c as int == ray_direction(a as int).0,
            s as int == ray_direction(a as int).1,
            -10000 <= c <= 10000,
            -10000 <= s <= 10000,
            w as int * h as int <= usize::MAX,
            line@ == ray_upto(w as int, h as int, a as int, r - 1),
        decreases rmax + 1 - r,
    {
        let x: i64 = cx as i64 + offset(r, c);
        let y: i64 = cy as i64 + offset(r, s);
        proof {
            assert(x == ray_x(w as int, a as int, r as int));
            assert(y == ray_y(h as int, a as int, r as int));
        }
        if 0 <= x && x < w as i64 && 0 <= y && y < h as i64 {
            proof {
                lemma_idx(w as int, h as int, x as int, y as int, x as int, y as int);
            }
            let i: usize = y as usize * w as usize + x as usize;
            if !holds(&line, i) {
                line.push(i);
            }
        }
        r = r + 1;
    }
    line
}

/// Index lists of all rays.
pub fn ray_lines(w: u32, h: u32) -> (lines: Vec<Vec<usize>>)
    requires
        w as int * h as int <= usize::MAX,
    ensures
        views(lines@) == rays(w as int, h as int),
{
    let mut lines: Vec<Vec<usize>> = Vec::new();
    let mut a: usize = 0;
    while a < RAY_COUNT
        invariant
            a <= RAY_COUNT,
            w as int * h as int <= usize::MAX,
            lines@.len() == a,
            forall|j: int| 0 <= j < a ==> (#[trigger] lines@[j])@ == ray_upto(
                w as int,
                h as int,
                j,
                ray_radius(w as int, h as int),
            ),
        decreases RAY_COUNT - a,
    {
        lines.push(ray_line(w, h, a));
        a = a + 1;
    }
    proof {
        assert(views(lines@) =~= rays(w as int, h as int));
    }
    lines
}

} // verus!
