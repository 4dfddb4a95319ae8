//! Interval detection: splitting a line of pixels into brightness-contiguous
//! runs.
use vstd::prelude::*;
use crate::pixel::{Pixel, luma, MAX_LUMA};

verus! {

/// Absolute value of an integer.
pub open spec fn abs(x: int) -> int {
    if x < 0 { -x } else { x }
}

/// A run boundary falls before position `i` when the luminance step from
/// `i - 1` to `i` exceeds the threshold.
pub open spec fn is_break(s: Seq<Pixel>, t: int, i: int) -> bool {
    0 < i < s.len() && abs(luma(s[i]) - luma(s[i - 1])) > t
}

/// `[a, b)` is a maximal run: it starts at 0 or at a boundary, ends at the
/// end or at a boundary, and holds no boundary inside.
pub open spec fn is_run(s: Seq<Pixel>, t: int, a: int, b: int) -> bool {
    &&& 0 <= a < b <= s.len()
    &&& (a == 0 || is_break(s, t, a))
    &&& (b == s.len() || is_break(s, t, b))
    &&& forall|k: int| a < k < b ==> !#[trigger] is_break(s, t, k)
}

/// A run long enough to be sorted.
pub open spec fn is_sortable_run(s: Seq<Pixel>, t: int, a: int, b: int) -> bool {
    is_run(s, t, a, b) && b - a >= 2
}

/// Position `k` forms a run of length one on its own.
pub open spec fn is_isolated(s: Seq<Pixel>, t: int, k: int) -> bool {
    &&& (k == 0 || is_break(s, t, k))
    &&& (k + 1 == s.len() || is_break(s, t, k + 1))
}

/// `r` lists exactly the sortable runs of `s`, in increasing order.
pub open spec fn are_intervals_of(r: Seq<(usize, usize)>, s: Seq<Pixel>, t: int) -> bool {
    &&& forall|j: int| 0 <= j < r.len() ==> is_sortable_run(s, t, #[trigger] r[j].0 as int, r[j].1 as int)
    &&& forall|j: int| 0 <= j < r.len() - 1 ==> (#[trigger] r[j]).1 <= r[j + 1].0
    &&& forall|a: int, b: int| #[trigger] is_sortable_run(s, t, a, b)
        ==> r.contains((a as usize, b as usize))
}

/// Luminance step between two neighbours, in thousandths.
fn luma_step(p: &Pixel, q: &Pixel) -> (d: u32)
    ensures
        d as int == abs(luma(*p) - luma(*q)),
{
    let a = p.luminance();
    let b = q.luminance();
    if a >= b { a - b } else { b - a }
}

/// The sortable runs of `pixels` under `threshold` (in thousandths of a
/// luminance unit), as half-open ranges in increasing order.
pub fn find_intervals(pixels: &Vec<Pixel>, threshold: u32) -> (r: Vec<(usize, usize)>)
    ensures
        are_intervals_of(r@, pixels@, threshold as int),
{
    let ghost s = pixels@;
    let ghost t = threshold as int;
    let mut r: Vec<(usize, usize)> = Vec::new();
    let n = pixels.len();
    if n <= 1 {
        proof {
            assert forall|a: int, b: int| #[trigger] is_sortable_run(s, t, a, b) implies false by {}
        }
        return r;
    }
    let mut start: usize = 0;
    let mut i: usize = 1;
    while i < n
        invariant
            n == s.len(),
            s == pixels@,
            t == threshold as int,
            1 <= i <= n,
            start < i,
            start == 0 || is_break(s, t, start as int),
            forall|k: int| start < k < i ==> !#[trigger] is_break(s, t, k),
            forall|j: int| 0 <= j < r@.len() ==> is_sortable_run(s, t, #[trigger] r@[j].0 as int, r@[j].1 as int),
            forall|j: int| 0 <= j < r@.len() - 1 ==> (#[trigger] r@[j]).1 <= r@[j + 1].0,
            r@.len() > 0 ==> r@.last().1 <= start,
            forall|a: int, b: int| #[trigger] is_sortable_run(s, t, a, b) && b <= start
                ==> r@.contains((a as usize, b as usize)),
        decreases n - i,
    {
        let d = luma_step(&pixels[i], &pixels[i - 1]);
        if d > threshold {
            proof {
                assert(is_break(s, t, i as int));
            }
            let ghost r0 = r@;
            if i - start > 1 {
                r.push((start, i));
                proof {
                    assert(is_sortable_run(s, t, start as int, i as int));
                    assert(r@[r0.len() as int] == (start, i));
                }
            }
            proof {
                assert forall|a: int, b: int| #[trigger] is_sortable_run(s, t, a, b) && b <= i
                    implies r@.contains((a as usize, b as usize)) by {
                    if b <= start {
                        let j = choose|j: int| 0 <= j < r0.len() && r0[j] == (a as usize, b as usize);
                        assert(r@[j] == r0[j]);
                    } else {
                        assert(b == i);
                        if a < start {
                            assert(is_break(s, t, start as int));
                        } else if a > start {
                            assert(is_break(s, t, a));
                        }
                        assert(a == start);
                        assert(r@[r0.len() as int] == (start, i));
                    }
                }
            }
            start = i;
        }
        i = i + 1;
    }
    let ghost r0 = r@;
    if n - start > 1 {
        r.push((start, n));
        proof {
            assert(is_sortable_run(s, t, start as int, n as int));
            assert(r@[r0.len() as int] == (start, n));
        }
    }
    proof {
        assert forall|a: int, b: int| #[trigger] is_sortable_run(s, t, a, b)
            implies r@.contains((a as usize, b as usize)) by {
            if b <= start {
                let j = choose|j: int| 0 <= j < r0.len() && r0[j] == (a as usize, b as usize);
                assert(r@[j] == r0[j]);
            } else {
                if b < n {
                    assert(is_break(s, t, b));
                }
                assert(b == n);
                if a < start {
                    assert(is_break(s, t, start as int));
                } else if a > start {
                    assert(is_break(s, t, a));
                }
                assert(r@[r0.len() as int] == (start, n));
            }
        }
    }
    r
}

/// With a zero threshold, a line whose luminance rises at every step has
/// no sortable interval: every step is a boundary, so every run is a
/// single pixel.
pub proof fn lemma_strict_gradient_has_no_intervals(r: Seq<(usize, usize)>, s: Seq<Pixel>)
    requires
        are_intervals_of(r, s, 0),
        forall|i: int| 0 < i < s.len() ==> luma(s[i - 1]) < luma(#[trigger] s[i]),
    ensures
        r.len() == 0,
{
    if r.len() > 0 {
        let a = r[0].0 as int;
        let b = r[0].1 as int;
        assert(is_sortable_run(s, 0, a, b));
        assert(is_break(s, 0, a + 1));
    }
}

/// A threshold of at least the largest luminance step (255 units) leaves
/// no boundary: a line of two or more pixels is one interval.
pub proof fn lemma_full_threshold_one_interval(r: Seq<(usize, usize)>, s: Seq<Pixel>, t: int)
    requires
        are_intervals_of(r, s, t),
        t >= MAX_LUMA,
        s.len() >= 2,
        s.len() <= usize::MAX,
    ensures
        r == seq![(0usize, s.len() as usize)],
{
    assert forall|i: int| 0 < i < s.len() implies !#[trigger] is_break(s, t, i) by {
        assert(0 <= luma(s[i]) <= MAX_LUMA && 0 <= luma(s[i - 1]) <= MAX_LUMA);
    }
    assert(is_sortable_run(s, t, 0, s.len() as int));
    assert(r.contains((0usize, s.len() as usize)));
    assert forall|j: int| 0 <= j < r.len() implies #[trigger] r[j] == (0usize, s.len() as usize) by {
        assert(is_sortable_run(s, t, r[j].0 as int, r[j].1 as int));
    }
    if r.len() > 1 {
        assert(r[0] == (0usize, s.len() as usize));
        assert(r[1] == (0usize, s.len() as usize));
        assert(r[0].1 <= r[1].0);
    }
    assert(r =~= seq![(0usize, s.len() as usize)]);
}

/// Start of the run that holds position `k`.
pub open spec fn run_start(s: Seq<Pixel>, t: int, k: int) -> int
    decreases k,
{
    if k <= 0 {
        0
    } else if is_break(s, t, k) {
        k
    } else {
        run_start(s, t, k - 1)
    }
}

/// End (exclusive) of the run that holds position `k`.
pub open spec fn run_end(s: Seq<Pixel>, t: int, k: int) -> int
    decreases s.len() - k,
{
    if k + 1 >= s.len() {
        s.len() as int
    } else if is_break(s, t, k + 1) {
        k + 1
    } else {
        run_end(s, t, k + 1)
    }
}

proof fn lemma_run_start(s: Seq<Pixel>, t: int, k: int)
    requires
        0 <= k < s.len(),
    ensures
        0 <= run_start(s, t, k) <= k,
        run_start(s, t, k) == 0 || is_break(s, t, run_start(s, t, k)),
        forall|j: int| run_start(s, t, k) < j <= k ==> !#[trigger] is_break(s, t, j),
    decreases k,
{
    if k > 0 && !is_break(s, t, k) {
        lemma_run_start(s, t, k - 1);
    }
}

proof fn lemma_run_end(s: Seq<Pixel>, t: int, k: int)
    requires
        0 <= k < s.len(),
    ensures
        k < run_end(s, t, k) <= s.len(),
        run_end(s, t, k) == s.len() || is_break(s, t, run_end(s, t, k)),
        forall|j: int| k < j < run_end(s, t, k) ==> !#[trigger] is_break(s, t, j),
    decreases s.len() - k,
{
    if k + 1 < s.len() && !is_break(s, t, k + 1) {
        lemma_run_end(s, t, k + 1);
    }
}

/// Every position lies in a maximal run.
pub proof fn lemma_run_around(s: Seq<Pixel>, t: int, k: int)
    requires
        0 <= k < s.len(),
    ensures
        is_run(s, t, run_start(s, t, k), run_end(s, t, k)),
        run_start(s, t, k) <= k < run_end(s, t, k),
{
    lemma_run_start(s, t, k);
    lemma_run_end(s, t, k);
    let a = run_start(s, t, k);
    let b = run_end(s, t, k);
    assert forall|j: int| a < j < b implies !#[trigger] is_break(s, t, j) by {
        if j <= k {
        } else {
        }
    }
}

} // verus!
