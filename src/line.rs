//! Sorting along one line of a raster. A line is a list of distinct
//! positions into the pixel buffer; the pixels it visits are sorted in place
//! by swaps, so the buffer always holds the same multiset of pixels.
use vstd::prelude::*;
use crate::pixel::{Pixel, luma};
use crate::intervals::{
    find_intervals, is_break, is_isolated, is_sortable_run, are_intervals_of, lemma_run_around,
    run_start, run_end,
};

verus! {

broadcast use vstd::multiset::group_multiset_properties, vstd::seq_lib::group_to_multiset_ensures;

/// The pixels that `line` visits, in its order.
pub open spec fn gather(p: Seq<Pixel>, line: Seq<usize>) -> Seq<Pixel> {
    Seq::new(line.len(), |k: int| p[line[k] as int])
}

/// Every position of `line` lies in a buffer of length `n`, and no position
/// is visited twice.
pub open spec fn valid_line(line: Seq<usize>, n: int) -> bool {
    &&& forall|k: int| 0 <= k < line.len() ==> (#[trigger] line[k]) < n
    &&& forall|k: int, m: int| 0 <= k < line.len() && 0 <= m < line.len() && k != m
        ==> #[trigger] line[k] != #[trigger] line[m]
}

/// Position `i` of the buffer is not visited by `line`.
pub open spec fn off_line(line: Seq<usize>, i: int) -> bool {
    forall|k: int| 0 <= k < line.len() ==> (#[trigger] line[k]) as int != i
}

/// Luminance does not decrease over `[a, b)`.
pub open spec fn sorted_between(s: Seq<Pixel>, a: int, b: int) -> bool {
    forall|i: int, j: int| a <= i < j < b ==> luma(#[trigger] s[i]) <= luma(#[trigger] s[j])
}

/// `after` is `before` with every sortable run sorted by luminance and every
/// isolated pixel left where it was.
pub open spec fn is_line_sorted(before: Seq<Pixel>, after: Seq<Pixel>, t: int) -> bool {
    &&& after.len() == before.len()
    &&& forall|k: int| 0 <= k < before.len() && #[trigger] is_isolated(before, t, k)
        ==> after[k] == before[k]
    &&& forall|a: int, b: int| #[trigger] is_sortable_run(before, t, a, b) ==> {
        &&& sorted_between(after, a, b)
        &&& after.subrange(a, b).to_multiset() == before.subrange(a, b).to_multiset()
        &&& sorted_between(before, a, b) ==> after.subrange(a, b) == before.subrange(a, b)
    }
}

/// Exchanging two entries keeps the multiset of a sequence.
pub proof fn lemma_swap_multiset(s: Seq<Pixel>, i: int, j: int)
    requires
        0 <= i < s.len(),
        0 <= j < s.len(),
    ensures
        s.update(i, s[j]).update(j, s[i]).to_multiset() == s.to_multiset(),
{
    broadcast use vstd::seq_lib::to_multiset_update;
    let s1 = s.update(i, s[j]);
    assert(s1.to_multiset() == s.to_multiset().insert(s[j]).remove(s[i]));
    let s2 = s1.update(j, s[i]);
    assert(s2.to_multiset() == s1.to_multiset().insert(s[i]).remove(s1[j]));
    if i == j {
        assert(s2 == s) by {
            assert(s2 =~= s);
        }
    } else {
        assert(s2.to_multiset() =~= s.to_multiset());
    }
}

/// Exchanges the pixels at line positions `k - 1` and `k`.
fn swap_on_line(pixels: &mut Vec<Pixel>, line: &Vec<usize>, k: usize)
    requires
        valid_line(line@, old(pixels)@.len() as int),
        0 < k < line@.len(),
    ensures
        final(pixels)@.len() == old(pixels)@.len(),
        final(pixels)@.to_multiset() == old(pixels)@.to_multiset(),
        forall|i: int| 0 <= i < old(pixels)@.len() && off_line(line@, i)
            ==> final(pixels)@[i] == old(pixels)@[i],
        gather(final(pixels)@, line@) == gather(old(pixels)@, line@).update(
            k - 1,
            gather(old(pixels)@, line@)[k as int],
        ).update(k as int, gather(old(pixels)@, line@)[k - 1]),
{
    let ghost p0 = pixels@;
    let i = line[k - 1];
    let j = line[k];
    let x = pixels[i];
    let y = pixels[j];
    pixels[i] = y;
    pixels[j] = x;
    proof {
        lemma_swap_multiset(p0, i as int, j as int);
        assert(pixels@ == p0.update(i as int, p0[j as int]).update(j as int, p0[i as int]));
        let g0 = gather(p0, line@);
        assert(gather(pixels@, line@) =~= g0.update(k - 1, g0[k as int]).update(k as int, g0[k - 1]));
    }
}

/// Sorts, by ascending luminance, the pixels at line positions
/// `start .. end` (insertion sort by adjacent swaps).
pub fn sort_run(pixels: &mut Vec<Pixel>, line: &Vec<usize>, start: usize, end: usize)
    requires
        valid_line(line@, old(pixels)@.len() as int),
        start < end <= line@.len(),
    ensures
        final(pixels)@.len() == old(pixels)@.len(),
        final(pixels)@.to_multiset() == old(pixels)@.to_multiset(),
        forall|i: int| 0 <= i < old(pixels)@.len() && off_line(line@, i)
            ==> final(pixels)@[i] == old(pixels)@[i],
        forall|k: int| 0 <= k < line@.len() && !(start <= k < end)
            ==> gather(final(pixels)@, line@)[k] == gather(old(pixels)@, line@)[k],
        sorted_between(gather(final(pixels)@, line@), start as int, end as int),
        gather(final(pixels)@, line@).subrange(start as int, end as int).to_multiset()
            == gather(old(pixels)@, line@).subrange(start as int, end as int).to_multiset(),
        sorted_between(gather(old(pixels)@, line@), start as int, end as int) ==> final(pixels)@
            == old(pixels)@,
{
    let ghost p0 = pixels@;
    let ghost g0 = gather(p0, line@);
    let mut i: usize = start + 1;
    while i < end
        invariant
            valid_line(line@, pixels@.len() as int),
            start < i <= end,
            end <= line@.len(),
            pixels@.len() == p0.len(),
            pixels@.to_multiset() == p0.to_multiset(),
            forall|q: int| 0 <= q < p0.len() && off_line(line@, q) ==> pixels@[q] == p0[q],
            forall|k: int| 0 <= k < line@.len() && !(start <= k < end)
                ==> gather(pixels@, line@)[k] == g0[k],
            sorted_between(gather(pixels@, line@), start as int, i as int),
            gather(pixels@, line@).subrange(start as int, end as int).to_multiset()
                == g0.subrange(start as int, end as int).to_multiset(),
            sorted_between(g0, start as int, end as int) ==> pixels@ == p0,
            g0 == gather(p0, line@),
        decreases end - i,
    {
        let mut j: usize = i;
        while j > start
            invariant
                valid_line(line@, pixels@.len() as int),
                start <= j <= i < end,
                end <= line@.len(),
                pixels@.len() == p0.len(),
                pixels@.to_multiset() == p0.to_multiset(),
                forall|q: int| 0 <= q < p0.len() && off_line(line@, q) ==> pixels@[q] == p0[q],
                forall|k: int| 0 <= k < line@.len() && !(start <= k < end)
                    ==> gather(pixels@, line@)[k] == g0[k],
                forall|a: int, b: int| start <= a < b <= i && a != j && b != j
                    ==> luma(#[trigger] gather(pixels@, line@)[a]) <= luma(#[trigger] gather(pixels@, line@)[b]),
                forall|b: int| j < b <= i
                    ==> luma(gather(pixels@, line@)[j as int]) <= luma(#[trigger] gather(pixels@, line@)[b]),
                gather(pixels@, line@).subrange(start as int, end as int).to_multiset()
                    == g0.subrange(start as int, end as int).to_multiset(),
                sorted_between(g0, start as int, end as int) ==> pixels@ == p0,
                sorted_between(g0, start as int, end as int) ==> j == i,
                g0 == gather(p0, line@),
            ensures
                sorted_between(g0, start as int, end as int) ==> pixels@ == p0,
                j == start || luma(gather(pixels@, line@)[j - 1]) <= luma(gather(pixels@, line@)[j as int]),
            decreases j,
        {
            let lo = pixels[line[j - 1]].luminance();
            let hi = pixels[line[j]].luminance();
            proof {
                if sorted_between(g0, start as int, end as int) {
                    assert(gather(pixels@, line@)[j - 1] == g0[j - 1]);
                    assert(gather(pixels@, line@)[j as int] == g0[j as int]);
                }
            }
            if lo <= hi {
                break;
            }
            let ghost g1 = gather(pixels@, line@);
            swap_on_line(pixels, line, j);
            proof {
                let g2 = gather(pixels@, line@);
                let sub1 = g1.subrange(start as int, end as int);
                let a = j - 1 - start;
                lemma_swap_multiset(sub1, a as int, a + 1);
                assert(g2.subrange(start as int, end as int) =~= sub1.update(a as int, sub1[a + 1]).update(a + 1, sub1[a as int]));
            }
            j = j - 1;
        }
        proof {
            let g = gather(pixels@, line@);
            assert forall|a: int, b: int| start <= a < b < i + 1 implies luma(#[trigger] g[a]) <= luma(#[trigger] g[b]) by {
                if b == j && a < j {
                    assert(luma(g[a]) <= luma(g[j - 1]) || a == j - 1);
                }
            }
        }
        i = i + 1;
    }
}

/// Intervals listed in increasing order do not overlap.
proof fn lemma_intervals_ordered(r: Seq<(usize, usize)>, s: Seq<Pixel>, t: int, i: int, j: int)
    requires
        are_intervals_of(r, s, t),
        0 <= i < j < r.len(),
    ensures
        r[i].1 <= r[j].0,
    decreases j - i,
{
    assert(is_sortable_run(s, t, r[i].0 as int, r[i].1 as int));
    if j > i + 1 {
        lemma_intervals_ordered(r, s, t, i + 1, j);
        assert(is_sortable_run(s, t, r[i + 1].0 as int, r[i + 1].1 as int));
        assert(r[i].1 <= r[i + 1].0);
    } else {
        assert(r[i].1 <= r[i + 1].0);
    }
}

/// Copies out the pixels that `line` visits.
pub fn gather_line(pixels: &Vec<Pixel>, line: &Vec<usize>) -> (vals: Vec<Pixel>)
    requires
        valid_line(line@, pixels@.len() as int),
    ensures
        vals@ == gather(pixels@, line@),
{
    let mut vals: Vec<Pixel> = Vec::new();
    let mut k: usize = 0;
    while k < line.len()
        invariant
            valid_line(line@, pixels@.len() as int),
            k <= line@.len(),
            vals@ == gather(pixels@, line@).subrange(0, k as int),
        decreases line@.len() - k,
    {
        vals.push(pixels[line[k]]);
        k = k + 1;
        proof {
            assert(vals@ =~= gather(pixels@, line@).subrange(0, k as int));
        }
    }
    proof {
        assert(vals@ =~= gather(pixels@, line@));
    }
    vals
}

/// Sorts the pixels that `line` visits: each sortable run (under `threshold`,
/// in thousandths of a luminance unit) is put in ascending luminance order,
/// every other pixel of the buffer stays where it is.
pub fn sort_line(pixels: &mut Vec<Pixel>, line: &Vec<usize>, threshold: u32)
    requires
        valid_line(line@, old(pixels)@.len() as int),
    ensures
        final(pixels)@.len() == old(pixels)@.len(),
        final(pixels)@.to_multiset() == old(pixels)@.to_multiset(),
        forall|i: int| 0 <= i < old(pixels)@.len() && off_line(line@, i)
            ==> final(pixels)@[i] == old(pixels)@[i],
        is_line_sorted(gather(old(pixels)@, line@), gather(final(pixels)@, line@), threshold as int),
{
    let ghost p0 = pixels@;
    let ghost t = threshold as int;
    let vals = gather_line(pixels, line);
    let ghost g0 = vals@;
    let iv = find_intervals(&vals, threshold);
    let n = line.len();
    let mut j: usize = 0;
    let ghost mut lim: int = 0;
    while j < iv.len()
        invariant
            valid_line(line@, pixels@.len() as int),
            n == line@.len(),
            g0 == gather(p0, line@),
            g0.len() == n,
            are_intervals_of(iv@, g0, t),
            j <= iv@.len(),
            pixels@.len() == p0.len(),
            pixels@.to_multiset() == p0.to_multiset(),
            forall|q: int| 0 <= q < p0.len() && off_line(line@, q) ==> pixels@[q] == p0[q],
            forall|k: int| 0 <= k < n && #[trigger] is_isolated(g0, t, k)
                ==> gather(pixels@, line@)[k] == g0[k],
            j < iv@.len() ==> lim <= iv@[j as int].0,
            forall|k: int| lim <= k < n ==> gather(pixels@, line@)[k] == g0[k],
            forall|jj: int| 0 <= jj < j ==> {
                let (a, b) = #[trigger] iv@[jj];
                &&& sorted_between(gather(pixels@, line@), a as int, b as int)
                &&& gather(pixels@, line@).subrange(a as int, b as int).to_multiset()
                    == g0.subrange(a as int, b as int).to_multiset()
                &&& sorted_between(g0, a as int, b as int) ==> gather(pixels@, line@).subrange(a as int, b as int)
                    == g0.subrange(a as int, b as int)
            },
        decreases iv@.len() - j,
    {
        let (a, b) = iv[j];
        let ghost g1 = gather(pixels@, line@);
        proof {
            assert(is_sortable_run(g0, t, a as int, b as int));
        }
        sort_run(pixels, line, a, b);
        proof {
            let g2 = gather(pixels@, line@);
            assert(g1.subrange(a as int, b as int) =~= g0.subrange(a as int, b as int));
            assert forall|jj: int| 0 <= jj < j + 1 implies {
                let (a2, b2) = #[trigger] iv@[jj];
                &&& sorted_between(g2, a2 as int, b2 as int)
                &&& g2.subrange(a2 as int, b2 as int).to_multiset()
                    == g0.subrange(a2 as int, b2 as int).to_multiset()
                &&& sorted_between(g0, a2 as int, b2 as int) ==> g2.subrange(a2 as int, b2 as int)
                    == g0.subrange(a2 as int, b2 as int)
            } by {
                if jj < j {
                    lemma_intervals_ordered(iv@, g0, t, jj, j as int);
                    let (a2, b2) = iv@[jj];
                    assert(g2.subrange(a2 as int, b2 as int) =~= g1.subrange(a2 as int, b2 as int));
                } else {
                    if sorted_between(g0, a as int, b as int) {
                        assert forall|k: int| a <= k < b implies g1[k] == g0[k] by {}
                        assert(sorted_between(g1, a as int, b as int));
                        assert(g2 == g1);
                    }
                }
            }
            assert forall|k: int| 0 <= k < n && #[trigger] is_isolated(g0, t, k)
                implies g2[k] == g0[k] by {
                if a <= k < b {
                    assert(is_break(g0, t, k) || is_break(g0, t, k + 1));
                }
            }
            if j + 1 < iv@.len() {
                lemma_intervals_ordered(iv@, g0, t, j as int, j + 1);
            }
            lim = b as int;
        }
        j = j + 1;
    }
    proof {
        let g = gather(pixels@, line@);
        assert forall|a: int, b: int| #[trigger] is_sortable_run(g0, t, a, b) implies {
            &&& sorted_between(g, a, b)
            &&& g.subrange(a, b).to_multiset() == g0.subrange(a, b).to_multiset()
            &&& sorted_between(g0, a, b) ==> g.subrange(a, b) == g0.subrange(a, b)
        } by {
            assert(iv@.contains((a as usize, b as usize)));
            let jj = choose|jj: int| 0 <= jj < iv@.len() && iv@[jj] == (a as usize, b as usize);
            assert(iv@[jj] == (a as usize, b as usize));
        }
    }
}

/// Sorting a line whose luminance already never decreases changes nothing.
pub proof fn lemma_sorted_line_unchanged(before: Seq<Pixel>, after: Seq<Pixel>, t: int)
    requires
        is_line_sorted(before, after, t),
        sorted_between(before, 0, before.len() as int),
    ensures
        after == before,
{
    assert forall|k: int| 0 <= k < before.len() implies after[k] == before[k] by {
        lemma_run_around(before, t, k);
        let a = run_start(before, t, k);
        let b = run_end(before, t, k);
        if b - a >= 2 {
            assert(is_sortable_run(before, t, a, b));
            assert(sorted_between(before, a, b));
            assert(after.subrange(a, b) == before.subrange(a, b));
            assert(after.subrange(a, b)[k - a] == before.subrange(a, b)[k - a]);
        } else {
            assert(is_isolated(before, t, k));
        }
    }
    assert(after =~= before);
}

} // verus!
