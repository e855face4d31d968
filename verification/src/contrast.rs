//! Histogram-based tone adjustments: autolevel, the autocontrast gate, and
//! the histogram trimming that decides an autocontrast stretch's range.

use crate::crop::map_view;
use crate::gray::{GrayImage, GrayView};
use vstd::prelude::*;

verus! {

/// How many entries of `s` equal `k`.
pub open spec fn count_value(s: Seq<u8>, k: int) -> nat
    decreases s.len(),
{
    if s.len() == 0 {
        0
    } else {
        count_value(s.drop_last(), k) + (if s.last() == k {
            1nat
        } else {
            0nat
        })
    }
}

/// The 256-bin histogram of a pixel sequence.
pub open spec fn histogram_of(s: Seq<u8>) -> Seq<int> {
    Seq::new(256, |k: int| count_value(s, k) as int)
}

proof fn lemma_count_bound(s: Seq<u8>, k: int)
    ensures
        count_value(s, k) <= s.len(),
    decreases s.len(),
{
    if s.len() > 0 {
        lemma_count_bound(s.drop_last(), k);
    }
}

fn histogram(img: &GrayImage) -> (h: Vec<u64>)
    requires
        img@.wf(),
    ensures
        h@.len() == 256,
        forall|k: int| 0 <= k < 256 ==> #[trigger] h@[k] == histogram_of(img@.data)[k],
{
    let data = img.as_raw();
    let n = data.len();
    let mut h: Vec<u64> = vec![0u64; 256];
    let mut i: usize = 0;
    while i < n
        invariant
            n == data@.len(),
            i <= n,
            h@.len() == 256,
            forall|k: int| 0 <= k < 256 ==> #[trigger] h@[k] == count_value(data@.take(i as int), k),
        decreases n - i,
    {
        let p = data[i] as usize;
        proof {
            assert(data@.take(i + 1).drop_last() =~= data@.take(i as int));
            lemma_count_bound(data@.take(i as int), p as int);
        }
        let c = h[p];
        h.set(p, c + 1);
        i = i + 1;
    }
    proof {
        assert(data@.take(n as int) =~= data@);
    }
    h
}

/// The darkest-64-levels black point: the first of bins `0..64` holding
/// the most pixels.
pub open spec fn is_black_point(h: Seq<int>, bp: int) -> bool {
    &&& 0 <= bp < 64
    &&& forall|i: int| 0 <= i < 64 ==> h[i] <= h[bp]
    &&& forall|i: int| 0 <= i < bp ==> h[i] < h[bp]
}

/// The first index of the largest of `h[0..n]`.
pub open spec fn first_argmax(h: Seq<int>, n: int) -> int
    decreases n,
{
    if n <= 1 {
        0
    } else {
        let m = first_argmax(h, n - 1);
        if h[n - 1] > h[m] {
            n - 1
        } else {
            m
        }
    }
}

/// The black point of a histogram: the first of its darkest 64 bins holding
/// the most pixels.
pub open spec fn black_point(h: Seq<int>) -> int {
    first_argmax(h, 64)
}

/// A pixel lifted to at least `bp`.
pub open spec fn level_pixel(p: u8, bp: int) -> u8 {
    if p < bp {
        bp as u8
    } else {
        p
    }
}

/// Lifts every pixel darker than the black point (see [`is_black_point`]) up
/// to it.
pub fn autolevel(page: &GrayImage) -> (out: GrayImage)
    requires
        page@.wf(),
    ensures
        out@.wf(),
        is_black_point(histogram_of(page@.data), black_point(histogram_of(page@.data))),
        out@ == map_view(page@, |p: u8| level_pixel(p, black_point(histogram_of(page@.data)))),
        out@.width == page@.width && out@.height == page@.height,
        forall|k: int|
            0 <= k < page@.data.len() ==> {
                let bp = black_point(histogram_of(page@.data));
                &&& #[trigger] out@.data[k] >= page@.data[k]
                &&& out@.data[k] >= bp
                &&& (page@.data[k] >= bp ==> out@.data[k] == page@.data[k])
                &&& (page@.data[k] < bp ==> out@.data[k] == bp)
            },
{
    let hist = histogram(page);
    let mut bpt: u8 = 0;
    let mut best = hist[0];
    let mut i: usize = 1;
    while i < 64
        invariant
            1 <= i <= 64,
            hist@.len() == 256,
            forall|k: int| 0 <= k < 256 ==> #[trigger] hist@[k] == histogram_of(page@.data)[k],
            bpt < i,
            best == hist@[bpt as int],
            forall|k: int| 0 <= k < i ==> hist@[k] <= best,
            forall|k: int| 0 <= k < bpt ==> hist@[k] < best,
            bpt == first_argmax(histogram_of(page@.data), i as int),
        decreases 64 - i,
    {
        if hist[i] > best {
            best = hist[i];
            bpt = i as u8;
        }
        i = i + 1;
    }
    let bp = bpt;
    let data = page.as_raw();
    let n = data.len();
    let mut out: Vec<u8> = Vec::with_capacity(n);
    for j in 0..n
        invariant
            n == data@.len(),
            out@.len() == j,
            forall|k: int| 0 <= k < j ==> #[trigger] out@[k] == (if data@[k] < bp { bp } else { data@[k] }),
    {
        let p = data[j];
        out.push(if p < bp { bp } else { p });
    }
    assert(out@ =~= data@.map_values(|p: u8| level_pixel(p, black_point(histogram_of(page@.data)))));
    let res = GrayImage::from_view_parts(page.width(), page.height(), out);
    proof {
        let hh = histogram_of(page@.data);
        assert forall|k: int| 0 <= k < 64 implies hh[k] <= hh[bp as int] by {
            assert(hist@[k] <= best);
        }
        assert forall|k: int| 0 <= k < bp implies hh[k] < hh[bp as int] by {
            assert(hist@[k] < best);
        }
        assert(is_black_point(hh, bp as int));
        assert forall|k: int| 0 <= k < page@.data.len() implies #[trigger] res@.data[k] >= page@.data[k] by {
            lemma_level_pixel_is_max(page@.data[k], bp as int);
        }
        assert forall|k: int| 0 <= k < page@.data.len() implies {
            &&& #[trigger] res@.data[k] >= page@.data[k]
            &&& res@.data[k] >= bp
            &&& (page@.data[k] >= bp ==> res@.data[k] == page@.data[k])
            &&& (page@.data[k] < bp ==> res@.data[k] == bp)
        } by {
            lemma_level_pixel_is_max(page@.data[k], bp as int);
        }
    }
    res
}

/// Levelling never darkens a pixel: it lifts a pixel below the black point
/// to exactly the black point and leaves every pixel at or above it as it
/// was, so the result is the larger of the pixel and the black point.
pub proof fn lemma_level_pixel_is_max(p: u8, bp: int)
    requires
        0 <= bp < 64,
    ensures
        level_pixel(p, bp) >= p,
        level_pixel(p, bp) >= bp,
        p >= bp ==> level_pixel(p, bp) == p,
        p < bp ==> level_pixel(p, bp) == bp,
{
}

/// The smallest and largest pixel values (`(255, 0)` for an empty image).
pub fn extrema(page: &GrayImage) -> (r: (u8, u8))
    requires
        page@.wf(),
    ensures
        forall|i: int| 0 <= i < page@.data.len() ==> r.0 <= #[trigger] page@.data[i] <= r.1,
        page@.data.len() > 0 ==> (exists|i: int| 0 <= i < page@.data.len() && page@.data[i] == r.0),
        page@.data.len() > 0 ==> (exists|i: int| 0 <= i < page@.data.len() && page@.data[i] == r.1),
        page@.data.len() == 0 ==> r == (255u8, 0u8),
{
    let data = page.as_raw();
    let n = data.len();
    let mut min: u8 = 255;
    let mut max: u8 = 0;
    let ghost mut imin: int = 0;
    let ghost mut imax: int = 0;
    for j in 0..n
        invariant
            n == data@.len(),
            forall|i: int| 0 <= i < j ==> min <= #[trigger] data@[i] <= max,
            j > 0 ==> 0 <= imin < j && data@[imin] == min,
            j > 0 ==> 0 <= imax < j && data@[imax] == max,
            j == 0 ==> min == 255 && max == 0,
    {
        let p = data[j];
        if j == 0 || p < min {
            min = p;
            proof {
                imin = j as int;
            }
        }
        if j == 0 || p > max {
            max = p;
            proof {
                imax = j as int;
            }
        }
    }
    (min, max)
}

/// Whether autocontrast stretches this page at all: only when its extrema
/// span at least 159 levels (`255 - 32 * 3`); a narrower span is taken as
/// deliberate low contrast and left alone.
pub fn should_autocontrast(page: &GrayImage) -> (r: bool)
    requires
        page@.wf(),
    ensures
        r == (page@.data.len() > 0 && exists|i: int, j: int|
            0 <= i < page@.data.len() && 0 <= j < page@.data.len() && page@.data[j] - page@.data[i]
                >= 159),
{
    let (min, max) = extrema(page);
    let r = (max as i32 - min as i32) >= 255 - 32 * 3;
    proof {
        if page@.data.len() > 0 {
            let i0 = choose|i: int| 0 <= i < page@.data.len() && page@.data[i] == min;
            let j0 = choose|i: int| 0 <= i < page@.data.len() && page@.data[i] == max;
            if r {
                assert(page@.data[j0] - page@.data[i0] >= 159);
            }
        }
    }
    r
}

/// Trims `cut` samples off the low end of a histogram: bins are emptied from
/// the bottom up until `cut` samples are gone, the last one partially.
pub open spec fn trim_front(h: Seq<int>, cut: int) -> Seq<int>
    decreases h.len(),
{
    if h.len() == 0 || cut <= 0 {
        h
    } else if cut > h[0] {
        seq![0int] + trim_front(h.drop_first(), cut - h[0])
    } else {
        seq![h[0] - cut] + h.drop_first()
    }
}

/// Trims `cut` samples off the high end of a histogram.
pub open spec fn trim_back(h: Seq<int>, cut: int) -> Seq<int> {
    trim_front(h.reverse(), cut).reverse()
}

/// The histogram with `cutoff_percent` of all samples (rounded down) trimmed
/// off each end.
pub open spec fn trimmed_histogram(s: Seq<u8>, cutoff_percent: int) -> Seq<int> {
    let h = histogram_of(s);
    let cut = (s.len() * cutoff_percent) / 100;
    trim_back(trim_front(h, cut), cut)
}

/// `(lo, hi)`: the lowest and highest non-empty bins of `t`, with `lo < hi`.
pub open spec fn stretch_bounds(t: Seq<int>, lo: int, hi: int) -> bool {
    &&& 0 <= lo < hi < t.len()
    &&& t[lo] > 0 && t[hi] > 0
    &&& forall|i: int| 0 <= i < lo ==> t[i] <= 0
    &&& forall|i: int| hi < i < t.len() ==> t[i] <= 0
}

proof fn lemma_trim_front_len(h: Seq<int>, cut: int)
    ensures
        trim_front(h, cut).len() == h.len(),
    decreases h.len(),
{
    if h.len() > 0 && cut > 0 && cut > h[0] {
        lemma_trim_front_len(h.drop_first(), cut - h[0]);
    }
}

/// One step of the bottom-up trim.
proof fn lemma_trim_front_step(h: Seq<int>, cut: int, i: int)
    requires
        0 <= i < h.len(),
        cut > 0,
    ensures
        trim_front(h.subrange(i, h.len() as int), cut) == seq![
            if cut > h[i] { 0 } else { h[i] - cut },
        ] + trim_front(h.subrange(i + 1, h.len() as int), if cut > h[i] { cut - h[i] } else { 0 }),
{
    let s = h.subrange(i, h.len() as int);
    assert(s.drop_first() =~= h.subrange(i + 1, h.len() as int));
    assert(s[0] == h[i]);
}

pub open spec fn as_ints(v: Seq<u64>) -> Seq<int> {
    v.map_values(|c: u64| c as int)
}

/// Trims `cut` samples off the low end (see [`trim_front`]).
fn trim_front_exec(h: &mut Vec<u64>, cut: u128)
    ensures
        final(h)@.len() == old(h)@.len(),
        as_ints(final(h)@) == trim_front(as_ints(old(h)@), cut as int),
{
    let ghost orig = as_ints(h@);
    let ghost cut0 = cut as int;
    let n = h.len();
    let mut cut = cut;
    let mut i: usize = 0;
    proof {
        assert(orig.subrange(0, n as int) =~= orig);
        assert(as_ints(h@).subrange(0, 0) =~= Seq::<int>::empty());
        assert(Seq::<int>::empty() + orig =~= orig);
    }
    while i < n && cut > 0
        invariant
            n == h@.len(),
            orig.len() == n,
            i <= n,
            forall|k: int| i <= k < n ==> #[trigger] h@[k] as int == orig[k],
            as_ints(h@).subrange(0, i as int) + trim_front(orig.subrange(i as int, n as int), cut as int)
                == trim_front(orig, cut0),
        decreases n - i,
    {
        let b = h[i];
        let ghost before = as_ints(h@).subrange(0, i as int);
        proof {
            lemma_trim_front_step(orig, cut as int, i as int);
        }
        if cut > b as u128 {
            cut = cut - b as u128;
            h.set(i, 0);
        } else {
            h.set(i, (b as u128 - cut) as u64);
            cut = 0;
        }
        proof {
            assert(as_ints(h@).subrange(0, i + 1) =~= before + seq![h@[i as int] as int]);
            if cut == 0 {
                assert(trim_front(orig.subrange(i + 1, n as int), 0) == orig.subrange(i + 1, n as int));
            }
        }
        i = i + 1;
    }
    proof {
        let m = as_ints(h@);
        if i < n {
            assert(trim_front(orig.subrange(i as int, n as int), cut as int) == orig.subrange(i as int, n as int));
        } else {
            assert(orig.subrange(n as int, n as int) =~= Seq::<int>::empty());
        }
        assert(m =~= m.subrange(0, i as int) + orig.subrange(i as int, n as int));
    }
}

fn reversed(v: &Vec<u64>) -> (r: Vec<u64>)
    ensures
        r@ == v@.reverse(),
{
    let n = v.len();
    let mut r: Vec<u64> = Vec::with_capacity(n);
    let mut i = n;
    while i > 0
        invariant
            n == v@.len(),
            i <= n,
            r@.len() == n - i,
            forall|k: int| 0 <= k < r@.len() ==> #[trigger] r@[k] == v@[n - 1 - k],
        decreases i,
    {
        i = i - 1;
        r.push(v[i]);
    }
    assert(r@ =~= v@.reverse());
    r
}

proof fn lemma_as_ints_reverse(v: Seq<u64>)
    ensures
        as_ints(v.reverse()) == as_ints(v).reverse(),
{
    assert(as_ints(v.reverse()) =~= as_ints(v).reverse());
}

/// The lowest and highest non-empty bins of the histogram after trimming
/// `cutoff_percent` of the samples off each end, or `None` when fewer than two
/// distinct bins remain (a flat image has no range to stretch). These bound
/// the linear stretch `[lo, hi] -> [0, 255]` of an autocontrast.
pub fn cutoff_bounds(img: &GrayImage, cutoff_percent: u32) -> (r: Option<(u8, u8)>)
    requires
        img@.wf(),
    ensures
        r is Some <==> exists|lo: int, hi: int| stretch_bounds(
            trimmed_histogram(img@.data, cutoff_percent as int),
            lo,
            hi,
        ),
        r matches Some(b) ==> stretch_bounds(
            trimmed_histogram(img@.data, cutoff_percent as int),
            b.0 as int,
            b.1 as int,
        ),
{
    let hist = histogram(img);
    let total = img.as_raw().len() as u64;
    proof {
        assert(as_ints(hist@) =~= histogram_of(img@.data));
        assert((total as u128) * (cutoff_percent as u128) <= u64::MAX * u32::MAX) by (nonlinear_arith)
            requires
                total <= u64::MAX,
                cutoff_percent <= u32::MAX,
        ;
    }
    let cut_wide = (total as u128) * (cutoff_percent as u128) / 100;
    let cut = cut_wide;
    let mut h = hist;
    trim_front_exec(&mut h, cut);
    let mut rev = reversed(&h);
    trim_front_exec(&mut rev, cut);
    let t = reversed(&rev);
    let ghost tt = trimmed_histogram(img@.data, cutoff_percent as int);
    proof {
        lemma_as_ints_reverse(h@);
        lemma_as_ints_reverse(rev@);
        assert(as_ints(t@) == tt);
    }
    let n = t.len();
    let mut lo: usize = 0;
    while lo < n && t[lo] == 0
        invariant
            n == t@.len(),
            lo <= n,
            forall|i: int| 0 <= i < lo ==> #[trigger] t@[i] == 0,
        decreases n - lo,
    {
        lo = lo + 1;
    }
    let mut hi: usize = n;
    while hi > 0 && t[hi - 1] == 0
        invariant
            n == t@.len(),
            hi <= n,
            forall|i: int| hi <= i < n ==> #[trigger] t@[i] == 0,
        decreases hi,
    {
        hi = hi - 1;
    }
    proof {
        assert(forall|i: int| 0 <= i < n ==> #[trigger] tt[i] == t@[i] as int);
    }
    if lo < n && hi > 0 && hi - 1 > lo {
        assert(stretch_bounds(tt, lo as int, hi - 1));
        assert(n == 256) by {
            assert(tt.len() == 256) by {
                lemma_trim_front_len(histogram_of(img@.data), cut as int);
                lemma_trim_front_len(trim_front(histogram_of(img@.data), cut as int).reverse(), cut as int);
            }
        }
        Some((lo as u8, (hi - 1) as u8))
    } else {
        proof {
            assert forall|a: int, b: int| !stretch_bounds(tt, a, b) by {
                if stretch_bounds(tt, a, b) {
                    assert(tt[a] > 0 && tt[b] > 0);
                    if lo < n {
                        assert(a >= lo);
                    }
                    assert(b < hi);
                }
            }
        }
        None
    }
}

} // verus!
