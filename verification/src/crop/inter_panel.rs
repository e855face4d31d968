//! Inter-panel empty-space cropping: removes empty horizontal (and, in
//! `Both` mode, vertical) gutters between panels of the same page.
//!
//! A row/column is empty when every pixel of it is background (0) in the
//! binarized page. Consecutive empty lines (at most 1 apart) form a gutter;
//! gutters starting within 1% of the page top, or ending within 1% of its
//! bottom, are left alone; both checks measure against the page *height*,
//! for columns as well as rows. Each remaining gutter `[x1, x2]` keeps 2% of
//! its span at each end: lines `x1 + floor(span/50)` up to (excluding)
//! `x2 - ceil(span/50)` are removed.

use crate::crop::page_number::{group_close_values, group_close_values_spec, Tolerance};
use crate::gray::{GrayImage, GrayView};
use vstd::prelude::*;

verus! {

#[derive(Debug, Clone, Copy, PartialEq, Eq, Structural)]
pub enum InterPanelMode {
    Disabled,
    Horizontal,
    Both,
}

/// Line `o` (a row when `horizontal`, else a column) is entirely 0.
pub open spec fn line_empty(v: GrayView, horizontal: bool, o: int) -> bool {
    if horizontal {
        forall|x: int| 0 <= x < v.width ==> #[trigger] v.at(x, o) == 0
    } else {
        forall|y: int| 0 <= y < v.height ==> #[trigger] v.at(o, y) == 0
    }
}

/// The empty lines among the first `n`, in increasing order.
pub open spec fn empty_lines(v: GrayView, horizontal: bool, n: int) -> Seq<i64>
    decreases n,
{
    if n <= 0 {
        Seq::empty()
    } else {
        let s = empty_lines(v, horizontal, n - 1);
        if line_empty(v, horizontal, n - 1) {
            s.push((n - 1) as i64)
        } else {
            s
        }
    }
}

/// The gutters not touching the top or bottom 1% of a page of height `h`.
pub open spec fn inner_sections(groups: Seq<(i64, i64)>, h: int) -> Seq<(i64, i64)>
    decreases groups.len(),
{
    if groups.len() == 0 {
        Seq::empty()
    } else {
        let rest = inner_sections(groups.drop_last(), h);
        let g = groups.last();
        if 100 * g.1 < 99 * h && 100 * g.0 > h {
            rest.push(g)
        } else {
            rest
        }
    }
}

/// `[a, b)` as a sequence.
pub open spec fn range_seq(a: int, b: int) -> Seq<u32>
    decreases b - a,
{
    if b <= a {
        Seq::empty()
    } else {
        range_seq(a, b - 1).push((b - 1) as u32)
    }
}

/// The lines removed from a gutter `(x1, x2)`: all but 2% of its span at
/// each end.
pub open spec fn shrunk(g: (i64, i64)) -> Seq<u32> {
    let span = g.1 - g.0;
    range_seq(g.0 + span / 50, g.1 - (span + 49) / 50)
}

pub open spec fn shrunk_all(sections: Seq<(i64, i64)>) -> Seq<u32>
    decreases sections.len(),
{
    if sections.len() == 0 {
        Seq::empty()
    } else {
        shrunk_all(sections.drop_last()) + shrunk(sections.last())
    }
}

/// The lines [`empty_sections`] marks for removal.
pub open spec fn empty_sections_spec(v: GrayView, horizontal: bool) -> Seq<u32> {
    let outer = if horizontal { v.height } else { v.width };
    let groups = group_close_values_spec(empty_lines(v, horizontal, outer as int), Tolerance { num: 1, den: 1 });
    shrunk_all(inner_sections(groups, v.height as int))
}

proof fn lemma_empty_lines_sorted(v: GrayView, horizontal: bool, n: int)
    requires
        n <= u32::MAX,
    ensures
        forall|i: int, j: int|
            0 <= i < j < empty_lines(v, horizontal, n).len() ==> empty_lines(v, horizontal, n)[i]
                < empty_lines(v, horizontal, n)[j],
        forall|i: int|
            0 <= i < empty_lines(v, horizontal, n).len() ==> 0 <= #[trigger] empty_lines(v, horizontal, n)[i] < n,
    decreases n,
{
    if n > 0 {
        lemma_empty_lines_sorted(v, horizontal, n - 1);
        let s = empty_lines(v, horizontal, n - 1);
        let t = empty_lines(v, horizontal, n);
        if line_empty(v, horizontal, n - 1) {
            assert(t == s.push((n - 1) as i64));
            assert forall|i: int| 0 <= i < t.len() implies 0 <= #[trigger] t[i] < n by {
                if i < s.len() {
                    assert(t[i] == s[i]);
                }
            }
            assert forall|i: int, j: int| 0 <= i < j < t.len() implies t[i] < t[j] by {
                assert(t[i] == s[i]);
                if j < s.len() {
                    assert(t[j] == s[j]);
                } else {
                    assert(0 <= s[i] < n - 1);
                }
            }
        }
    }
}

proof fn lemma_group_state_ordered(vals: Seq<i64>, tol: Tolerance, n: int)
    requires
        forall|i: int, j: int| 0 <= i < j < vals.len() ==> vals[i] < vals[j],
        n <= vals.len(),
    ensures
        ({
            let (open, groups) = crate::crop::page_number::group_state(vals, tol, n);
            &&& open matches Some(g) ==> g.0 <= g.1 && g.1 <= vals[n - 1]
            &&& forall|k: int| 0 <= k < groups.len() ==> (#[trigger] groups[k]).0 <= groups[k].1
        }),
    decreases n,
{
    if n > 0 {
        lemma_group_state_ordered(vals, tol, n - 1);
        if n >= 2 {
            assert(vals[n - 2] < vals[n - 1]);
        }
    }
}

proof fn lemma_inner_sections(groups: Seq<(i64, i64)>, h: int)
    ensures
        forall|k: int|
            0 <= k < inner_sections(groups, h).len() ==> {
                let g = #[trigger] inner_sections(groups, h)[k];
                &&& 100 * g.1 < 99 * h
                &&& 100 * g.0 > h
                &&& exists|m: int| 0 <= m < groups.len() && groups[m] == g
            },
    decreases groups.len(),
{
    if groups.len() > 0 {
        lemma_inner_sections(groups.drop_last(), h);
        let s = inner_sections(groups, h);
        assert forall|k: int| 0 <= k < s.len() implies {
            let g = #[trigger] s[k];
            &&& 100 * g.1 < 99 * h
            &&& 100 * g.0 > h
            &&& exists|m: int| 0 <= m < groups.len() && groups[m] == g
        } by {
            let r = inner_sections(groups.drop_last(), h);
            if k < r.len() {
                let m = choose|m: int| 0 <= m < groups.drop_last().len() && groups.drop_last()[m] == r[k];
                assert(groups[m] == s[k]);
            } else {
                assert(groups[groups.len() - 1] == s[k]);
            }
        }
    }
}

fn line_is_empty(v: &GrayImage, horizontal: bool, o: u32) -> (r: bool)
    requires
        v@.wf(),
        horizontal ==> o < v@.height,
        !horizontal ==> o < v@.width,
    ensures
        r == line_empty(v@, horizontal, o as int),
{
    let (w, h) = v.dimensions();
    let inner_len = if horizontal { w } else { h };
    let mut i: u32 = 0;
    while i < inner_len
        invariant
            v@.wf(),
            w == v@.width,
            h == v@.height,
            inner_len == (if horizontal { w } else { h }),
            horizontal ==> o < h,
            !horizontal ==> o < w,
            i <= inner_len,
            horizontal ==> forall|x: int| 0 <= x < i ==> #[trigger] v@.at(x, o as int) == 0,
            !horizontal ==> forall|y: int| 0 <= y < i ==> #[trigger] v@.at(o as int, y) == 0,
        decreases inner_len - i,
    {
        let p = if horizontal { v.get_pixel(i, o) } else { v.get_pixel(o, i) };
        if p != 0 {
            return false;
        }
        i = i + 1;
    }
    true
}

/// The lines (rows when `horizontal`, else columns) to remove: see the
/// module documentation and [`empty_sections_spec`].
pub fn empty_sections(binarized: &GrayImage, horizontal: bool) -> (lines: Vec<u32>)
    requires
        binarized@.wf(),
    ensures
        lines@ == empty_sections_spec(binarized@, horizontal),
{
    let (w, h) = binarized.dimensions();
    let outer_len = if horizontal { h } else { w };
    let mut empty: Vec<i64> = Vec::new();
    let mut o: u32 = 0;
    while o < outer_len
        invariant
            binarized@.wf(),
            w == binarized@.width,
            h == binarized@.height,
            outer_len == (if horizontal { h } else { w }),
            o <= outer_len,
            empty@ == empty_lines(binarized@, horizontal, o as int),
        decreases outer_len - o,
    {
        if line_is_empty(binarized, horizontal, o) {
            empty.push(o as i64);
        }
        o = o + 1;
    }
    let groups = group_close_values(empty.as_slice(), Tolerance { num: 1, den: 1 });
    proof {
        lemma_empty_lines_sorted(binarized@, horizontal, outer_len as int);
        lemma_group_state_ordered(empty@, Tolerance { num: 1, den: 1 }, empty@.len() as int);
        assert(forall|k: int| 0 <= k < groups@.len() ==> (#[trigger] groups@[k]).0 <= groups@[k].1);
    }
    let mut sections: Vec<(i64, i64)> = Vec::new();
    let mut i: usize = 0;
    while i < groups.len()
        invariant
            i <= groups@.len(),
            sections@ == inner_sections(groups@.take(i as int), h as int),
        decreases groups@.len() - i,
    {
        let g = groups[i];
        proof {
            assert(groups@.take(i + 1).drop_last() =~= groups@.take(i as int));
        }
        if 100 * (g.1 as i128) < 99 * (h as i128) && 100 * (g.0 as i128) > h as i128 {
            sections.push(g);
        }
        i = i + 1;
    }
    proof {
        assert(groups@.take(groups@.len() as int) =~= groups@);
        lemma_inner_sections(groups@, h as int);
        assert forall|k: int| 0 <= k < sections@.len() implies (#[trigger] sections@[k]).0 <= sections@[k].1 by {
            let m = choose|m: int| 0 <= m < groups@.len() && groups@[m] == sections@[k];
        }
    }
    let mut lines: Vec<u32> = Vec::new();
    let mut i: usize = 0;
    while i < sections.len()
        invariant
            i <= sections@.len(),
            h == binarized@.height,
            forall|k: int| 0 <= k < sections@.len() ==> 100 * (#[trigger] sections@[k]).1 < 99 * h
                && 100 * sections@[k].0 > h && sections@[k].0 <= sections@[k].1,
            lines@ == shrunk_all(sections@.take(i as int)),
        decreases sections@.len() - i,
    {
        let g = sections[i];
        let span = g.1 as i128 - g.0 as i128;
        let start = g.0 as i128 + span / 50;
        let end = g.1 as i128 - (span + 49) / 50;
        let mut k = start;
        let ghost before = lines@;
        while k < end
            invariant
                lines@ == before + range_seq(start as int, k as int),
                start <= end ==> start <= k <= end,
                start > end ==> k == start,
                0 < g.0,
                g.1 < u32::MAX,
                span == g.1 - g.0,
                span >= 0,
                start == g.0 + span / 50,
                end == g.1 - (span + 49) / 50,
            decreases end - k,
        {
            lines.push(k as u32);
            k = k + 1;
        }
        proof {
            assert(sections@.take(i + 1).drop_last() =~= sections@.take(i as int));
            if start > end {
                assert(range_seq(start as int, end as int) =~= Seq::<u32>::empty());
                assert(range_seq(start as int, start as int) =~= Seq::<u32>::empty());
            }
        }
        i = i + 1;
    }
    proof {
        assert(sections@.take(sections@.len() as int) =~= sections@);
    }
    lines
}

/// The indices in `[0, n)` not listed in `removed`, in increasing order.
pub open spec fn kept_indices(n: int, removed: Seq<u32>) -> Seq<u32>
    decreases n,
{
    if n <= 0 {
        Seq::empty()
    } else {
        let s = kept_indices(n - 1, removed);
        if removed.contains((n - 1) as u32) {
            s
        } else {
            s.push((n - 1) as u32)
        }
    }
}

proof fn lemma_kept_bounds(n: int, removed: Seq<u32>)
    ensures
        kept_indices(n, removed).len() <= if n > 0 { n } else { 0 },
        forall|i: int| 0 <= i < kept_indices(n, removed).len() ==> #[trigger] kept_indices(n, removed)[i] < n,
    decreases n,
{
    if n > 0 {
        lemma_kept_bounds(n - 1, removed);
    }
}

/// The indices kept out of `[0, n)` are exactly those not listed for
/// removal, each once, in increasing order.
pub proof fn lemma_kept_indices_are_the_unremoved(n: int, removed: Seq<u32>)
    requires
        n <= u32::MAX + 1,
    ensures
        forall|i: int|
            0 <= i < kept_indices(n, removed).len() ==> (#[trigger] kept_indices(n, removed)[i]) < n && !removed.contains(
                kept_indices(n, removed)[i],
            ),
        forall|i: int, j: int|
            0 <= i < j < kept_indices(n, removed).len() ==> (#[trigger] kept_indices(n, removed)[i]) < (#[trigger] kept_indices(
                n,
                removed,
            )[j]),
        forall|r: int| 0 <= r < n && !removed.contains(r as u32) ==> #[trigger] kept_indices(n, removed).contains(r as u32),
    decreases n,
{
    if n > 0 {
        lemma_kept_indices_are_the_unremoved(n - 1, removed);
        let s = kept_indices(n - 1, removed);
        let k = kept_indices(n, removed);
        assert forall|r: int| 0 <= r < n && !removed.contains(r as u32) implies #[trigger] k.contains(r as u32) by {
            if r < n - 1 {
                assert(s.contains(r as u32));
                let q = choose|q: int| 0 <= q < s.len() && s[q] == r as u32;
                assert(k[q] == r as u32);
            } else {
                assert(k[k.len() - 1] == r as u32);
            }
        }
    }
}

/// What deleting rows and columns keeps: when some row and some column
/// stay, the result has one row per input row not listed (the rows listed
/// are gone, the others stay, in their order) and likewise one column per
/// column not listed, and each of its pixels is the input's pixel at that
/// row and column.
pub proof fn lemma_delete_keeps_the_unlisted(v: GrayView, rows: Seq<u32>, cols: Seq<u32>)
    requires
        v.wf(),
        v.width <= u32::MAX,
        v.height <= u32::MAX,
        kept_indices(v.height as int, rows).len() > 0,
        kept_indices(v.width as int, cols).len() > 0,
    ensures
        ({
            let out = delete_rows_and_cols_spec(v, rows, cols);
            let kr = kept_indices(v.height as int, rows);
            let kc = kept_indices(v.width as int, cols);
            &&& out.height == kr.len() && out.width == kc.len()
            &&& forall|y: int| 0 <= y < kr.len() ==> (#[trigger] kr[y]) < v.height && !rows.contains(kr[y])
            &&& forall|y1: int, y2: int| 0 <= y1 < y2 < kr.len() ==> (#[trigger] kr[y1]) < (#[trigger] kr[y2])
            &&& forall|r: int| 0 <= r < v.height && !rows.contains(r as u32) ==> #[trigger] kr.contains(r as u32)
            &&& forall|x: int| 0 <= x < kc.len() ==> (#[trigger] kc[x]) < v.width && !cols.contains(kc[x])
            &&& forall|x1: int, x2: int| 0 <= x1 < x2 < kc.len() ==> (#[trigger] kc[x1]) < (#[trigger] kc[x2])
            &&& forall|c: int| 0 <= c < v.width && !cols.contains(c as u32) ==> #[trigger] kc.contains(c as u32)
            &&& forall|x: int, y: int|
                0 <= x < kc.len() && 0 <= y < kr.len() ==> #[trigger] out.at(x, y) == v.at(kc[x] as int, kr[y] as int)
        }),
{
    let kr = kept_indices(v.height as int, rows);
    let kc = kept_indices(v.width as int, cols);
    lemma_kept_indices_are_the_unremoved(v.height as int, rows);
    lemma_kept_indices_are_the_unremoved(v.width as int, cols);
    crate::gray::lemma_view_from_fn(kc.len(), kr.len(), |x: int, y: int| v.at(kc[x] as int, kr[y] as int));
}

/// The rows and columns of `v` not removed, or `v` itself when that would
/// leave no row or no column.
pub open spec fn delete_rows_and_cols_spec(v: GrayView, rows: Seq<u32>, cols: Seq<u32>) -> GrayView {
    let kr = kept_indices(v.height as int, rows);
    let kc = kept_indices(v.width as int, cols);
    if kr.len() == 0 || kc.len() == 0 {
        v
    } else {
        crate::gray::view_from_fn(kc.len(), kr.len(), |x: int, y: int| v.at(kc[x] as int, kr[y] as int))
    }
}

fn kept(n: u32, removed: &Vec<u32>) -> (k: Vec<u32>)
    ensures
        k@ == kept_indices(n as int, removed@),
{
    let mut mask: Vec<bool> = Vec::new();
    let mut i: u32 = 0;
    while i < n
        invariant
            i <= n,
            mask@.len() == i,
            forall|j: int| 0 <= j < i ==> !#[trigger] mask@[j],
        decreases n - i,
    {
        mask.push(false);
        i = i + 1;
    }
    let mut r: usize = 0;
    while r < removed.len()
        invariant
            r <= removed@.len(),
            mask@.len() == n,
            forall|j: int| 0 <= j < n ==> #[trigger] mask@[j] == removed@.take(r as int).contains(j as u32),
        decreases removed@.len() - r,
    {
        let v = removed[r];
        if v < n {
            mask.set(v as usize, true);
        }
        proof {
            assert(removed@.take(r + 1) =~= removed@.take(r as int).push(v));
            assert forall|j: int| 0 <= j < n implies #[trigger] mask@[j] == removed@.take(r + 1).contains(j as u32) by {
                if removed@.take(r as int).contains(j as u32) {
                    let q = choose|q: int| 0 <= q < r && removed@.take(r as int)[q] == j as u32;
                    assert(removed@.take(r + 1)[q] == j as u32);
                }
                if j as u32 == v {
                    assert(removed@.take(r + 1)[r as int] == v);
                }
            }
        }
        r = r + 1;
    }
    proof {
        assert(removed@.take(removed@.len() as int) =~= removed@);
    }
    let mut k: Vec<u32> = Vec::new();
    let mut i: u32 = 0;
    while i < n
        invariant
            i <= n,
            mask@.len() == n,
            forall|j: int| 0 <= j < n ==> #[trigger] mask@[j] == removed@.contains(j as u32),
            k@ == kept_indices(i as int, removed@),
        decreases n - i,
    {
        if !mask[i as usize] {
            k.push(i);
        }
        i = i + 1;
    }
    k
}

/// Keeps only the rows and columns not listed (see
/// [`delete_rows_and_cols_spec`]).
pub fn delete_rows_and_cols(img: &GrayImage, rows: &Vec<u32>, cols: &Vec<u32>) -> (out: GrayImage)
    requires
        img@.wf(),
    ensures
        out@ == delete_rows_and_cols_spec(img@, rows@, cols@),
        out@.wf(),
{
    let (w, h) = img.dimensions();
    let kept_rows = kept(h, rows);
    let kept_cols = kept(w, cols);
    proof {
        lemma_kept_bounds(h as int, rows@);
        lemma_kept_bounds(w as int, cols@);
    }
    if kept_rows.len() == 0 || kept_cols.len() == 0 {
        return img.clone();
    }
    let ghost v = img@;
    let nw = kept_cols.len() as u32;
    let nh = kept_rows.len() as u32;
    let ghost f = |x: int, y: int| v.at(kept_cols@[x] as int, kept_rows@[y] as int);
    let mut out: Vec<u8> = Vec::new();
    let _n = img.as_raw().len();
    proof {
        assert(nw * nh <= w * h) by (nonlinear_arith)
            requires
                nw <= w,
                nh <= h,
        ;
    }
    let mut y: u32 = 0;
    while y < nh
        invariant
            v == img@,
            v.wf(),
            nw == kept_cols@.len(),
            nh == kept_rows@.len(),
            nw * nh <= usize::MAX,
            forall|i: int| 0 <= i < kept_cols@.len() ==> #[trigger] kept_cols@[i] < w,
            forall|i: int| 0 <= i < kept_rows@.len() ==> #[trigger] kept_rows@[i] < h,
            w == v.width,
            h == v.height,
            y <= nh,
            out@.len() == y * nw,
            forall|j: int| 0 <= j < out@.len() ==> #[trigger] out@[j] == v.at(kept_cols@[j % (nw as int)] as int, kept_rows@[j / (nw as int)] as int),
        decreases nh - y,
    {
        let mut x: u32 = 0;
        while x < nw
            invariant
                v == img@,
                v.wf(),
                nw == kept_cols@.len(),
                nh == kept_rows@.len(),
                nw * nh <= usize::MAX,
                forall|i: int| 0 <= i < kept_cols@.len() ==> #[trigger] kept_cols@[i] < w,
                forall|i: int| 0 <= i < kept_rows@.len() ==> #[trigger] kept_rows@[i] < h,
                w == v.width,
                h == v.height,
                y < nh,
                x <= nw,
                out@.len() == y * nw + x,
                forall|j: int| 0 <= j < out@.len() ==> #[trigger] out@[j] == v.at(kept_cols@[j % (nw as int)] as int, kept_rows@[j / (nw as int)] as int),
            decreases nw - x,
        {
            let q = img.get_pixel(kept_cols[x as usize], kept_rows[y as usize]);
            proof {
                crate::gray::lemma_row_major(x as int, y as int, nw as int);
            }
            let ghost prev = out@;
            out.push(q);
            proof {
                assert forall|j: int| 0 <= j < out@.len() implies #[trigger] out@[j] == v.at(kept_cols@[j % (nw as int)] as int, kept_rows@[j / (nw as int)] as int) by {
                    if j < prev.len() {
                        assert(out@[j] == prev[j]);
                    }
                }
            }
            x = x + 1;
        }
        proof {
            assert((y + 1) * nw == y * nw + nw) by (nonlinear_arith);
        }
        y = y + 1;
    }
    proof {
        assert(nh * nw == nw * nh) by (nonlinear_arith);
        let target = delete_rows_and_cols_spec(v, rows@, cols@);
        assert(out@ =~= target.data);
    }
    GrayImage::from_view_parts(nw, nh, out)
}

/// Removes the empty inter-panel gutters of `page`, detected on its
/// binarized mask `binarized` (same size): rows only in `Horizontal` mode,
/// rows and columns in `Both`, nothing in `Disabled`.
pub fn crop_empty_sections(page: &GrayImage, binarized: &GrayImage, mode: InterPanelMode) -> (out: GrayImage)
    requires
        page@.wf(),
        binarized@.wf(),
    ensures
        mode == InterPanelMode::Disabled ==> out@ == page@,
        mode != InterPanelMode::Disabled ==> out@ == delete_rows_and_cols_spec(
            page@,
            empty_sections_spec(binarized@, true),
            if mode == InterPanelMode::Both { empty_sections_spec(binarized@, false) } else { Seq::empty() },
        ),
{
    if mode == InterPanelMode::Disabled {
        return page.clone();
    }
    let rows = empty_sections(binarized, true);
    let cols = if mode == InterPanelMode::Both {
        empty_sections(binarized, false)
    } else {
        Vec::new()
    };
    delete_rows_and_cols(page, &rows, &cols)
}

} // verus!
