//! Page-number-aware margin cropping. Starting from the margin bbox, look at
//! a thin window just above its bottom edge, find small dark blobs there (by
//! grouping nearby dark pixels per row and merging nearby row groups across
//! rows), and when there is exactly one blob small enough to be a 1-3 digit
//! page number, crop from just above it downward.
//!
//! All size and distance tolerances are fractions of the full page:
//! blobs merge within 1% of the width horizontally and 0.2% of the height
//! vertically; a blob must be at least 0.3% x 0.6% and at most 4.5% x 2%
//! (but never under 3 pixels tall) of the page; the window is 2.5% of the
//! page height.

use crate::crop::{Bbox, Binarized, is_blank, is_tight_bbox, get_bbox, sub_image};
use crate::gray::GrayView;
use vstd::prelude::*;

verus! {

/// A non-negative rational tolerance `num / den`.
#[derive(Debug, Clone, Copy, PartialEq, Eq, Structural)]
pub struct Tolerance {
    pub num: u32,
    pub den: u32,
}

/// A distance `d` is within tolerance: `d <= num / den`.
pub open spec fn within(d: int, tol: Tolerance) -> bool {
    d * tol.den <= tol.num
}

/// The state of [`group_close_values`] after its first `n` values: the
/// group being built (if any) and the groups already closed.
pub open spec fn group_state(vals: Seq<i64>, tol: Tolerance, n: int) -> (Option<(i64, i64)>, Seq<(i64, i64)>)
    decreases n,
{
    if n <= 0 {
        (None, Seq::empty())
    } else {
        let (open, groups) = group_state(vals, tol, n - 1);
        let v = vals[n - 1];
        match open {
            None => (Some((v, v)), groups),
            Some((gs, ge)) => if within(v - ge, tol) {
                (Some((gs, v)), groups)
            } else {
                (None, groups.push((gs, ge)))
            },
        }
    }
}

/// Groups a sorted run of values into `(first, last)` runs whose
/// consecutive members are within `tol` of each other. The value that
/// breaks a run (too far from it) is dropped: it neither joins the run it
/// broke away from nor starts the next one.
pub open spec fn group_close_values_spec(vals: Seq<i64>, tol: Tolerance) -> Seq<(i64, i64)> {
    let (open, groups) = group_state(vals, tol, vals.len() as int);
    match open {
        Some(g) => groups.push(g),
        None => groups,
    }
}

fn within_exec(d: i128, t: Tolerance) -> (r: bool)
    requires
        -0x4_0000_0000_0000_0000 <= d <= 0x4_0000_0000_0000_0000,
    ensures
        r == within(d as int, t),
{
    assert(-0x4_0000_0000_0000_0000 * 0x1_0000_0000 <= d * (t.den as i128) <= 0x4_0000_0000_0000_0000 * 0x1_0000_0000) by (nonlinear_arith)
        requires
            -0x4_0000_0000_0000_0000 <= d <= 0x4_0000_0000_0000_0000,
            0 <= t.den <= u32::MAX,
    ;
    d * (t.den as i128) <= t.num as i128
}

/// See [`group_close_values_spec`].
pub fn group_close_values(vals: &[i64], tol: Tolerance) -> (groups: Vec<(i64, i64)>)
    ensures
        groups@ == group_close_values_spec(vals@, tol),
{
    let mut groups: Vec<(i64, i64)> = Vec::new();
    let mut open = false;
    let mut group_start: i64 = 0;
    let mut group_end: i64 = 0;
    let n = vals.len();
    for i in 0..n
        invariant
            n == vals@.len(),
            group_state(vals@, tol, i as int) == (if open {
                Some((group_start, group_end))
            } else {
                None::<(i64, i64)>
            }, groups@),
    {
        let v = vals[i];
        if !open {
            open = true;
            group_start = v;
            group_end = v;
        } else {
            let dist = (v as i128) - (group_end as i128);
            if within_exec(dist, tol) {
                group_end = v;
            } else {
                groups.push((group_start, group_end));
                open = false;
            }
        }
    }
    if open {
        groups.push((group_start, group_end));
    }
    groups
}

/// A blob's bounding box `(x0, x1, y0, y1)`, all inclusive.
pub type RowBox = (i64, i64, i64, i64);

/// `b1` and `b2` lie within the tolerances of each other on both axes.
pub open spec fn boxes_touch(b1: RowBox, b2: RowBox, tx: Tolerance, ty: Tolerance) -> bool {
    &&& within(b2.0 - b1.1, tx)
    &&& within(b1.0 - b2.1, tx)
    &&& within(b2.2 - b1.3, ty)
    &&& within(b1.2 - b2.3, ty)
}

/// The members of `s` that touch `g` (`keep`), or that do not (`!keep`),
/// in order.
pub open spec fn partition(s: Seq<RowBox>, g: RowBox, tx: Tolerance, ty: Tolerance, keep: bool) -> Seq<RowBox>
    decreases s.len(),
{
    if s.len() == 0 {
        Seq::empty()
    } else {
        let rest = partition(s.drop_last(), g, tx, ty, keep);
        if boxes_touch(g, s.last(), tx, ty) == keep {
            rest.push(s.last())
        } else {
            rest
        }
    }
}

pub proof fn lemma_partition_len(s: Seq<RowBox>, g: RowBox, tx: Tolerance, ty: Tolerance)
    ensures
        partition(s, g, tx, ty, true).len() + partition(s, g, tx, ty, false).len() == s.len(),
    decreases s.len(),
{
    if s.len() > 0 {
        lemma_partition_len(s.drop_last(), g, tx, ty);
    }
}

/// The bounding box of `g` together with every box of `s`.
pub open spec fn hull(g: RowBox, s: Seq<RowBox>) -> RowBox
    decreases s.len(),
{
    if s.len() == 0 {
        g
    } else {
        let h = hull(g, s.drop_last());
        let b = s.last();
        (
            if b.0 < h.0 { b.0 } else { h.0 },
            if b.1 > h.1 { b.1 } else { h.1 },
            if b.2 < h.2 { b.2 } else { h.2 },
            if b.3 > h.3 { b.3 } else { h.3 },
        )
    }
}

/// Repeatedly merges every box touching `boxes[j]` into one hull (placed
/// at the end, after the boxes that did not touch), restarting the scan from
/// the front after each merge, until no box touches any later one.
pub open spec fn merge_boxes_spec(boxes: Seq<RowBox>, j: int, tx: Tolerance, ty: Tolerance) -> Seq<RowBox>
    decreases boxes.len(), boxes.len() - j,
{
    if j < 0 || j + 1 >= boxes.len() {
        boxes
    } else {
        let g1 = boxes[j];
        let rest = boxes.subrange(j + 1, boxes.len() as int);
        let touching = partition(rest, g1, tx, ty, true);
        let others = partition(rest, g1, tx, ty, false);
        if touching.len() == 0 {
            merge_boxes_spec(boxes, j + 1, tx, ty)
        } else {
            proof {
                lemma_partition_len(rest, g1, tx, ty);
            }
            merge_boxes_spec(boxes.take(j) + others.push(hull(g1, touching)), 0, tx, ty)
        }
    }
}

fn touches(b1: RowBox, b2: RowBox, tx: Tolerance, ty: Tolerance) -> (r: bool)
    ensures
        r == boxes_touch(b1, b2, tx, ty),
{
    within_exec(b2.0 as i128 - b1.1 as i128, tx) && within_exec(b1.0 as i128 - b2.1 as i128, tx)
        && within_exec(b2.2 as i128 - b1.3 as i128, ty) && within_exec(b1.2 as i128 - b2.3 as i128, ty)
}

/// See [`merge_boxes_spec`].
pub fn merge_boxes(boxes: Vec<RowBox>, tx: Tolerance, ty: Tolerance) -> (merged: Vec<RowBox>)
    ensures
        merged@ == merge_boxes_spec(boxes@, 0, tx, ty),
{
    let mut boxes = boxes;
    let ghost goal = merge_boxes_spec(boxes@, 0, tx, ty);
    let mut j: usize = 0;
    while j < boxes.len() && j + 1 < boxes.len()
        invariant
            merge_boxes_spec(boxes@, j as int, tx, ty) == goal,
            j == 0 || j < boxes@.len(),
        decreases boxes@.len(), boxes@.len() - j,
    {
        let g1 = boxes[j];
        let n = boxes.len();
        let ghost rest = boxes@.subrange(j + 1, n as int);
        let mut touching: Vec<RowBox> = Vec::new();
        let mut others: Vec<RowBox> = Vec::new();
        let mut k = j + 1;
        while k < n
            invariant
                n == boxes@.len(),
                j + 1 <= k <= n,
                g1 == boxes@[j as int],
                rest == boxes@.subrange(j + 1, n as int),
                touching@ == partition(rest.take(k - j - 1), g1, tx, ty, true),
                others@ == partition(rest.take(k - j - 1), g1, tx, ty, false),
            decreases n - k,
        {
            let b = boxes[k];
            proof {
                assert(rest.take(k - j) =~= rest.take(k - j - 1).push(b));
                assert(rest.take(k - j).drop_last() =~= rest.take(k - j - 1));
            }
            if touches(g1, b, tx, ty) {
                touching.push(b);
            } else {
                others.push(b);
            }
            k = k + 1;
        }
        proof {
            assert(rest.take(n - j - 1) =~= rest);
        }
        if touching.len() == 0 {
            j = j + 1;
        } else {
            let mut h = g1;
            let mut i: usize = 0;
            while i < touching.len()
                invariant
                    h == hull(g1, touching@.take(i as int)),
                    i <= touching@.len(),
                decreases touching@.len() - i,
            {
                let b = touching[i];
                proof {
                    assert(touching@.take(i + 1).drop_last() =~= touching@.take(i as int));
                }
                h = (
                    if b.0 < h.0 { b.0 } else { h.0 },
                    if b.1 > h.1 { b.1 } else { h.1 },
                    if b.2 < h.2 { b.2 } else { h.2 },
                    if b.3 > h.3 { b.3 } else { h.3 },
                );
                i = i + 1;
            }
            proof {
                assert(touching@.take(touching@.len() as int) =~= touching@);
            }
            others.push(h);
            let mut next: Vec<RowBox> = Vec::new();
            let mut i: usize = 0;
            while i < j
                invariant
                    i <= j < n,
                    n == boxes@.len(),
                    next@ == boxes@.take(i as int),
                decreases j - i,
            {
                next.push(boxes[i]);
                proof {
                    assert(boxes@.take(i + 1) =~= boxes@.take(i as int).push(boxes@[i as int]));
                }
                i = i + 1;
            }
            let ghost prefix = next@;
            next.append(&mut others);
            proof {
                lemma_partition_len(rest, g1, tx, ty);
                assert(next@ =~= boxes@.take(j as int) + partition(rest, g1, tx, ty, false).push(
                    hull(g1, partition(rest, g1, tx, ty, true)),
                ));
            }
            boxes = next;
            j = 0;
        }
    }
    boxes
}

/// Columns `x` of row `y` in `[left, x_end)` whose (blurred) value is at or
/// below `t`, as offsets from `left`, in increasing order.
pub open spec fn dark_columns(g: GrayView, t: int, left: int, y: int, x_end: int) -> Seq<i64>
    decreases x_end - left,
{
    if x_end <= left {
        Seq::empty()
    } else {
        let s = dark_columns(g, t, left, y, x_end - 1);
        if g.at(x_end - 1, y) <= t {
            s.push((x_end - 1 - left) as i64)
        } else {
            s
        }
    }
}

/// One row's groups as boxes one row tall.
pub open spec fn row_boxes(groups: Seq<(i64, i64)>, r: int) -> Seq<RowBox> {
    groups.map_values(|gr: (i64, i64)| (gr.0, gr.1, r as i64, r as i64))
}

/// The row-group boxes of the first `n` rows of the window starting at page
/// row `top`, columns `[left, right)`, row coordinates window-relative.
pub open spec fn window_boxes(g: GrayView, t: int, left: int, right: int, top: int, tx: Tolerance, n: int) -> Seq<RowBox>
    decreases n,
{
    if n <= 0 {
        Seq::empty()
    } else {
        window_boxes(g, t, left, right, top, tx, n - 1) + row_boxes(
            group_close_values_spec(dark_columns(g, t, left, top + n - 1, right), tx),
            n - 1,
        )
    }
}

/// The boxes at least 0.3% of the page width wide and 0.6% of its height tall.
pub open spec fn big_boxes(s: Seq<RowBox>, w: int, h: int) -> Seq<RowBox>
    decreases s.len(),
{
    if s.len() == 0 {
        Seq::empty()
    } else {
        let rest = big_boxes(s.drop_last(), w, h);
        let b = s.last();
        if (b.1 - b.0) * 1000 >= 3 * w && (b.3 - b.2) * 1000 >= 6 * h {
            rest.push(b)
        } else {
            rest
        }
    }
}

/// The smallest top row among the boxes whose bottom row is `row`.
pub open spec fn lowest_top(s: Seq<RowBox>, row: int) -> Option<int>
    decreases s.len(),
{
    if s.len() == 0 {
        None
    } else {
        let m = lowest_top(s.drop_last(), row);
        let b = s.last();
        if b.3 == row {
            Some(
                match m {
                    None => b.2 as int,
                    Some(v) => if (b.2 as int) < v { b.2 as int } else { v },
                },
            )
        } else {
            m
        }
    }
}

/// The boxes whose bottom row is at or below `min_y`.
pub open spec fn boxes_reaching(s: Seq<RowBox>, min_y: int) -> Seq<RowBox>
    decreases s.len(),
{
    if s.len() == 0 {
        Seq::empty()
    } else {
        let rest = boxes_reaching(s.drop_last(), min_y);
        if s.last().3 >= min_y {
            rest.push(s.last())
        } else {
            rest
        }
    }
}

/// The height of the page region the page-number crop keeps, given the
/// margin bbox `b` and the blurred page `g` (both `w x h`), when the window
/// is non-degenerate: everything above the lone page-number blob, when there
/// is exactly one small enough blob level with the lowest ones; otherwise the
/// whole page height (the cut never reaches past the page).
pub open spec fn page_number_cut(g: GrayView, t: int, b: Bbox, w: int, h: int) -> int {
    let window_h = h * 25 / 1000;
    let top = b.bottom - window_h;
    let tx = Tolerance { num: w as u32, den: 100 };
    let ty = Tolerance { num: h as u32, den: 500 };
    let merged = merge_boxes_spec(window_boxes(g, t, b.left as int, b.right as int, top, tx, window_h), 0, tx, ty);
    let boxes = big_boxes(merged, w, h);
    let min_y = match lowest_top(boxes, window_h - 1) {
        Some(v) => v,
        None => 0,
    };
    let same = boxes_reaching(boxes, min_y);
    let force = same.len() == 1 && (same[0].1 - same[0].0) * 1000 <= 45 * w && ((same[0].3
        - same[0].2) * 50 <= h || same[0].3 - same[0].2 <= 3);
    if force {
        let nb = b.bottom - (window_h - same[0].2 + 1);
        if nb <= 0 {
            0
        } else if nb > h {
            h
        } else {
            nb
        }
    } else {
        h
    }
}

/// The blobs at the bottom of the page-number window that are level with
/// the lowest ones (their bottom row at or below the top of the lowest
/// blob), in the window of `page_number_cut`.
pub open spec fn bottom_level_blobs(g: GrayView, t: int, b: Bbox, w: int, h: int) -> Seq<RowBox> {
    let window_h = h * 25 / 1000;
    let top = b.bottom - window_h;
    let tx = Tolerance { num: w as u32, den: 100 };
    let ty = Tolerance { num: h as u32, den: 500 };
    let merged = merge_boxes_spec(window_boxes(g, t, b.left as int, b.right as int, top, tx, window_h), 0, tx, ty);
    let boxes = big_boxes(merged, w, h);
    let min_y = match lowest_top(boxes, window_h - 1) {
        Some(v) => v,
        None => 0,
    };
    boxes_reaching(boxes, min_y)
}

/// Two or more blobs level with each other at the bottom are content, not
/// a lone page number, and none at all is no page number either: the
/// page-number crop then keeps the whole page height, so the margin bbox
/// stands.
pub proof fn lemma_no_lone_blob_keeps_the_page(g: GrayView, t: int, b: Bbox, w: int, h: int)
    requires
        bottom_level_blobs(g, t, b, w, h).len() != 1,
    ensures
        page_number_cut(g, t, b, w, h) == h,
{
}

/// The first `n` rows of `v`.
pub open spec fn top_rows(v: GrayView, n: int) -> GrayView {
    crate::gray::view_from_fn(v.width, n as nat, |x: int, y: int| v.at(x, y))
}

fn dark_columns_exec(p: &Binarized, left: u32, right: u32, y: u32) -> (cols: Vec<i64>)
    requires
        p.grayscale@.wf(),
        left <= right <= p.grayscale@.width,
        y < p.grayscale@.height,
    ensures
        cols@ == dark_columns(p.grayscale@, p.threshold as int, left as int, y as int, right as int),
{
    let mut cols: Vec<i64> = Vec::new();
    let mut x = left;
    while x < right
        invariant
            p.grayscale@.wf(),
            left <= x <= right <= p.grayscale@.width,
            y < p.grayscale@.height,
            cols@ == dark_columns(p.grayscale@, p.threshold as int, left as int, y as int, x as int),
        decreases right - x,
    {
        if (p.grayscale.get_pixel(x, y) as i32) <= p.threshold {
            cols.push((x - left) as i64);
        }
        x = x + 1;
    }
    cols
}

/// The page-number-aware margin bbox, on an already binarized page: the
/// margin bbox, but cut above a lone bottom page number (see
/// [`page_number_cut`]). `None` when the page has no content.
pub fn page_number_bbox(p: &Binarized) -> (r: Option<Bbox>)
    requires
        p.grayscale@.wf(),
        p.binary@.wf(),
        p.grayscale@.width == p.binary@.width,
        p.grayscale@.height == p.binary@.height,
        p.bbox is None <==> is_blank(p.binary@),
        p.bbox matches Some(bb) ==> is_tight_bbox(p.binary@, bb),
    ensures
        p.bbox is None ==> r is None,
        p.bbox matches Some(b) ==> ({
            let w = p.grayscale@.width as int;
            let h = p.grayscale@.height as int;
            let window_h = h * 25 / 1000;
            window_h > 0 && b.bottom >= window_h && bottom_level_blobs(p.grayscale@, p.threshold as int, b, w, h).len()
                != 1 ==> r == Some(b)
        }),
        p.bbox matches Some(b) ==> ({
            let w = p.grayscale@.width as int;
            let h = p.grayscale@.height as int;
            let window_h = h * 25 / 1000;
            if window_h == 0 || b.bottom < window_h {
                r == Some(b)
            } else {
                let cut = top_rows(p.binary@, page_number_cut(p.grayscale@, p.threshold as int, b, w, h));
                &&& r is None <==> is_blank(cut)
                &&& r matches Some(rb) ==> is_tight_bbox(cut, rb)
            }
        }),
{
    let bbox = match p.bbox {
        Some(b) => b,
        None => return None,
    };
    let (w, h) = p.grayscale.dimensions();
    let window_h = ((h as u64) * 25 / 1000) as u32;
    if window_h == 0 || bbox.bottom < window_h {
        return Some(bbox);
    }
    let window_top = bbox.bottom - window_h;
    let tx = Tolerance { num: w, den: 100 };
    let ty = Tolerance { num: h, den: 500 };
    let ghost g = p.grayscale@;
    let ghost t = p.threshold as int;
    let mut window_groups: Vec<RowBox> = Vec::new();
    let mut row: u32 = 0;
    while row < window_h
        invariant
            g == p.grayscale@,
            g.wf(),
            t == p.threshold,
            w == g.width,
            h == g.height,
            bbox.left < bbox.right <= w,
            bbox.bottom <= h,
            window_h <= bbox.bottom,
            window_top == bbox.bottom - window_h,
            row <= window_h,
            window_groups@ == window_boxes(g, t, bbox.left as int, bbox.right as int, window_top as int, tx, row as int),
        decreases window_h - row,
    {
        let cols = dark_columns_exec(p, bbox.left, bbox.right, window_top + row);
        let groups = group_close_values(cols.as_slice(), tx);
        let ghost before = window_groups@;
        let mut k: usize = 0;
        while k < groups.len()
            invariant
                k <= groups@.len(),
                window_groups@ == before + row_boxes(groups@.take(k as int), row as int),
            decreases groups@.len() - k,
        {
            let gr = groups[k];
            window_groups.push((gr.0, gr.1, row as i64, row as i64));
            proof {
                assert(groups@.take(k + 1) =~= groups@.take(k as int).push(gr));
                assert(row_boxes(groups@.take(k + 1), row as int) =~= row_boxes(groups@.take(k as int), row as int).push((gr.0, gr.1, row as i64, row as i64)));
            }
            k = k + 1;
        }
        proof {
            assert(groups@.take(groups@.len() as int) =~= groups@);
        }
        row = row + 1;
    }
    let merged = merge_boxes(window_groups, tx, ty);
    let mut boxes: Vec<RowBox> = Vec::new();
    let mut i: usize = 0;
    while i < merged.len()
        invariant
            i <= merged@.len(),
            boxes@ == big_boxes(merged@.take(i as int), w as int, h as int),
        decreases merged@.len() - i,
    {
        let b = merged[i];
        proof {
            assert(merged@.take(i + 1).drop_last() =~= merged@.take(i as int));
        }
        if (b.1 as i128 - b.0 as i128) * 1000 >= 3 * (w as i128) && (b.3 as i128 - b.2 as i128) * 1000 >= 6 * (h as i128) {
            boxes.push(b);
        }
        i = i + 1;
    }
    proof {
        assert(merged@.take(merged@.len() as int) =~= merged@);
    }
    let lowest_row = (window_h - 1) as i64;
    let mut found = false;
    let mut min_y: i64 = 0;
    let mut i: usize = 0;
    while i < boxes.len()
        invariant
            i <= boxes@.len(),
            lowest_top(boxes@.take(i as int), lowest_row as int) == (if found { Some(min_y as int) } else { None::<int> }),
            !found ==> min_y == 0,
        decreases boxes@.len() - i,
    {
        let b = boxes[i];
        proof {
            assert(boxes@.take(i + 1).drop_last() =~= boxes@.take(i as int));
        }
        if b.3 == lowest_row {
            if !found || b.2 < min_y {
                min_y = b.2;
            }
            found = true;
        }
        i = i + 1;
    }
    proof {
        assert(boxes@.take(boxes@.len() as int) =~= boxes@);
    }
    let mut same: Vec<RowBox> = Vec::new();
    let mut i: usize = 0;
    while i < boxes.len()
        invariant
            i <= boxes@.len(),
            same@ == boxes_reaching(boxes@.take(i as int), min_y as int),
        decreases boxes@.len() - i,
    {
        let b = boxes[i];
        proof {
            assert(boxes@.take(i + 1).drop_last() =~= boxes@.take(i as int));
        }
        if b.3 >= min_y {
            same.push(b);
        }
        i = i + 1;
    }
    proof {
        assert(boxes@.take(boxes@.len() as int) =~= boxes@);
    }
    let force = same.len() == 1 && (same[0].1 as i128 - same[0].0 as i128) * 1000 <= 45 * (w as i128)
        && ((same[0].3 as i128 - same[0].2 as i128) * 50 <= h as i128 || same[0].3 as i128 - same[0].2 as i128 <= 3);
    let restrict_to: u32 = if force {
        let nb = bbox.bottom as i128 - (window_h as i128 - same[0].2 as i128 + 1);
        if nb <= 0 {
            0
        } else if nb > h as i128 {
            h
        } else {
            nb as u32
        }
    } else {
        h
    };
    proof {
        let wh = h * 25 / 1000;
        assert(window_h as int == wh);
        let txs = Tolerance { num: w as u32, den: 100 };
        assert(tx == txs);
        assert(window_groups@ == window_boxes(g, t, bbox.left as int, bbox.right as int, bbox.bottom - wh, txs, wh));
        assert(lowest_row as int == wh - 1);
        assert(min_y as int == (match lowest_top(boxes@, wh - 1) { Some(v) => v, None => 0 }));
    }
    assert(restrict_to == page_number_cut(g, t, bbox, w as int, h as int));
    let restricted = sub_image(&p.binary, 0, 0, w, restrict_to);
    proof {
        crate::gray::lemma_view_from_fn(w as nat, restrict_to as nat, |x: int, y: int| p.binary@.at(x, y));
        crate::gray::lemma_view_ext(restricted@, top_rows(p.binary@, restrict_to as int));
    }
    let r = get_bbox(&restricted);
    proof {
        if bottom_level_blobs(g, t, bbox, w as int, h as int).len() != 1 {
            lemma_no_lone_blob_keeps_the_page(g, t, bbox, w as int, h as int);
            assert(restrict_to == h);
            crate::gray::lemma_view_ext(restricted@, p.binary@);
            assert(!is_blank(p.binary@));
            if let Some(rb) = r {
                crate::crop::lemma_tight_bbox_unique(p.binary@, rb, bbox);
            }
        }
    }
    r
}

} // verus!
