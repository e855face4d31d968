//! Crop algorithms: the shared binarization, bounding-box and crop-policy
//! primitives, plus the margin, page-number and inter-panel detectors built
//! on them.

pub mod inter_panel;
pub mod page_number;

use crate::gray::{
    lemma_index_bounds, lemma_row_major, lemma_view_from_fn, view_from_fn, GrayImage, GrayView,
};
use vstd::prelude::*;

verus! {

/// The page's detected background color: nearly every manga page is white
/// with dark ink; stylized title pages can be the other way round.
#[derive(Debug, Clone, Copy, PartialEq, Eq, Structural)]
pub enum Background {
    White,
    Dark,
}

/// A bounding box, half-open: `[left, right) x [top, bottom)`.
#[derive(Debug, Clone, Copy, PartialEq, Eq, Structural)]
pub struct Bbox {
    pub left: u32,
    pub top: u32,
    pub right: u32,
    pub bottom: u32,
}

/// The crop rectangle actually applied to a page, half-open like [`Bbox`].
#[derive(Debug, Clone, Copy, PartialEq, Eq, Structural)]
pub struct CropBox {
    pub left: u32,
    pub top: u32,
    pub right: u32,
    pub bottom: u32,
}

/// Pixel `(x, y)` is inside the image and non-zero.
pub open spec fn is_set(v: GrayView, x: int, y: int) -> bool {
    v.contains(x, y) && v.at(x, y) != 0
}

/// `b` is the tight bounding box of the non-zero pixels of `v`: every such
/// pixel lies inside it, and each of its four edges touches one.
pub open spec fn is_tight_bbox(v: GrayView, b: Bbox) -> bool {
    &&& b.left < b.right <= v.width
    &&& b.top < b.bottom <= v.height
    &&& forall|x: int, y: int|
        is_set(v, x, y) ==> b.left <= x < b.right && b.top <= y < b.bottom
    &&& exists|y: int| #[trigger] is_set(v, b.left as int, y)
    &&& exists|y: int| #[trigger] is_set(v, b.right - 1, y)
    &&& exists|x: int| #[trigger] is_set(v, x, b.top as int)
    &&& exists|x: int| #[trigger] is_set(v, x, b.bottom - 1)
}

/// A bounding box is determined by the pixels it bounds.
pub proof fn lemma_tight_bbox_unique(v: GrayView, b1: Bbox, b2: Bbox)
    requires
        is_tight_bbox(v, b1),
        is_tight_bbox(v, b2),
    ensures
        b1 == b2,
{
    let y1 = choose|y: int| #[trigger] is_set(v, b1.left as int, y);
    let y2 = choose|y: int| #[trigger] is_set(v, b2.left as int, y);
    let y3 = choose|y: int| #[trigger] is_set(v, b1.right - 1, y);
    let y4 = choose|y: int| #[trigger] is_set(v, b2.right - 1, y);
    let x1 = choose|x: int| #[trigger] is_set(v, x, b1.top as int);
    let x2 = choose|x: int| #[trigger] is_set(v, x, b2.top as int);
    let x3 = choose|x: int| #[trigger] is_set(v, x, b1.bottom - 1);
    let x4 = choose|x: int| #[trigger] is_set(v, x, b2.bottom - 1);
}

/// `v` has no non-zero pixel.
pub open spec fn is_blank(v: GrayView) -> bool {
    forall|x: int, y: int| !is_set(v, x, y)
}

/// The bounding box of the non-zero pixels, or `None` when the image is
/// entirely zero.
pub fn get_bbox(img: &GrayImage) -> (r: Option<Bbox>)
    requires
        img@.wf(),
    ensures
        r is None <==> is_blank(img@),
        r matches Some(b) ==> is_tight_bbox(img@, b),
{
    let (w, h) = img.dimensions();
    let ghost v = img@;
    let mut found = false;
    let mut l: u32 = 0;
    let mut r: u32 = 0;
    let mut t: u32 = 0;
    let mut b: u32 = 0;
    let ghost mut ly: int = 0;
    let ghost mut ry: int = 0;
    let ghost mut tx: int = 0;
    let ghost mut bx: int = 0;
    let mut y: u32 = 0;
    while y < h
        invariant
            v == img@,
            v.wf(),
            w == v.width,
            h == v.height,
            y <= h,
            found <==> exists|xx: int, yy: int| yy < y && #[trigger] is_set(v, xx, yy),
            found ==> {
                &&& l <= r < w
                &&& t <= b < y
                &&& forall|xx: int, yy: int|
                    yy < y && #[trigger] is_set(v, xx, yy) ==> l <= xx <= r && t <= yy <= b
                &&& is_set(v, l as int, ly) && is_set(v, r as int, ry)
                &&& is_set(v, tx, t as int) && is_set(v, bx, b as int)
            },
        decreases h - y,
    {
        let mut x: u32 = 0;
        while x < w
            invariant
                v == img@,
                v.wf(),
                w == v.width,
                h == v.height,
                y < h,
                x <= w,
                found <==> exists|xx: int, yy: int|
                    (yy < y || (yy == y && xx < x)) && #[trigger] is_set(v, xx, yy),
                found ==> {
                    &&& l <= r < w
                    &&& t <= b <= y
                    &&& forall|xx: int, yy: int|
                        (yy < y || (yy == y && xx < x)) && #[trigger] is_set(v, xx, yy) ==> l <= xx
                            <= r && t <= yy <= b
                    &&& is_set(v, l as int, ly) && is_set(v, r as int, ry)
                    &&& is_set(v, tx, t as int) && is_set(v, bx, b as int)
                },
            decreases w - x,
        {
            if img.get_pixel(x, y) != 0 {
                assert(is_set(v, x as int, y as int));
                if !found {
                    l = x;
                    r = x;
                    t = y;
                    b = y;
                    proof {
                        ly = y as int;
                        ry = y as int;
                        tx = x as int;
                        bx = x as int;
                    }
                    found = true;
                } else {
                    if x < l {
                        l = x;
                        proof {
                            ly = y as int;
                        }
                    }
                    if x > r {
                        r = x;
                        proof {
                            ry = y as int;
                        }
                    }
                    if y > b {
                        b = y;
                        proof {
                            bx = x as int;
                        }
                    }
                }
            }
            x = x + 1;
        }
        y = y + 1;
    }
    if found {
        let bbox = Bbox { left: l, top: t, right: r + 1, bottom: b + 1 };
        assert(is_set(v, bbox.left as int, ly));
        assert(is_set(v, bbox.right - 1, ry));
        assert(is_set(v, tx, bbox.top as int));
        assert(is_set(v, bx, bbox.bottom - 1));
        assert(is_tight_bbox(v, bbox));
        Some(bbox)
    } else {
        assert forall|xx: int, yy: int| !is_set(v, xx, yy) by {
            if is_set(v, xx, yy) {
                assert(yy < y);
            }
        }
        None
    }
}

/// The view with every pixel replaced by `f` of itself.
pub open spec fn map_view(v: GrayView, f: spec_fn(u8) -> u8) -> GrayView {
    GrayView { width: v.width, height: v.height, data: v.data.map_values(f) }
}

/// Foreground test used by the crop detectors: a pixel at or below
/// `threshold` (dark, i.e. ink on a white page) becomes 255, the rest 0.
pub open spec fn threshold_pixel(p: u8, threshold: int) -> u8 {
    if p <= threshold {
        255
    } else {
        0
    }
}

/// Binarizes: pixels `<= threshold` become 255 (foreground), all others 0.
pub fn threshold_binary(img: &GrayImage, threshold: i32) -> (out: GrayImage)
    requires
        img@.wf(),
    ensures
        out@ == map_view(img@, |p: u8| threshold_pixel(p, threshold as int)),
        out@.wf(),
{
    let data = img.as_raw();
    let n = data.len();
    let mut out: Vec<u8> = Vec::with_capacity(n);
    for i in 0..n
        invariant
            n == data@.len(),
            out@.len() == i,
            forall|j: int| 0 <= j < i ==> #[trigger] out@[j] == threshold_pixel(data@[j], threshold as int),
    {
        let p = data[i];
        let q: u8 = if (p as i32) <= threshold {
            255
        } else {
            0
        };
        out.push(q);
    }
    assert(out@ =~= data@.map_values(|p: u8| threshold_pixel(p, threshold as int)));
    GrayImage::from_view_parts(img.width(), img.height(), out)
}

/// Photographic negative: every pixel `p` becomes `255 - p`.
pub fn invert(img: &GrayImage) -> (out: GrayImage)
    requires
        img@.wf(),
    ensures
        out@ == map_view(img@, |p: u8| (255 - p) as u8),
        out@.wf(),
{
    let data = img.as_raw();
    let n = data.len();
    let mut out: Vec<u8> = Vec::with_capacity(n);
    for i in 0..n
        invariant
            n == data@.len(),
            out@.len() == i,
            forall|j: int| 0 <= j < i ==> #[trigger] out@[j] == (255 - data@[j]) as u8,
    {
        let p = data[i];
        out.push(255 - p);
    }
    assert(out@ =~= data@.map_values(|p: u8| (255 - p) as u8));
    GrayImage::from_view_parts(img.width(), img.height(), out)
}

/// Remaps every pixel through a 256-entry lookup table.
pub fn apply_lut(img: &GrayImage, lut: &[u8; 256]) -> (out: GrayImage)
    requires
        img@.wf(),
    ensures
        out@ == map_view(img@, |p: u8| lut@[p as int]),
        out@.wf(),
{
    let data = img.as_raw();
    let n = data.len();
    let mut out: Vec<u8> = Vec::with_capacity(n);
    for i in 0..n
        invariant
            n == data@.len(),
            lut@.len() == 256,
            out@.len() == i,
            forall|j: int| 0 <= j < i ==> #[trigger] out@[j] == lut@[data@[j] as int],
    {
        let p = data[i];
        out.push(lut[p as usize]);
    }
    assert(out@ =~= data@.map_values(|p: u8| lut@[p as int]));
    GrayImage::from_view_parts(img.width(), img.height(), out)
}

/// The average of three samples, rounded to the nearest integer (three
/// samples never average to an exact half).
pub open spec fn avg3(a: u8, b: u8, c: u8) -> u8 {
    ((a + b + c + 1) / 3) as u8
}

/// One sample of a radius-1 box blur pass: the rounded mean of `(x, y)`
/// and its two neighbours along the pass direction, the edge pixel
/// standing in for a missing neighbour.
pub open spec fn blur_sample(v: GrayView, horizontal: bool, x: int, y: int) -> u8 {
    if horizontal {
        avg3(
            v.at(if x >= 1 { x - 1 } else { 0 }, y),
            v.at(x, y),
            v.at(if x + 1 < v.width { x + 1 } else { v.width - 1 }, y),
        )
    } else {
        avg3(
            v.at(x, if y >= 1 { y - 1 } else { 0 }),
            v.at(x, y),
            v.at(x, if y + 1 < v.height { y + 1 } else { v.height - 1 }),
        )
    }
}

/// One horizontal pass of a radius-1 box blur.
pub open spec fn blur_horizontal_view(v: GrayView) -> GrayView {
    view_from_fn(v.width, v.height, |x: int, y: int| blur_sample(v, true, x, y))
}

/// One vertical pass of a radius-1 box blur.
pub open spec fn blur_vertical_view(v: GrayView) -> GrayView {
    view_from_fn(v.width, v.height, |x: int, y: int| blur_sample(v, false, x, y))
}

/// A separable radius-1 box blur: a horizontal pass, then a vertical pass.
pub open spec fn box_blur_view(v: GrayView) -> GrayView {
    blur_vertical_view(blur_horizontal_view(v))
}

fn blur_pass(img: &GrayImage, horizontal: bool) -> (out: GrayImage)
    requires
        img@.wf(),
    ensures
        horizontal ==> out@ == blur_horizontal_view(img@),
        !horizontal ==> out@ == blur_vertical_view(img@),
        out@.wf(),
{
    let (w, h) = img.dimensions();
    let ghost v = img@;
    let n = img.as_raw().len();
    let mut out: Vec<u8> = Vec::with_capacity(n);
    let mut y: u32 = 0;
    while y < h
        invariant
            v == img@,
            v.wf(),
            n == v.data.len(),
            w == v.width,
            h == v.height,
            y <= h,
            out@.len() == y * w,
            forall|j: int| 0 <= j < out@.len() ==> #[trigger] out@[j] == blur_sample(v, horizontal, j % (w as int), j / (w as int)),
        decreases h - y,
    {
        let mut x: u32 = 0;
        while x < w
            invariant
                v == img@,
                v.wf(),
                n == v.data.len(),
                w == v.width,
                h == v.height,
                y < h,
                x <= w,
                out@.len() == y * w + x,
                forall|j: int| 0 <= j < out@.len() ==> #[trigger] out@[j] == blur_sample(v, horizontal, j % (w as int), j / (w as int)),
            decreases w - x,
        {
            let q = if horizontal {
                let a = img.get_pixel(if x >= 1 { x - 1 } else { 0 }, y);
                let b = img.get_pixel(x, y);
                let c = img.get_pixel(if x + 1 < w { x + 1 } else { w - 1 }, y);
                ((a as u16 + b as u16 + c as u16 + 1) / 3) as u8
            } else {
                let a = img.get_pixel(x, if y >= 1 { y - 1 } else { 0 });
                let b = img.get_pixel(x, y);
                let c = img.get_pixel(x, if y + 1 < h { y + 1 } else { h - 1 });
                ((a as u16 + b as u16 + c as u16 + 1) / 3) as u8
            };
            proof {
                lemma_row_major(x as int, y as int, w as int);
                lemma_index_bounds(x as int, y as int, w as int, h as int);
                assert(q == blur_sample(v, horizontal, x as int, y as int));
            }
            let ghost prev = out@;
            out.push(q);
            proof {
                assert forall|j: int| 0 <= j < out@.len() implies #[trigger] out@[j] == blur_sample(v, horizontal, j % (w as int), j / (w as int)) by {
                    if j < prev.len() {
                        assert(out@[j] == prev[j]);
                    }
                }
            }
            x = x + 1;
        }
        proof {
            assert((y + 1) * w == y * w + w) by (nonlinear_arith);
        }
        y = y + 1;
    }
    proof {
        assert(h * w == w * h) by (nonlinear_arith);
        if horizontal {
            assert(out@ =~= blur_horizontal_view(v).data);
        } else {
            assert(out@ =~= blur_vertical_view(v).data);
        }
    }
    GrayImage::from_view_parts(w, h, out)
}

/// A radius-1 box blur (see [`box_blur_view`]).
pub fn box_blur_radius1(img: &GrayImage) -> (out: GrayImage)
    requires
        img@.wf(),
    ensures
        out@ == box_blur_view(img@),
        out@.wf(),
{
    let horizontal = blur_pass(img, true);
    blur_pass(&horizontal, false)
}

/// A half-open pixel rectangle `[x0, x1) x [y0, y1)`.
#[derive(Debug, Clone, Copy, PartialEq, Eq, Structural)]
pub struct Rect {
    pub x0: u32,
    pub y0: u32,
    pub x1: u32,
    pub y1: u32,
}

pub open spec fn in_rect(r: Rect, x: int, y: int) -> bool {
    r.x0 <= x < r.x1 && r.y0 <= y < r.y1
}

/// `r` lies inside a `v`-sized image.
pub open spec fn rect_within(v: GrayView, r: Rect) -> bool {
    r.x1 <= v.width && r.y1 <= v.height
}

/// Number of foreground (255) pixels in row `y`, columns `[x0, x)`.
pub open spec fn row_fg_count(v: GrayView, y: int, x0: int, x: int) -> nat
    decreases x - x0,
{
    if x <= x0 {
        0
    } else {
        row_fg_count(v, y, x0, x - 1) + (if v.at(x - 1, y) == 255 {
            1nat
        } else {
            0nat
        })
    }
}

/// Number of foreground (255) pixels in `r`'s columns, rows `[r.y0, y)`.
pub open spec fn rect_fg_count(v: GrayView, r: Rect, y: int) -> nat
    decreases y - r.y0,
{
    if y <= r.y0 {
        0
    } else {
        rect_fg_count(v, r, y - 1) + row_fg_count(v, y - 1, r.x0 as int, r.x1 as int)
    }
}

/// Number of foreground (255) pixels in `r`.
pub open spec fn fg_count(v: GrayView, r: Rect) -> nat {
    rect_fg_count(v, r, r.y1 as int)
}

/// `r` holds at least one foreground (255) pixel.
pub open spec fn has_fg(v: GrayView, r: Rect) -> bool {
    exists|x: int, y: int| in_rect(r, x, y) && v.contains(x, y) && #[trigger] v.at(x, y) == 255
}

/// `v` with every pixel of `r` set to 0.
pub open spec fn clear_rect(v: GrayView, r: Rect) -> GrayView {
    view_from_fn(
        v.width,
        v.height,
        |x: int, y: int|
            if in_rect(r, x, y) {
                0u8
            } else {
                v.at(x, y)
            },
    )
}

/// One edge of the edge-noise cleanup. `inner` is a thin band just inside
/// the page edge; when less than 0.1% of it is foreground, real content is
/// taken not to reach that far in: the band itself is cleared if it has any
/// foreground, and then the raw `edge` strip is cleared if it has any.
pub open spec fn edge_cleanup(v: GrayView, edge: Rect, inner: Rect) -> GrayView {
    if inner.x1 <= inner.x0 || inner.y1 <= inner.y0 {
        v
    } else {
        let count = fg_count(v, inner);
        let area = (inner.x1 - inner.x0) * (inner.y1 - inner.y0);
        let sparse = 1000 * count < area;
        let v1 = if count > 0 && sparse {
            clear_rect(v, inner)
        } else {
            v
        };
        if sparse && has_fg(v1, edge) {
            clear_rect(v1, edge)
        } else {
            v1
        }
    }
}

/// `floor(d * num / den)`.
pub open spec fn frac_of(d: nat, num: nat, den: nat) -> nat {
    (d * num / den) as nat
}

pub open spec fn mk_rect(x0: nat, y0: nat, x1: nat, y1: nat) -> Rect {
    Rect { x0: x0 as u32, y0: y0 as u32, x1: x1 as u32, y1: y1 as u32 }
}

/// Clears sparse scan noise near the four page edges (top, bottom, left,
/// right in that order, see [`edge_cleanup`]). The outer strips are the
/// 2% of each dimension nearest the edge; the inner bands span 2%-2.5%
/// (and 97.5%-98%). A page so small that 2% and 2.5% of either dimension
/// floor to the same pixel count is left unchanged.
pub open spec fn ignore_pixels_near_edge_view(v: GrayView) -> GrayView {
    let w = v.width;
    let h = v.height;
    if frac_of(h, 2, 100) == frac_of(h, 25, 1000) || frac_of(w, 2, 100) == frac_of(w, 25, 1000) {
        v
    } else {
        let w2 = frac_of(w, 2, 100);
        let w25 = frac_of(w, 25, 1000);
        let w975 = frac_of(w, 975, 1000);
        let w98 = frac_of(w, 98, 100);
        let h2 = frac_of(h, 2, 100);
        let h25 = frac_of(h, 25, 1000);
        let h975 = frac_of(h, 975, 1000);
        let h98 = frac_of(h, 98, 100);
        let v1 = edge_cleanup(v, mk_rect(0, 0, w, h2), mk_rect(w2, h2, w98, h25));
        let v2 = edge_cleanup(v1, mk_rect(0, h98, w, h), mk_rect(w2, h975, w98, h98));
        let v3 = edge_cleanup(v2, mk_rect(0, 0, w2, h), mk_rect(w2, h2, w25, h98));
        edge_cleanup(v3, mk_rect(w98, 0, w, h), mk_rect(w975, h2, w98, h98))
    }
}

proof fn lemma_row_count_bound(v: GrayView, y: int, x0: int, x: int)
    ensures
        row_fg_count(v, y, x0, x) <= if x >= x0 { x - x0 } else { 0 },
    decreases x - x0,
{
    if x > x0 {
        lemma_row_count_bound(v, y, x0, x - 1);
    }
}

proof fn lemma_rect_count_bound(v: GrayView, r: Rect, y: int)
    requires
        r.x0 <= r.x1,
    ensures
        rect_fg_count(v, r, y) <= if y >= r.y0 { (y - r.y0) * (r.x1 - r.x0) } else { 0 },
    decreases y - r.y0,
{
    if y > r.y0 {
        lemma_rect_count_bound(v, r, y - 1);
        lemma_row_count_bound(v, y - 1, r.x0 as int, r.x1 as int);
        assert((y - r.y0) * (r.x1 - r.x0) == (y - 1 - r.y0) * (r.x1 - r.x0) + (r.x1 - r.x0))
            by (nonlinear_arith);
    }
}

/// Counts the foreground (255) pixels of `r`.
fn count_foreground(img: &GrayImage, r: Rect) -> (n: u64)
    requires
        img@.wf(),
        rect_within(img@, r),
        r.x0 < r.x1,
        r.y0 < r.y1,
    ensures
        n == fg_count(img@, r),
{
    let ghost v = img@;
    let mut count: u64 = 0;
    let mut y = r.y0;
    let _n = img.as_raw().len();
    proof {
        assert(r.x1 * r.y1 <= v.width * v.height) by (nonlinear_arith)
            requires
                r.x1 <= v.width,
                r.y1 <= v.height,
        ;
        assert((r.y1 - r.y0) * (r.x1 - r.x0) <= r.x1 * r.y1) by (nonlinear_arith)
            requires
                r.x0 < r.x1,
                r.y0 < r.y1,
        ;
        assert(v.width * v.height <= u64::MAX);
    }
    while y < r.y1
        invariant
            v == img@,
            v.wf(),
            rect_within(v, r),
            r.x0 < r.x1,
            r.y0 <= y <= r.y1,
            (r.y1 - r.y0) * (r.x1 - r.x0) <= u64::MAX,
            count == rect_fg_count(v, r, y as int),
        decreases r.y1 - y,
    {
        let mut x = r.x0;
        proof {
            lemma_rect_count_bound(v, r, y as int);
            assert((y - r.y0) * (r.x1 - r.x0) + (r.x1 - r.x0) <= (r.y1 - r.y0) * (r.x1 - r.x0))
                by (nonlinear_arith)
                requires
                    y < r.y1,
                    r.x0 < r.x1,
            ;
        }
        while x < r.x1
            invariant
                v == img@,
                v.wf(),
                rect_within(v, r),
                r.y0 <= y < r.y1,
                r.x0 <= x <= r.x1,
                count == rect_fg_count(v, r, y as int) + row_fg_count(v, y as int, r.x0 as int, x as int),
                rect_fg_count(v, r, y as int) + (r.x1 - r.x0) <= u64::MAX,
            decreases r.x1 - x,
        {
            proof {
                lemma_row_count_bound(v, y as int, r.x0 as int, x as int);
            }
            if img.get_pixel(x, y) == 255 {
                count = count + 1;
            }
            x = x + 1;
        }
        y = y + 1;
    }
    count
}

/// Whether `r` holds any foreground (255) pixel.
fn has_foreground(img: &GrayImage, r: Rect) -> (b: bool)
    requires
        img@.wf(),
        rect_within(img@, r),
    ensures
        b == has_fg(img@, r),
{
    let ghost v = img@;
    let mut y = r.y0;
    while y < r.y1
        invariant
            v == img@,
            v.wf(),
            rect_within(v, r),
            r.y0 <= y,
            forall|xx: int, yy: int|
                in_rect(r, xx, yy) && yy < y && v.contains(xx, yy) ==> #[trigger] v.at(xx, yy) != 255,
        decreases r.y1 - y,
    {
        let mut x = r.x0;
        while x < r.x1
            invariant
                v == img@,
                v.wf(),
                rect_within(v, r),
                r.y0 <= y < r.y1,
                r.x0 <= x,
                forall|xx: int, yy: int|
                    in_rect(r, xx, yy) && (yy < y || (yy == y && xx < x)) && v.contains(xx, yy)
                        ==> #[trigger] v.at(xx, yy) != 255,
            decreases r.x1 - x,
        {
            if img.get_pixel(x, y) == 255 {
                assert(in_rect(r, x as int, y as int) && v.contains(x as int, y as int) && v.at(x as int, y as int) == 255);
                return true;
            }
            x = x + 1;
        }
        y = y + 1;
    }
    false
}

/// Sets every pixel of `r` to 0.
fn fill_zero(img: &mut GrayImage, r: Rect)
    requires
        old(img)@.wf(),
        rect_within(old(img)@, r),
    ensures
        final(img)@ == clear_rect(old(img)@, r),
{
    let ghost v = img@;
    let mut y = r.y0;
    while y < r.y1
        invariant
            img@.wf(),
            img@.width == v.width,
            img@.height == v.height,
            v.wf(),
            rect_within(v, r),
            r.y0 <= y,
            forall|xx: int, yy: int|
                v.contains(xx, yy) ==> #[trigger] img@.at(xx, yy) == (if in_rect(r, xx, yy) && yy < y {
                    0
                } else {
                    v.at(xx, yy)
                }),
        decreases r.y1 - y,
    {
        let mut x = r.x0;
        while x < r.x1
            invariant
                img@.wf(),
                img@.width == v.width,
                img@.height == v.height,
                v.wf(),
                rect_within(v, r),
                r.y0 <= y < r.y1,
                r.x0 <= x,
                forall|xx: int, yy: int|
                    v.contains(xx, yy) ==> #[trigger] img@.at(xx, yy) == (if in_rect(r, xx, yy) && (
                    yy < y || (yy == y && xx < x)) {
                        0
                    } else {
                        v.at(xx, yy)
                    }),
            decreases r.x1 - x,
        {
            img.put_pixel(x, y, 0);
            x = x + 1;
        }
        y = y + 1;
    }
    proof {
        let target = clear_rect(v, r);
        crate::gray::lemma_view_from_fn(
            v.width,
            v.height,
            |x: int, y: int|
                if in_rect(r, x, y) {
                    0u8
                } else {
                    v.at(x, y)
                },
        );
        assert(img@.same_pixels(target));
        crate::gray::lemma_view_ext(img@, target);
    }
}

fn edge_step(img: &mut GrayImage, edge: Rect, inner: Rect)
    requires
        old(img)@.wf(),
        rect_within(old(img)@, edge),
        rect_within(old(img)@, inner),
    ensures
        final(img)@ == edge_cleanup(old(img)@, edge, inner),
        final(img)@.wf(),
{
    let ghost v = img@;
    if inner.x1 <= inner.x0 || inner.y1 <= inner.y0 {
        return;
    }
    let count = count_foreground(img, inner);
    let dx = (inner.x1 - inner.x0) as u64;
    let dy = (inner.y1 - inner.y0) as u64;
    assert(dx * dy <= u64::MAX) by (nonlinear_arith)
        requires
            dx <= u32::MAX,
            dy <= u32::MAX,
    ;
    let area = dx * dy;
    let sparse = (count as u128) * 1000 < area as u128;
    if count > 0 && sparse {
        fill_zero(img, inner);
    }
    proof {
        crate::gray::lemma_view_from_fn(
            v.width,
            v.height,
            |x: int, y: int|
                if in_rect(inner, x, y) {
                    0u8
                } else {
                    v.at(x, y)
                },
        );
    }
    if sparse && has_foreground(img, edge) {
        fill_zero(img, edge);
    }
    proof {
        let v1 = if count > 0 && sparse { clear_rect(v, inner) } else { v };
        crate::gray::lemma_view_from_fn(
            v1.width,
            v1.height,
            |x: int, y: int|
                if in_rect(edge, x, y) {
                    0u8
                } else {
                    v1.at(x, y)
                },
        );
    }
}

/// Clears sparse noise near the page edges of a binarized page (see
/// [`ignore_pixels_near_edge_view`]).
pub fn ignore_pixels_near_edge(bw_img: &mut GrayImage)
    requires
        old(bw_img)@.wf(),
    ensures
        final(bw_img)@ == ignore_pixels_near_edge_view(old(bw_img)@),
        final(bw_img)@.wf(),
{
    let (w, h) = bw_img.dimensions();
    let (w, h) = (w as u64, h as u64);
    if h * 2 / 100 == h * 25 / 1000 {
        return;
    }
    if w * 2 / 100 == w * 25 / 1000 {
        return;
    }
    let w2 = (w * 2 / 100) as u32;
    let w25 = (w * 25 / 1000) as u32;
    let w975 = (w * 975 / 1000) as u32;
    let w98 = (w * 98 / 100) as u32;
    let h2 = (h * 2 / 100) as u32;
    let h25 = (h * 25 / 1000) as u32;
    let h975 = (h * 975 / 1000) as u32;
    let h98 = (h * 98 / 100) as u32;
    let (wu, hu) = (w as u32, h as u32);
    edge_step(bw_img, Rect { x0: 0, y0: 0, x1: wu, y1: h2 }, Rect { x0: w2, y0: h2, x1: w98, y1: h25 });
    edge_step(bw_img, Rect { x0: 0, y0: h98, x1: wu, y1: hu }, Rect { x0: w2, y0: h975, x1: w98, y1: h98 });
    edge_step(bw_img, Rect { x0: 0, y0: 0, x1: w2, y1: hu }, Rect { x0: w2, y0: h2, x1: w25, y1: h98 });
    edge_step(bw_img, Rect { x0: w98, y0: 0, x1: wu, y1: hu }, Rect { x0: w975, y0: h2, x1: w98, y1: h98 });
}

/// The crop policy wrapped around either bbox detector: cap the crop to at
/// most 10% per side, back it off by `preserve_margin_percent`, and only crop
/// when the result keeps at least `minimum_area_percent` of the page.
#[derive(Debug, Clone, Copy)]
pub struct CropPolicy {
    /// Binarization threshold: a (contrast-stretched, blurred) pixel at or
    /// below it counts as content.
    pub threshold: i32,
    /// Only crop when the crop keeps at least this percentage of the page.
    pub minimum_area_percent: u32,
    /// Back the capped crop off by this percentage (values above 100 act as
    /// 100).
    pub preserve_margin_percent: u32,
    pub background: Background,
}

/// The binarization threshold for a cropping power: `240 - 64 * power`,
/// rounded down to a whole pixel value. The default power 1 gives 176.
pub open spec fn threshold_for_power(power: int) -> int {
    240 - 64 * power
}

impl CropPolicy {
    /// Power 1 (threshold 176), no minimum area, no preserved margin, white
    /// background.
    pub fn default() -> (p: CropPolicy)
        ensures
            p.threshold == threshold_for_power(1),
            p.minimum_area_percent == 0,
            p.preserve_margin_percent == 0,
            p.background == Background::White,
    {
        CropPolicy {
            threshold: 176,
            minimum_area_percent: 0,
            preserve_margin_percent: 0,
            background: Background::White,
        }
    }
}

/// `x` rounded to the nearest integer, halves rounding up, for
/// `x = num / den` with `num >= 0` and `den > 0`.
pub open spec fn round_div(num: int, den: int) -> int {
    (2 * num + den) / (2 * den)
}

/// Caps how much may be cropped off each side to 10% of that dimension:
/// `left = min(round(w/10), left)`, `right = max(round(9w/10), right)`,
/// likewise vertically.
pub open spec fn cap_to_ten_percent_spec(b: Bbox, w: int, h: int) -> CropBox {
    CropBox {
        left: if round_div(w, 10) < b.left { round_div(w, 10) as u32 } else { b.left },
        top: if round_div(h, 10) < b.top { round_div(h, 10) as u32 } else { b.top },
        right: if round_div(9 * w, 10) > b.right { round_div(9 * w, 10) as u32 } else { b.right },
        bottom: if round_div(9 * h, 10) > b.bottom {
            round_div(9 * h, 10) as u32
        } else {
            b.bottom
        },
    }
}

/// Backs a crop off by `p` percent (clamped to 100) of each margin:
/// `left * (1 - p/100)` and `right + (w - right) * p/100`, rounded.
pub open spec fn preserve_margin_spec(c: CropBox, w: int, h: int, p: int) -> CropBox {
    let p = if p > 100 { 100 } else { p };
    CropBox {
        left: round_div(c.left * (100 - p), 100) as u32,
        top: round_div(c.top * (100 - p), 100) as u32,
        right: round_div(c.right * (100 - p) + w * p, 100) as u32,
        bottom: round_div(c.bottom * (100 - p) + h * p, 100) as u32,
    }
}

/// Preserving a margin of 0% leaves a crop as it is.
pub proof fn lemma_preserve_no_margin(c: CropBox, w: int, h: int)
    ensures
        preserve_margin_spec(c, w, h, 0) == c,
{
    assert forall|x: int| x >= 0 implies #[trigger] round_div(x * 100, 100) == x by {
        assert((2 * (x * 100) + 100) / 200int == x) by (nonlinear_arith)
            requires
                x >= 0,
        ;
    }
    assert(round_div(c.left * 100, 100) == c.left);
    assert(round_div(c.top * 100, 100) == c.top);
    assert(round_div(c.right * 100, 100) == c.right);
    assert(round_div(c.bottom * 100, 100) == c.bottom);
}

/// The crop's area, with an inverted side counting as zero.
pub open spec fn crop_area(c: CropBox) -> int {
    (if c.right > c.left { c.right - c.left } else { 0 }) * (if c.bottom > c.top {
        c.bottom - c.top
    } else {
        0
    })
}

/// The crop keeps at least `percent` of a `w x h` page (a page of zero area
/// is kept by any crop of non-zero area).
pub open spec fn keeps_enough(c: CropBox, w: int, h: int, percent: int) -> bool {
    if w * h == 0 {
        crop_area(c) > 0
    } else {
        100 * crop_area(c) >= percent * (w * h)
    }
}

/// The crop [`apply_policy`] settles on, before its minimum-area gate.
pub open spec fn policy_crop(b: Bbox, w: int, h: int, policy: CropPolicy) -> CropBox {
    preserve_margin_spec(cap_to_ten_percent_spec(b, w, h), w, h, policy.preserve_margin_percent as int)
}

fn round_div_u128(num: u128, den: u128) -> (r: u128)
    requires
        den > 0,
        num <= u64::MAX * 1000,
        den <= 1000,
    ensures
        r == round_div(num as int, den as int),
{
    (2 * num + den) / (2 * den)
}

/// Caps how much is cropped off each side to 10% of that dimension (see
/// [`cap_to_ten_percent_spec`]).
pub fn cap_to_ten_percent(bbox: Bbox, image_size: (u32, u32)) -> (c: CropBox)
    ensures
        c == cap_to_ten_percent_spec(bbox, image_size.0 as int, image_size.1 as int),
{
    let (w, h) = (image_size.0 as u128, image_size.1 as u128);
    let l10 = round_div_u128(w, 10);
    let t10 = round_div_u128(h, 10);
    let r90 = round_div_u128(9 * w, 10);
    let b90 = round_div_u128(9 * h, 10);
    let left = if l10 < bbox.left as u128 { l10 } else { bbox.left as u128 };
    let top = if t10 < bbox.top as u128 { t10 } else { bbox.top as u128 };
    let right = if r90 > bbox.right as u128 { r90 } else { bbox.right as u128 };
    let bottom = if b90 > bbox.bottom as u128 { b90 } else { bbox.bottom as u128 };
    proof {
        assert(round_div(w as int, 10) <= w) by (nonlinear_arith)
            requires
                w >= 0,
        ;
        assert(round_div(9 * w as int, 10) <= w) by (nonlinear_arith)
            requires
                w >= 0,
        ;
        assert(round_div(h as int, 10) <= h) by (nonlinear_arith)
            requires
                h >= 0,
        ;
        assert(round_div(9 * h as int, 10) <= h) by (nonlinear_arith)
            requires
                h >= 0,
        ;
    }
    CropBox { left: left as u32, top: top as u32, right: right as u32, bottom: bottom as u32 }
}

/// Backs a crop off by `percent` (at most 100) of each margin (see
/// [`preserve_margin_spec`]).
pub fn apply_preserve_margin(c: CropBox, image_size: (u32, u32), percent: u32) -> (r: CropBox)
    ensures
        r == preserve_margin_spec(c, image_size.0 as int, image_size.1 as int, percent as int),
{
    let (w, h) = (image_size.0 as u128, image_size.1 as u128);
    let (left, top, right, bottom) = (c.left as u128, c.top as u128, c.right as u128, c.bottom as u128);
    let p = if percent > 100 {
        100u128
    } else {
        percent as u128
    };
    assert(left <= u32::MAX && top <= u32::MAX && right <= u32::MAX && bottom <= u32::MAX);
    proof {
        assert(left * (100 - p) <= u32::MAX * 100) by (nonlinear_arith)
            requires
                0 <= p <= 100,
                0 <= left <= u32::MAX,
        ;
        assert(top * (100 - p) <= u32::MAX * 100) by (nonlinear_arith)
            requires
                0 <= p <= 100,
                0 <= top <= u32::MAX,
        ;
        assert(right * (100 - p) + w * p <= u32::MAX * 100) by (nonlinear_arith)
            requires
                0 <= p <= 100,
                0 <= right <= u32::MAX,
                0 <= w <= u32::MAX,
        ;
        assert(bottom * (100 - p) + h * p <= u32::MAX * 100) by (nonlinear_arith)
            requires
                0 <= p <= 100,
                0 <= bottom <= u32::MAX,
                0 <= h <= u32::MAX,
        ;
    }
    let new_left = round_div_u128(left * (100 - p), 100);
    let new_top = round_div_u128(top * (100 - p), 100);
    let new_right = round_div_u128(right * (100 - p) + w * p, 100);
    let new_bottom = round_div_u128(bottom * (100 - p) + h * p, 100);
    proof {
        assert(round_div(left * (100 - p), 100) <= left) by (nonlinear_arith)
            requires
                0 <= p <= 100,
                left >= 0,
        ;
        assert(round_div(top * (100 - p), 100) <= top) by (nonlinear_arith)
            requires
                0 <= p <= 100,
                top >= 0,
        ;
        assert(round_div(right * (100 - p) + w * p, 100) <= u32::MAX) by (nonlinear_arith)
            requires
                0 <= p <= 100,
                0 <= right <= u32::MAX,
                0 <= w <= u32::MAX,
        ;
        assert(round_div(bottom * (100 - p) + h * p, 100) <= u32::MAX) by (nonlinear_arith)
            requires
                0 <= p <= 100,
                0 <= bottom <= u32::MAX,
                0 <= h <= u32::MAX,
        ;
    }
    CropBox {
        left: new_left as u32,
        top: new_top as u32,
        right: new_right as u32,
        bottom: new_bottom as u32,
    }
}

/// Caps the crop to 10% per side, backs it off by the preserved margin, and
/// returns it when it keeps enough of the page; `None` means "leave the
/// page as it is".
pub fn apply_policy(bbox: Bbox, image_size: (u32, u32), policy: &CropPolicy) -> (r: Option<CropBox>)
    ensures
        ({
            let c = policy_crop(bbox, image_size.0 as int, image_size.1 as int, *policy);
            &&& r is Some <==> keeps_enough(
                c,
                image_size.0 as int,
                image_size.1 as int,
                policy.minimum_area_percent as int,
            )
            &&& r matches Some(cb) ==> cb == c
        }),
{
    let (w, h) = (image_size.0 as u128, image_size.1 as u128);
    let capped = cap_to_ten_percent(bbox, image_size);
    let crop = apply_preserve_margin(capped, image_size, policy.preserve_margin_percent);
    let bw: u128 = if crop.right > crop.left { (crop.right - crop.left) as u128 } else { 0 };
    let bh: u128 = if crop.bottom > crop.top { (crop.bottom - crop.top) as u128 } else { 0 };
    proof {
        assert(bw * bh <= u64::MAX) by (nonlinear_arith)
            requires
                bw <= u32::MAX,
                bh <= u32::MAX,
        ;
        assert(w * h <= u64::MAX) by (nonlinear_arith)
            requires
                w <= u32::MAX,
                h <= u32::MAX,
        ;
    }
    let area = bw * bh;
    let page = w * h;
    proof {
        assert((policy.minimum_area_percent as u128) * page <= u32::MAX * u64::MAX) by (nonlinear_arith)
            requires
                page <= u64::MAX,
                policy.minimum_area_percent <= u32::MAX,
        ;
    }
    let keep = if page == 0 {
        area > 0
    } else {
        100 * area >= (policy.minimum_area_percent as u128) * page
    };
    if keep {
        Some(crop)
    } else {
        None
    }
}

/// The smaller of two naturals.
pub open spec fn min_nat(a: nat, b: nat) -> nat {
    if a <= b {
        a
    } else {
        b
    }
}

/// The region `crop` selects in a `width x height` image, as `(x, y, w, h)`:
/// its corner moved inside the image, and its size cut to what is left of
/// the image from there.
pub open spec fn clamped_region(crop: CropBox, width: nat, height: nat) -> (nat, nat, nat, nat) {
    let x = min_nat(crop.left as nat, width);
    let y = min_nat(crop.top as nat, height);
    (x, y, min_nat((crop.right - crop.left) as nat, (width - x) as nat), min_nat(
        (crop.bottom - crop.top) as nat,
        (height - y) as nat,
    ))
}

/// Crops an image to `crop`, clamped to the image (a box reaching past an
/// edge keeps what lies inside).
pub fn apply_crop(img: &GrayImage, crop: CropBox) -> (out: GrayImage)
    requires
        img@.wf(),
        crop.left <= crop.right,
        crop.top <= crop.bottom,
    ensures
        out@.wf(),
        out@.width == clamped_region(crop, img@.width, img@.height).2,
        out@.height == clamped_region(crop, img@.width, img@.height).3,
        forall|x: int, y: int|
            out@.contains(x, y) ==> #[trigger] out@.at(x, y) == img@.at(
                x + clamped_region(crop, img@.width, img@.height).0,
                y + clamped_region(crop, img@.width, img@.height).1,
            ),
{
    let (iw, ih) = img.dimensions();
    let x = if crop.left < iw {
        crop.left
    } else {
        iw
    };
    let y = if crop.top < ih {
        crop.top
    } else {
        ih
    };
    let cw = crop.right - crop.left;
    let ch = crop.bottom - crop.top;
    let w = if cw < iw - x {
        cw
    } else {
        iw - x
    };
    let h = if ch < ih - y {
        ch
    } else {
        ih - y
    };
    sub_image(img, x, y, w, h)
}

/// The `width x height` region of `img` whose top-left pixel is `(x0, y0)`.
pub fn sub_image(img: &GrayImage, x0: u32, y0: u32, width: u32, height: u32) -> (out: GrayImage)
    requires
        img@.wf(),
        x0 + width <= img@.width,
        y0 + height <= img@.height,
    ensures
        out@.wf(),
        out@.width == width,
        out@.height == height,
        forall|x: int, y: int|
            out@.contains(x, y) ==> #[trigger] out@.at(x, y) == img@.at(x + x0, y + y0),
{
    let ghost v = img@;
    let (iw, ih) = img.dimensions();
    let mut out: Vec<u8> = Vec::new();
    let mut y: u32 = 0;
    let _n = img.as_raw().len();
    proof {
        assert(width * height <= v.width * v.height) by (nonlinear_arith)
            requires
                width <= v.width,
                height <= v.height,
        ;
    }
    while y < height
        invariant
            v == img@,
            v.wf(),
            iw == v.width,
            ih == v.height,
            x0 + width <= v.width,
            y0 + height <= v.height,
            width * height <= usize::MAX,
            y <= height,
            out@.len() == y * width,
            forall|j: int| 0 <= j < out@.len() ==> #[trigger] out@[j] == v.at(j % (width as int) + x0, j / (width as int) + y0),
        decreases height - y,
    {
        let mut x: u32 = 0;
        while x < width
            invariant
                v == img@,
                v.wf(),
                iw == v.width,
                ih == v.height,
                x0 + width <= v.width,
                y0 + height <= v.height,
                width * height <= usize::MAX,
                y < height,
                x <= width,
                out@.len() == y * width + x,
                forall|j: int| 0 <= j < out@.len() ==> #[trigger] out@[j] == v.at(j % (width as int) + x0, j / (width as int) + y0),
            decreases width - x,
        {
            let q = img.get_pixel(x0 + x, y0 + y);
            proof {
                lemma_row_major(x as int, y as int, width as int);
            }
            let ghost prev = out@;
            out.push(q);
            proof {
                assert forall|j: int| 0 <= j < out@.len() implies #[trigger] out@[j] == v.at(j % (width as int) + x0, j / (width as int) + y0) by {
                    if j < prev.len() {
                        assert(out@[j] == prev[j]);
                    }
                }
            }
            x = x + 1;
        }
        proof {
            assert((y + 1) * width == y * width + width) by (nonlinear_arith);
        }
        y = y + 1;
    }
    proof {
        assert(height * width == width * height) by (nonlinear_arith);
    }
    let res = GrayImage::from_view_parts(width, height, out);
    proof {
        assert forall|x: int, y: int| res@.contains(x, y) implies #[trigger] res@.at(x, y) == v.at(x + x0, y + y0) by {
            lemma_index_bounds(x, y, width as int, height as int);
            lemma_row_major(x, y, width as int);
        }
    }
    res
}

/// The shared prefix of the margin and page-number detectors, after the
/// page has been oriented (inverted when dark) and contrast-stretched.
pub struct Binarized {
    /// The contrast-stretched page after a radius-1 box blur.
    pub grayscale: GrayImage,
    /// `grayscale` thresholded, with edge noise cleared when requested.
    pub binary: GrayImage,
    /// The bounding box of `binary`'s foreground.
    pub bbox: Option<Bbox>,
    pub threshold: i32,
}

/// The binary mask [`binarize_contrasted`] produces.
pub open spec fn binary_view(contrasted: GrayView, threshold: int, ignore_edge_noise: bool) -> GrayView {
    let t = map_view(box_blur_view(contrasted), |p: u8| threshold_pixel(p, threshold));
    if ignore_edge_noise {
        ignore_pixels_near_edge_view(t)
    } else {
        t
    }
}

/// Orients a page for the crop detectors: a dark-background page is
/// inverted so content is always darker than background.
pub fn orient_for_crop(img: &GrayImage, background: Background) -> (out: GrayImage)
    requires
        img@.wf(),
    ensures
        out@.wf(),
        background == Background::White ==> out@ == img@,
        background == Background::Dark ==> out@ == map_view(img@, |p: u8| (255 - p) as u8),
{
    match background {
        Background::White => img.clone(),
        Background::Dark => invert(img),
    }
}

/// Box-blurs an already oriented and contrast-stretched page, thresholds it,
/// optionally clears edge noise, and takes the bounding box of what is left.
pub fn binarize_contrasted(contrasted: &GrayImage, threshold: i32, ignore_edge_noise: bool) -> (b: Binarized)
    requires
        contrasted@.wf(),
    ensures
        b.grayscale@ == box_blur_view(contrasted@),
        b.binary@ == binary_view(contrasted@, threshold as int, ignore_edge_noise),
        b.binary@.wf(),
        b.grayscale@.wf(),
        b.threshold == threshold,
        b.bbox is None <==> is_blank(b.binary@),
        b.bbox matches Some(bb) ==> is_tight_bbox(b.binary@, bb),
{
    let grayscale = box_blur_radius1(contrasted);
    let mut binary = threshold_binary(&grayscale, threshold);
    if ignore_edge_noise {
        ignore_pixels_near_edge(&mut binary);
    }
    let bbox = get_bbox(&binary);
    Binarized { grayscale, binary, bbox, threshold }
}

} // verus!
