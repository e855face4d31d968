//! Per-page background color detection. The page is thresholded to pure
//! black/white at 128; whichever color is confined to the clearly smaller
//! bounding box is taken as the foreground and the other as the background.
//! A near tie (areas within 0.5% of the smaller one), or a page with no
//! pixels of one of the colors, falls back to counting solid 5-pixel bands.

use crate::crop::{
    get_bbox, invert, is_blank, is_tight_bbox, map_view, Background, Bbox, Rect, in_rect,
};
use crate::gray::{GrayImage, GrayView};
use vstd::prelude::*;

verus! {

/// A pixel of at least 128 counts as light (255), darker ones as dark (0).
pub open spec fn light_pixel(p: u8) -> u8 {
    if p >= 128 {
        255
    } else {
        0
    }
}

/// The area of a bounding box.
pub open spec fn bbox_area_spec(b: Bbox) -> int {
    (b.right - b.left) * (b.bottom - b.top)
}

pub fn bbox_area(b: Bbox) -> (a: u64)
    requires
        b.left <= b.right,
        b.top <= b.bottom,
    ensures
        a == bbox_area_spec(b),
{
    let w = (b.right - b.left) as u64;
    let h = (b.bottom - b.top) as u64;
    assert(w * h <= u64::MAX) by (nonlinear_arith)
        requires
            w <= u32::MAX,
            h <= u32::MAX,
    ;
    w * h
}

/// The score of one band: -1 when entirely light, +1 when entirely dark,
/// 0 when mixed.
pub open spec fn band_score_spec(v: GrayView, r: Rect) -> int {
    let has_light = exists|x: int, y: int| in_rect(r, x, y) && #[trigger] v.at(x, y) == 255;
    let has_dark = exists|x: int, y: int| in_rect(r, x, y) && #[trigger] v.at(x, y) != 255;
    if has_light && !has_dark {
        -1
    } else if has_dark && !has_light {
        1
    } else {
        0
    }
}

/// The 5-pixel band starting at offset `o` along an axis of length `len`,
/// shifted back to fit when it would run past the end.
pub open spec fn band_start(o: int, len: int) -> int {
    if o + 5 > len {
        if len >= 5 { len - 5 } else { 0 }
    } else {
        o
    }
}

pub open spec fn band_end(o: int, len: int) -> int {
    if band_start(o, len) + 5 < len { band_start(o, len) + 5 } else { len }
}

/// Sum of the horizontal band scores from row offset `y` down.
pub open spec fn rows_score(v: GrayView, y: int) -> int
    decreases v.height - y,
{
    let s = band_score_spec(
        v,
        Rect { x0: 0, y0: band_start(y, v.height as int) as u32, x1: v.width as u32, y1: band_end(y, v.height as int) as u32 },
    );
    if y + 5 >= v.height || y < 0 {
        s
    } else {
        s + rows_score(v, y + 5)
    }
}

/// Sum of the vertical band scores from column offset `x` right.
pub open spec fn cols_score(v: GrayView, x: int) -> int
    decreases v.width - x,
{
    let s = band_score_spec(
        v,
        Rect { x0: band_start(x, v.width as int) as u32, y0: 0, x1: band_end(x, v.width as int) as u32, y1: v.height as u32 },
    );
    if x + 5 >= v.width || x < 0 {
        s
    } else {
        s + cols_score(v, x + 5)
    }
}

/// The band-counting fallback: dark when solid-dark bands (horizontal and
/// vertical, each a 5-pixel strip) outnumber solid-light ones.
pub open spec fn strip_dominance_spec(bw: GrayView) -> Background {
    if bw.width == 0 || bw.height == 0 {
        Background::White
    } else if rows_score(bw, 0) + cols_score(bw, 0) > 0 {
        Background::Dark
    } else {
        Background::White
    }
}

/// The page thresholded at 128.
pub open spec fn light_mask(v: GrayView) -> GrayView {
    map_view(v, |p: u8| light_pixel(p))
}

/// The background decided from the two bounding-box areas: the color with
/// the clearly (by more than 0.5%) smaller box is the foreground.
pub open spec fn decide_by_areas(light_area: int, dark_area: int) -> Option<Background> {
    let bigger = if light_area >= dark_area { light_area } else { dark_area };
    let smaller = if light_area >= dark_area { dark_area } else { light_area };
    if 200 * (bigger - smaller) > smaller {
        Some(if dark_area < light_area { Background::White } else { Background::Dark })
    } else {
        None
    }
}

fn band_score(bw: &GrayImage, r: Rect) -> (s: i64)
    requires
        bw@.wf(),
        r.x1 <= bw@.width,
        r.y1 <= bw@.height,
    ensures
        s == band_score_spec(bw@, r),
{
    let ghost v = bw@;
    let mut has_light = false;
    let mut has_dark = false;
    let mut y = r.y0;
    while y < r.y1
        invariant
            v == bw@,
            v.wf(),
            r.x1 <= v.width,
            r.y1 <= v.height,
            r.y0 <= y,
            has_light <==> exists|xx: int, yy: int| in_rect(r, xx, yy) && yy < y && #[trigger] v.at(xx, yy) == 255,
            has_dark <==> exists|xx: int, yy: int| in_rect(r, xx, yy) && yy < y && #[trigger] v.at(xx, yy) != 255,
        decreases r.y1 - y,
    {
        let mut x = r.x0;
        while x < r.x1
            invariant
                v == bw@,
                v.wf(),
                r.x1 <= v.width,
                r.y1 <= v.height,
                r.y0 <= y < r.y1,
                r.x0 <= x,
                has_light <==> exists|xx: int, yy: int| in_rect(r, xx, yy) && (yy < y || (yy == y && xx < x)) && #[trigger] v.at(xx, yy) == 255,
                has_dark <==> exists|xx: int, yy: int| in_rect(r, xx, yy) && (yy < y || (yy == y && xx < x)) && #[trigger] v.at(xx, yy) != 255,
            decreases r.x1 - x,
        {
            let p = bw.get_pixel(x, y);
            if p == 255 {
                has_light = true;
            } else {
                has_dark = true;
            }
            x = x + 1;
        }
        y = y + 1;
    }
    proof {
        let hl = exists|xx: int, yy: int| in_rect(r, xx, yy) && #[trigger] v.at(xx, yy) == 255;
        let hd = exists|xx: int, yy: int| in_rect(r, xx, yy) && #[trigger] v.at(xx, yy) != 255;
        assert(has_light == hl);
        assert(has_dark == hd);
    }
    if has_dark && !has_light {
        1
    } else if has_light && !has_dark {
        -1
    } else {
        0
    }
}

/// See [`strip_dominance_spec`].
fn strip_dominance(bw: &GrayImage) -> (b: Background)
    requires
        bw@.wf(),
    ensures
        b == strip_dominance_spec(bw@),
{
    let (w, h) = bw.dimensions();
    if w == 0 || h == 0 {
        return Background::White;
    }
    let ghost v = bw@;
    let (w, h) = (w as u64, h as u64);
    let mut score: i64 = 0;
    let mut y: u64 = 0;
    loop
        invariant_except_break
            y < h,
            score + rows_score(v, y as int) == rows_score(v, 0),
            -(y as int) <= score <= y as int,
        invariant
            v == bw@,
            v.wf(),
            w == v.width,
            h == v.height,
            w > 0 && h > 0,
            w <= u32::MAX,
            h <= u32::MAX,
        ensures
            score == rows_score(v, 0),
            -(h as int) <= score <= h as int,
        decreases h - y,
    {
        let y0 = if y + 5 > h { h.saturating_sub(5) } else { y };
        let y1 = if y0 + 5 < h { y0 + 5 } else { h };
        let s = band_score(bw, Rect { x0: 0, y0: y0 as u32, x1: w as u32, y1: y1 as u32 });
        score = score + s;
        if y + 5 >= h {
            break;
        }
        y = y + 5;
    }
    let ghost after_rows = score;
    let mut x: u64 = 0;
    loop
        invariant_except_break
            x < w,
            score - after_rows + cols_score(v, x as int) == cols_score(v, 0),
            -(h as int) - (x as int) <= score <= h as int + x as int,
        invariant
            v == bw@,
            v.wf(),
            w == v.width,
            h == v.height,
            w > 0 && h > 0,
            w <= u32::MAX,
            h <= u32::MAX,
            after_rows == rows_score(v, 0),
            -(h as int) <= after_rows <= h as int,
        ensures
            score == rows_score(v, 0) + cols_score(v, 0),
        decreases w - x,
    {
        let x0 = if x + 5 > w { w.saturating_sub(5) } else { x };
        let x1 = if x0 + 5 < w { x0 + 5 } else { w };
        let s = band_score(bw, Rect { x0: x0 as u32, y0: 0, x1: x1 as u32, y1: h as u32 });
        score = score + s;
        if x + 5 >= w {
            break;
        }
        x = x + 5;
    }
    if score > 0 {
        Background::Dark
    } else {
        Background::White
    }
}

/// The page's background color (see the module documentation).
pub fn fill_check(img: &GrayImage) -> (b: Background)
    requires
        img@.wf(),
    ensures
        ({
            let bw = light_mask(img@);
            let dark = map_view(bw, |p: u8| (255 - p) as u8);
            if is_blank(bw) || is_blank(dark) {
                b == strip_dominance_spec(bw)
            } else {
                exists|lb: Bbox, db: Bbox|
                    is_tight_bbox(bw, lb) && is_tight_bbox(dark, db) && b == match decide_by_areas(
                        bbox_area_spec(lb),
                        bbox_area_spec(db),
                    ) {
                        Some(d) => d,
                        None => strip_dominance_spec(bw),
                    }
            }
        }),
{
    let data = img.as_raw();
    let n = data.len();
    let mut out: Vec<u8> = Vec::with_capacity(n);
    for i in 0..n
        invariant
            n == data@.len(),
            out@.len() == i,
            forall|j: int| 0 <= j < i ==> #[trigger] out@[j] == light_pixel(data@[j]),
    {
        let p = data[i];
        out.push(if p >= 128 { 255 } else { 0 });
    }
    assert(out@ =~= data@.map_values(|p: u8| light_pixel(p)));
    let bw = GrayImage::from_view_parts(img.width(), img.height(), out);
    let light_bbox = get_bbox(&bw);
    let dark_mask = invert(&bw);
    let dark_bbox = get_bbox(&dark_mask);
    let (l, d) = match (light_bbox, dark_bbox) {
        (Some(l), Some(d)) => (l, d),
        _ => return strip_dominance(&bw),
    };
    let light_area = bbox_area(l);
    let dark_area = bbox_area(d);
    let (bigger, smaller) = if light_area >= dark_area {
        (light_area, dark_area)
    } else {
        (dark_area, light_area)
    };
    let r = if 200 * ((bigger - smaller) as u128) > smaller as u128 {
        if dark_area < light_area {
            Background::White
        } else {
            Background::Dark
        }
    } else {
        strip_dominance(&bw)
    };
    proof {
        assert(is_tight_bbox(bw@, l) && is_tight_bbox(dark_mask@, d));
    }
    r
}

/// A band scores by what it holds alone: -1 when every pixel is light,
/// +1 when every pixel is dark, and 0 as soon as it holds both a light and
/// a dark pixel.
pub proof fn lemma_band_score_by_content(v: GrayView, r: Rect, lx: int, ly: int, dx: int, dy: int)
    requires
        in_rect(r, lx, ly),
        in_rect(r, dx, dy),
    ensures
        v.at(lx, ly) == 255 && v.at(dx, dy) != 255 ==> band_score_spec(v, r) == 0,
        (v.at(lx, ly) == 255 && forall|x: int, y: int| in_rect(r, x, y) ==> #[trigger] v.at(x, y) == 255)
            ==> band_score_spec(v, r) == -1,
        (v.at(dx, dy) != 255 && forall|x: int, y: int| in_rect(r, x, y) ==> #[trigger] v.at(x, y) != 255)
            ==> band_score_spec(v, r) == 1,
{
}

/// Row `row` of `v` holds a light pixel.
pub open spec fn row_has_light(v: GrayView, row: int) -> bool {
    exists|x: int| 0 <= x < v.width && #[trigger] v.at(x, row) == 255
}

/// Column `col` of `v` holds a light pixel.
pub open spec fn col_has_light(v: GrayView, col: int) -> bool {
    exists|y: int| 0 <= y < v.height && #[trigger] v.at(col, y) == 255
}

/// A band that holds a light pixel never scores above 0.
proof fn lemma_light_band_not_positive(v: GrayView, r: Rect, x: int, y: int)
    requires
        in_rect(r, x, y),
        v.at(x, y) == 255,
    ensures
        band_score_spec(v, r) <= 0,
{
}

proof fn lemma_rows_score_not_positive(v: GrayView, y: int)
    requires
        v.width > 0,
        v.height > 0,
        v.width <= u32::MAX,
        v.height <= u32::MAX,
        0 <= y,
        forall|row: int| 0 <= row < v.height ==> #[trigger] row_has_light(v, row),
    ensures
        rows_score(v, y) <= 0,
    decreases v.height - y,
{
    let h = v.height as int;
    let s = band_start(y, h);
    assert(0 <= s < h);
    let r = Rect { x0: 0, y0: s as u32, x1: v.width as u32, y1: band_end(y, h) as u32 };
    assert(row_has_light(v, s));
    let x = choose|x: int| 0 <= x < v.width && #[trigger] v.at(x, s) == 255;
    lemma_light_band_not_positive(v, r, x, s);
    if !(y + 5 >= h) {
        lemma_rows_score_not_positive(v, y + 5);
    }
}

proof fn lemma_cols_score_not_positive(v: GrayView, x: int)
    requires
        v.width > 0,
        v.height > 0,
        v.width <= u32::MAX,
        v.height <= u32::MAX,
        0 <= x,
        forall|col: int| 0 <= col < v.width ==> #[trigger] col_has_light(v, col),
    ensures
        cols_score(v, x) <= 0,
    decreases v.width - x,
{
    let w = v.width as int;
    let s = band_start(x, w);
    assert(0 <= s < w);
    let r = Rect { x0: s as u32, y0: 0, x1: band_end(x, w) as u32, y1: v.height as u32 };
    assert(col_has_light(v, s));
    let y = choose|y: int| 0 <= y < v.height && #[trigger] v.at(s, y) == 255;
    lemma_light_band_not_positive(v, r, s, y);
    if !(x + 5 >= w) {
        lemma_cols_score_not_positive(v, x + 5);
    }
}

/// The band fallback reads a page as dark only when some band is solid
/// dark: a thresholded page on which every row and every column holds a
/// light pixel (so no band, across or down, is solid dark) is read as
/// white.
pub proof fn lemma_fallback_needs_a_solid_dark_band(v: GrayView)
    requires
        v.width <= u32::MAX,
        v.height <= u32::MAX,
        forall|row: int| 0 <= row < v.height ==> #[trigger] row_has_light(v, row),
        forall|col: int| 0 <= col < v.width ==> #[trigger] col_has_light(v, col),
    ensures
        strip_dominance_spec(v) == Background::White,
{
    if v.width > 0 && v.height > 0 {
        lemma_rows_score_not_positive(v, 0);
        lemma_cols_score_not_positive(v, 0);
    }
}

} // verus!
