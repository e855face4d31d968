//! Double-page spread detection and handling: split, rotate, or leave the
//! page alone.
//!
//! Given the source `(width, height)` and the device `(dst_width,
//! dst_height)`, a page is a spread only when its orientation differs from
//! the device's and `width / height > 1.16`. A spread with
//! `width / height >= 1.8` is too wide to split usefully and is rotated
//! whatever the splitter mode; otherwise the splitter mode decides.

use crate::gray::{lemma_view_ext, lemma_view_from_fn, view_from_fn, GrayImage, GrayView};
use crate::crop::sub_image;
use crate::pipeline::SplitterMode;
use vstd::prelude::*;

verus! {

#[derive(Debug, Clone, Copy, PartialEq, Eq, Structural)]
pub enum Decision {
    /// Not a spread: one ordinary page.
    Normal,
    /// Split into two halves.
    Split,
    /// Rotate the whole spread a quarter turn instead of splitting.
    Rotate,
    /// Both the two halves and the rotated whole.
    Both,
}

/// The spread decision for a `src` page on a `dst` device. The ratio tests
/// `w / h > 1.16` and `w / h >= 1.8` are written over integers.
pub open spec fn decision_for(src: (u32, u32), dst: (u32, u32), splitter: SplitterMode) -> Decision {
    let w = src.0 as int;
    let h = src.1 as int;
    let is_spread = ((src.0 > src.1) != (dst.0 > dst.1)) && 100 * w > 116 * h;
    if !is_spread {
        Decision::Normal
    } else if 10 * w >= 18 * h {
        Decision::Rotate
    } else {
        match splitter {
            SplitterMode::Split => Decision::Split,
            SplitterMode::Rotate => Decision::Rotate,
            SplitterMode::Both => Decision::Both,
        }
    }
}

pub fn decide(src: (u32, u32), dst: (u32, u32), splitter: SplitterMode) -> (d: Decision)
    ensures
        d == decision_for(src, dst, splitter),
{
    let w = src.0 as u64;
    let h = src.1 as u64;
    let src_landscape = src.0 > src.1;
    let dst_landscape = dst.0 > dst.1;
    let is_spread = (src_landscape != dst_landscape) && 100 * w > 116 * h;
    if !is_spread {
        return Decision::Normal;
    }
    if 10 * w >= 18 * h {
        Decision::Rotate
    } else {
        match splitter {
            SplitterMode::Split => Decision::Split,
            SplitterMode::Rotate => Decision::Rotate,
            SplitterMode::Both => Decision::Both,
        }
    }
}

/// The `w x h` region of `v` whose top-left pixel is `(x0, y0)`.
pub open spec fn region(v: GrayView, x0: int, y0: int, w: nat, h: nat) -> GrayView {
    view_from_fn(w, h, |x: int, y: int| v.at(x + x0, y + y0))
}

/// `v` turned a quarter turn, clockwise or counter-clockwise.
pub open spec fn rotated_view(v: GrayView, clockwise: bool) -> GrayView {
    if clockwise {
        view_from_fn(v.height, v.width, |x: int, y: int| v.at(y, v.height - 1 - x))
    } else {
        view_from_fn(v.height, v.width, |x: int, y: int| v.at(v.width - 1 - y, x))
    }
}

/// The two halves of a spread in reading order: left and right halves of a
/// landscape page, top and bottom of any other; right-to-left reading takes
/// the second half first.
pub open spec fn split_views(v: GrayView, manga_style: bool) -> (GrayView, GrayView) {
    let w = v.width;
    let h = v.height;
    let halves = if w > h {
        (region(v, 0, 0, w / 2, h), region(v, (w / 2) as int, 0, (w - w / 2) as nat, h))
    } else {
        (region(v, 0, 0, w, h / 2), region(v, 0, (h / 2) as int, w, (h - h / 2) as nat))
    };
    if manga_style {
        (halves.1, halves.0)
    } else {
        halves
    }
}

/// The pages a decision turns a page into, in order.
pub open spec fn execute_views(v: GrayView, decision: Decision, manga_style: bool, rotate_right: bool) -> Seq<GrayView> {
    let halves = split_views(v, manga_style);
    match decision {
        Decision::Normal => seq![v],
        Decision::Split => seq![halves.0, halves.1],
        Decision::Rotate => seq![rotated_view(v, rotate_right)],
        Decision::Both => seq![halves.0, halves.1, rotated_view(v, rotate_right)],
    }
}

fn region_of(img: &GrayImage, x0: u32, y0: u32, w: u32, h: u32) -> (out: GrayImage)
    requires
        img@.wf(),
        x0 + w <= img@.width,
        y0 + h <= img@.height,
    ensures
        out@ == region(img@, x0 as int, y0 as int, w as nat, h as nat),
{
    let out = sub_image(img, x0, y0, w, h);
    proof {
        let r = region(img@, x0 as int, y0 as int, w as nat, h as nat);
        lemma_view_from_fn(w as nat, h as nat, |x: int, y: int| img@.at(x + x0, y + y0));
        assert(out@.same_pixels(r));
        lemma_view_ext(out@, r);
    }
    out
}

/// Splits a spread down the middle into its two halves, in reading order.
pub fn split(img: &GrayImage, manga_style: bool) -> (r: (GrayImage, GrayImage))
    requires
        img@.wf(),
    ensures
        (r.0@, r.1@) == split_views(img@, manga_style),
{
    let (w, h) = img.dimensions();
    let (first, second) = if w > h {
        (region_of(img, 0, 0, w / 2, h), region_of(img, w / 2, 0, w - w / 2, h))
    } else {
        (region_of(img, 0, 0, w, h / 2), region_of(img, 0, h / 2, w, h - h / 2))
    };
    if manga_style {
        (second, first)
    } else {
        (first, second)
    }
}

/// Turns a page a quarter turn: clockwise when `rotate_right`, otherwise
/// counter-clockwise.
pub fn rotate(img: &GrayImage, rotate_right: bool) -> (out: GrayImage)
    requires
        img@.wf(),
    ensures
        out@ == rotated_view(img@, rotate_right),
{
    let ghost v = img@;
    let (iw, ih) = img.dimensions();
    let ow = ih;
    let oh = iw;
    let mut out: Vec<u8> = Vec::new();
    let _n = img.as_raw().len();
    proof {
        assert(ow * oh == iw * ih) by (nonlinear_arith)
            requires
                ow == ih,
                oh == iw,
        ;
    }
    let mut y: u32 = 0;
    while y < oh
        invariant
            v == img@,
            v.wf(),
            iw == v.width,
            ih == v.height,
            ow == ih,
            oh == iw,
            ow * oh <= usize::MAX,
            y <= oh,
            out@.len() == y * ow,
            forall|j: int| 0 <= j < out@.len() ==> #[trigger] out@[j] == (if rotate_right {
                v.at(j / (ow as int), v.height - 1 - j % (ow as int))
            } else {
                v.at(v.width - 1 - j / (ow as int), j % (ow as int))
            }),
        decreases oh - y,
    {
        let mut x: u32 = 0;
        while x < ow
            invariant
                v == img@,
                v.wf(),
                iw == v.width,
                ih == v.height,
                ow == ih,
                oh == iw,
                ow * oh <= usize::MAX,
                y < oh,
                x <= ow,
                out@.len() == y * ow + x,
                forall|j: int| 0 <= j < out@.len() ==> #[trigger] out@[j] == (if rotate_right {
                    v.at(j / (ow as int), v.height - 1 - j % (ow as int))
                } else {
                    v.at(v.width - 1 - j / (ow as int), j % (ow as int))
                }),
            decreases ow - x,
        {
            let q = if rotate_right {
                img.get_pixel(y, ih - 1 - x)
            } else {
                img.get_pixel(iw - 1 - y, x)
            };
            proof {
                gray_row_major(x as int, y as int, ow as int);
            }
            let ghost prev = out@;
            out.push(q);
            proof {
                assert forall|j: int| 0 <= j < out@.len() implies #[trigger] out@[j] == (if rotate_right {
                    v.at(j / (ow as int), v.height - 1 - j % (ow as int))
                } else {
                    v.at(v.width - 1 - j / (ow as int), j % (ow as int))
                }) by {
                    if j < prev.len() {
                        assert(out@[j] == prev[j]);
                    }
                }
            }
            x = x + 1;
        }
        proof {
            assert((y + 1) * ow == y * ow + ow) by (nonlinear_arith);
        }
        y = y + 1;
    }
    let res = GrayImage::from_view_parts(ow, oh, out);
    proof {
        let r = rotated_view(v, rotate_right);
        if rotate_right {
            lemma_view_from_fn(v.height, v.width, |x: int, y: int| v.at(y, v.height - 1 - x));
        } else {
            lemma_view_from_fn(v.height, v.width, |x: int, y: int| v.at(v.width - 1 - y, x));
        }
        assert forall|x: int, y: int| res@.contains(x, y) implies #[trigger] res@.at(x, y) == r.at(x, y) by {
            crate::gray::lemma_index_bounds(x, y, ow as int, oh as int);
            gray_row_major(x, y, ow as int);
        }
        lemma_view_ext(res@, r);
    }
    res
}

proof fn gray_row_major(x: int, y: int, width: int)
    requires
        0 <= x < width,
        0 <= y,
    ensures
        (y * width + x) % width == x,
        (y * width + x) / width == y,
{
    crate::gray::lemma_row_major(x, y, width);
}

/// The pages a decision turns `img` into, in order: the page itself, its
/// two halves, the page rotated, or the halves followed by the rotated
/// page.
pub fn execute(img: &GrayImage, decision: Decision, manga_style: bool, rotate_right: bool) -> (out: Vec<GrayImage>)
    requires
        img@.wf(),
    ensures
        out@.map_values(|p: GrayImage| p@) == execute_views(img@, decision, manga_style, rotate_right),
{
    let mut out: Vec<GrayImage> = Vec::new();
    match decision {
        Decision::Normal => {
            out.push(img.clone());
        },
        Decision::Split => {
            let (a, b) = split(img, manga_style);
            out.push(a);
            out.push(b);
        },
        Decision::Rotate => {
            out.push(rotate(img, rotate_right));
        },
        Decision::Both => {
            let (a, b) = split(img, manga_style);
            out.push(a);
            out.push(b);
            out.push(rotate(img, rotate_right));
        },
    }
    assert(out@.map_values(|p: GrayImage| p@) =~= execute_views(img@, decision, manga_style, rotate_right));
    out
}

/// A quarter turn one way undoes a quarter turn the other way.
pub proof fn lemma_rotations_undo_each_other(v: GrayView)
    requires
        v.wf(),
    ensures
        rotated_view(rotated_view(v, true), false) == v,
        rotated_view(rotated_view(v, false), true) == v,
{
    let h = v.height;
    let w = v.width;
    let fr = |x: int, y: int| v.at(y, h - 1 - x);
    let fl = |x: int, y: int| v.at(w - 1 - y, x);
    let r = rotated_view(v, true);
    let l = rotated_view(v, false);
    lemma_view_from_fn(h, w, fr);
    lemma_view_from_fn(h, w, fl);
    let rl = rotated_view(r, false);
    let lr = rotated_view(l, true);
    lemma_view_from_fn(w, h, |x: int, y: int| r.at(r.width - 1 - y, x));
    lemma_view_from_fn(w, h, |x: int, y: int| l.at(y, l.height - 1 - x));
    assert forall|x: int, y: int| rl.contains(x, y) implies #[trigger] rl.at(x, y) == v.at(x, y) by {
        assert(r.at(h - 1 - y, x) == v.at(x, h - 1 - (h - 1 - y)));
    }
    assert forall|x: int, y: int| lr.contains(x, y) implies #[trigger] lr.at(x, y) == v.at(x, y) by {
        assert(l.at(y, w - 1 - x) == v.at(w - 1 - (w - 1 - x), y));
    }
    lemma_view_ext(rl, v);
    lemma_view_ext(lr, v);
}

/// Splitting a landscape spread gives its two halves in reading order:
/// read right to left (manga style), the first page is the right half and
/// the second the left half; read left to right, the left half comes first.
/// Each half keeps the spread's height, the left half is `width / 2` wide,
/// and each pixel is the spread's pixel at the same place.
pub proof fn lemma_split_follows_reading_order(v: GrayView, manga_style: bool, rotate_right: bool)
    requires
        v.wf(),
        v.width > v.height,
    ensures
        ({
            let pages = execute_views(v, Decision::Split, manga_style, rotate_right);
            let w = v.width as int;
            let h = v.height as int;
            let left = if manga_style { pages[1] } else { pages[0] };
            let right = if manga_style { pages[0] } else { pages[1] };
            &&& pages.len() == 2
            &&& left.width == w / 2 && left.height == h
            &&& right.width == w - w / 2 && right.height == h
            &&& forall|x: int, y: int| 0 <= x < w / 2 && 0 <= y < h ==> #[trigger] left.at(x, y) == v.at(x, y)
            &&& forall|x: int, y: int|
                0 <= x < w - w / 2 && 0 <= y < h ==> #[trigger] right.at(x, y) == v.at(x + w / 2, y)
        }),
{
    let w = v.width;
    let h = v.height;
    lemma_view_from_fn((w / 2) as nat, h, |x: int, y: int| v.at(x + 0, y + 0));
    lemma_view_from_fn((w - w / 2) as nat, h, |x: int, y: int| v.at(x + (w / 2) as int, y + 0));
}

/// The two pages of a split spread read right to left are those read left
/// to right, in the other order.
pub proof fn lemma_manga_split_swaps_pages(v: GrayView, rotate_right: bool)
    ensures
        execute_views(v, Decision::Split, true, rotate_right) == seq![
            execute_views(v, Decision::Split, false, rotate_right)[1],
            execute_views(v, Decision::Split, false, rotate_right)[0],
        ],
        execute_views(v, Decision::Both, true, rotate_right).take(2) == seq![
            execute_views(v, Decision::Both, false, rotate_right)[1],
            execute_views(v, Decision::Both, false, rotate_right)[0],
        ],
{
    assert(execute_views(v, Decision::Split, true, rotate_right) =~= seq![
        execute_views(v, Decision::Split, false, rotate_right)[1],
        execute_views(v, Decision::Split, false, rotate_right)[0],
    ]);
    assert(execute_views(v, Decision::Both, true, rotate_right).take(2) =~= seq![
        execute_views(v, Decision::Both, false, rotate_right)[1],
        execute_views(v, Decision::Both, false, rotate_right)[0],
    ]);
}

} // verus!
