//! PDF output: one PDF page per processed page, in chapter order, each
//! page showing its image decoded to grayscale. Laying the pages out and
//! writing the file is `printpdf`'s work, in points, as floating point;
//! which images go in, and in what order, is decided here.

use crate::codec::{decode_page, decoded_gray};
use crate::ebook::cbz_out::total_pages;
use crate::ebook::{chapter_view, chapter_views, page_view, Chapter, ChapterView};
use crate::error::Error;
use crate::gray::{GrayImage, GrayView};
use vstd::prelude::*;

verus! {

/// The resolved title and author to embed in a PDF's information
/// dictionary.
pub struct PdfOptions {
    pub title: String,
    pub author: String,
}

/// Every `(chapter, page)` index pair of `cs`, chapter after chapter.
pub open spec fn page_positions(cs: Seq<ChapterView>) -> Seq<(int, int)>
    decreases cs.len(),
{
    if cs.len() == 0 {
        Seq::empty()
    } else {
        let c = cs.len() - 1;
        page_positions(cs.drop_last()) + Seq::new(cs.last().pages.len(), |k: int| (c, k))
    }
}

pub(crate) proof fn lemma_page_positions_len(cs: Seq<ChapterView>)
    ensures
        page_positions(cs).len() == total_pages(cs),
    decreases cs.len(),
{
    if cs.len() > 0 {
        lemma_page_positions_len(cs.drop_last());
    }
}

/// The pages of a PDF, as `(chapter, page)` index pairs in order; a book
/// without pages is refused with [`Error::EmptyBook`].
pub fn pdf_page_order(chapters: &[Chapter]) -> (r: Result<Vec<(usize, usize)>, Error>)
    ensures
        (r is Err) <==> total_pages(chapter_views(chapters@)) == 0,
        r matches Err(e) ==> e is EmptyBook,
        r matches Ok(v) ==> v@.map_values(|p: (usize, usize)| (p.0 as int, p.1 as int)) == page_positions(chapter_views(chapters@)),
{
    let ghost cs = chapter_views(chapters@);
    let mut out: Vec<(usize, usize)> = Vec::new();
    let nc = chapters.len();
    for ci in 0..nc
        invariant
            nc == chapters@.len(),
            cs == chapter_views(chapters@),
            out@.map_values(|p: (usize, usize)| (p.0 as int, p.1 as int)) == page_positions(cs.take(ci as int)),
    {
        let np = chapters[ci].pages.len();
        assert(cs[ci as int].pages.len() == np);
        let ghost start = out@.map_values(|p: (usize, usize)| (p.0 as int, p.1 as int));
        for k in 0..np
            invariant
                out@.map_values(|p: (usize, usize)| (p.0 as int, p.1 as int)) == start + Seq::new(k as nat, |j: int| (ci as int, j)),
        {
            let ghost before = out@;
            out.push((ci, k));
            assert(out@.map_values(|p: (usize, usize)| (p.0 as int, p.1 as int)) =~= before.map_values(|p: (usize, usize)| (p.0 as int, p.1 as int)).push((ci as int, k as int)));
            assert(out@.map_values(|p: (usize, usize)| (p.0 as int, p.1 as int)) =~= start + Seq::new((k + 1) as nat, |j: int| (ci as int, j)));
        }
        assert(cs.take(ci + 1).drop_last() =~= cs.take(ci as int));
        assert(cs.take(ci + 1).last() == cs[ci as int]);
    }
    assert(cs.take(nc as int) =~= cs);
    proof {
        lemma_page_positions_len(cs);
        assert(out@.map_values(|p: (usize, usize)| (p.0 as int, p.1 as int)).len() == out@.len());
    }
    if out.len() == 0 {
        Err(Error::EmptyBook)
    } else {
        Ok(out)
    }
}

/// The encoded bytes of the page at position `p` of `cs`.
pub open spec fn page_bytes(cs: Seq<ChapterView>, p: (int, int)) -> Seq<u8> {
    cs[p.0].pages[p.1].1
}

/// Every page of `cs` decodes.
pub open spec fn all_decode(cs: Seq<ChapterView>) -> bool {
    forall|k: int|
        0 <= k < page_positions(cs).len() ==> (#[trigger] decoded_gray(page_bytes(cs, page_positions(cs)[k]))) is Some
}

/// The decoded pages of `cs`, in page order (meaningful where they all
/// decode).
pub open spec fn decoded_pages(cs: Seq<ChapterView>) -> Seq<GrayView> {
    Seq::new(
        page_positions(cs).len(),
        |k: int| decoded_gray(page_bytes(cs, page_positions(cs)[k])).unwrap(),
    )
}

/// The images of a book's pages: every processed page decoded to
/// grayscale, in chapter and page order. A book without pages is refused
/// with [`Error::EmptyBook`]; otherwise a page that does not decode stops
/// it with [`Error::Image`], and it succeeds exactly when every page
/// decodes.
pub fn book_page_images(chapters: &[Chapter]) -> (r: Result<Vec<GrayImage>, Error>)
    ensures
        (r matches Err(Error::EmptyBook)) <==> total_pages(chapter_views(chapters@)) == 0,
        (r matches Err(Error::Image(_))) <==> (total_pages(chapter_views(chapters@)) > 0 && !all_decode(
            chapter_views(chapters@),
        )),
        r is Ok <==> (total_pages(chapter_views(chapters@)) > 0 && all_decode(chapter_views(chapters@))),
        r matches Ok(v) ==> v@.map_values(|g: GrayImage| g@) == decoded_pages(chapter_views(chapters@)),
        r matches Ok(v) ==> forall|k: int| 0 <= k < v@.len() ==> (#[trigger] v@[k])@.wf(),
{
    let ghost cs = chapter_views(chapters@);
    let order = match pdf_page_order(chapters) {
        Ok(o) => o,
        Err(e) => return Err(e),
    };
    let ghost pos = page_positions(cs);
    proof {
        lemma_page_positions_len(cs);
    }
    assert(order@.map_values(|p: (usize, usize)| (p.0 as int, p.1 as int)).len() == order@.len());
    let mut images: Vec<GrayImage> = Vec::new();
    let n = order.len();
    for k in 0..n
        invariant
            n == order@.len(),
            n == pos.len(),
            cs == chapter_views(chapters@),
            pos == page_positions(cs),
            total_pages(cs) != 0,
            total_pages(cs) == pos.len(),
            order@.map_values(|p: (usize, usize)| (p.0 as int, p.1 as int)) == pos,
            images@.map_values(|g: GrayImage| g@) == decoded_pages(cs).take(k as int),
            forall|j: int| 0 <= j < images@.len() ==> (#[trigger] images@[j])@.wf(),
            forall|j: int| 0 <= j < k ==> (#[trigger] decoded_gray(page_bytes(cs, pos[j]))) is Some,
    {
        let (ci, pi) = order[k];
        assert(order@.map_values(|p: (usize, usize)| (p.0 as int, p.1 as int))[k as int] == (ci as int, pi as int));
        proof {
            lemma_position_in_range(cs, k as int);
        }
        assert(cs[ci as int] == chapter_view(chapters@[ci as int]));
        assert(cs[ci as int].pages[pi as int] == page_view(chapters@[ci as int].pages@[pi as int]));
        let page = &chapters[ci].pages[pi];
        let image = match decode_page(page.bytes.as_slice()) {
            Ok(img) => img,
            Err(e) => {
                assert(decoded_gray(page_bytes(cs, page_positions(cs)[k as int])) is None);
                assert(!all_decode(cs));
                return Err(e);
            },
        };
        let ghost before = images@;
        images.push(image);
        assert(images@.map_values(|g: GrayImage| g@) =~= before.map_values(|g: GrayImage| g@).push(decoded_pages(cs)[k as int]));
        assert(decoded_pages(cs).take(k + 1) =~= decoded_pages(cs).take(k as int).push(decoded_pages(cs)[k as int]));
    }
    assert(decoded_pages(cs).take(n as int) =~= decoded_pages(cs));
    Ok(images)
}

/// Every position of `page_positions(cs)` names a page of `cs`.
pub(crate) proof fn lemma_position_in_range(cs: Seq<ChapterView>, k: int)
    requires
        0 <= k < page_positions(cs).len(),
    ensures
        0 <= page_positions(cs)[k].0 < cs.len(),
        0 <= page_positions(cs)[k].1 < cs[page_positions(cs)[k].0].pages.len(),
    decreases cs.len(),
{
    let prev = page_positions(cs.drop_last());
    if k < prev.len() {
        lemma_position_in_range(cs.drop_last(), k);
        assert(page_positions(cs)[k] == prev[k]);
    }
}

} // verus!
