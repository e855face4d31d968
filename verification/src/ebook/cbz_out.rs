//! Resized `.cbz` output: the processed pages zipped under their chapter
//! titles, one folder per chapter, with `/` and `\` in titles replaced by
//! `-` so a title never reads back as a subdirectory. Page files are named
//! `p0001.jpg`, `p0002.jpg`, ... within each chapter.

use crate::archive::cbz::{distinct_names, listing, named_views, names_fit, sizes_fit, write_zip, zip_read};
use crate::ebook::{chapter_view, chapter_views, page_view, Chapter, ChapterView};
use crate::error::Error;
use crate::text::{append_chars, chars_of, clone_bytes, decimal_chars, decimal_text, pad_left, pad_left_chars, string_from_chars};
use vstd::prelude::*;

verus! {

/// A chapter title made safe as a folder name.
pub open spec fn safe_title(title: Seq<char>) -> Seq<char> {
    title.map_values(|c: char| if c == '/' || c == '\\' { '-' } else { c })
}

/// The entry name of page `number` (counting from 1) of a chapter.
pub open spec fn page_entry_name(title: Seq<char>, number: nat, extension: Seq<char>) -> Seq<char> {
    safe_title(title) + seq!['/', 'p'] + pad_left(decimal_text(number), 4, '0') + seq!['.'] + extension
}

/// The entries of one chapter, in page order.
pub open spec fn chapter_entries(c: ChapterView) -> Seq<(Seq<char>, Seq<u8>)> {
    Seq::new(c.pages.len(), |k: int| (page_entry_name(c.title, (k + 1) as nat, c.pages[k].0), c.pages[k].1))
}

/// The entries of every chapter, chapter after chapter.
pub open spec fn chapters_entries(cs: Seq<ChapterView>) -> Seq<(Seq<char>, Seq<u8>)>
    decreases cs.len(),
{
    if cs.len() == 0 {
        Seq::empty()
    } else {
        chapters_entries(cs.drop_last()) + chapter_entries(cs.last())
    }
}

/// The archive's entries: `ComicInfo.xml` first when it is kept, then the
/// pages.
pub open spec fn cbz_entry_list(cs: Seq<ChapterView>, comic_info_xml: Option<Seq<u8>>) -> Seq<(Seq<char>, Seq<u8>)> {
    match comic_info_xml {
        Some(x) => seq![("ComicInfo.xml"@, x)] + chapters_entries(cs),
        None => chapters_entries(cs),
    }
}

/// The number of pages of all chapters.
pub open spec fn total_pages(cs: Seq<ChapterView>) -> int
    decreases cs.len(),
{
    if cs.len() == 0 {
        0
    } else {
        total_pages(cs.drop_last()) + cs.last().pages.len()
    }
}

fn safe_title_chars(title: &String) -> (r: Vec<char>)
    ensures
        r@ == safe_title(title@),
{
    let t = chars_of(title.as_str());
    let mut r: Vec<char> = Vec::new();
    let n = t.len();
    for i in 0..n
        invariant
            n == t@.len(),
            t@ == title@,
            r@ == safe_title(t@.take(i as int)),
    {
        let c = t[i];
        let d = if c == '/' || c == '\\' { '-' } else { c };
        r.push(d);
        assert(r@ =~= safe_title(t@.take(i + 1)));
    }
    assert(t@.take(n as int) =~= t@);
    r
}

/// Every page of every chapter gets exactly one archive entry.
pub proof fn lemma_chapters_entries_len(cs: Seq<ChapterView>)
    ensures
        chapters_entries(cs).len() == total_pages(cs),
    decreases cs.len(),
{
    if cs.len() > 0 {
        lemma_chapters_entries_len(cs.drop_last());
    }
}

/// The named entries of the output archive: `ComicInfo.xml` at the root
/// first when `comic_info_xml` is given, then every page of every chapter
/// as `<safe title>/p<number, 4 digits>.<extension>`.
pub fn cbz_entries(chapters: &[Chapter], comic_info_xml: Option<&[u8]>) -> (r: Vec<(String, Vec<u8>)>)
    ensures
        named_views(r@) == cbz_entry_list(chapter_views(chapters@), xml_view(comic_info_xml)),
{
    let ghost cs = chapter_views(chapters@);
    let mut entries: Vec<(String, Vec<u8>)> = Vec::new();
    let ghost head: Seq<(Seq<char>, Seq<u8>)> = Seq::empty();
    match comic_info_xml {
        Some(xml) => {
            let name = String::from_str("ComicInfo.xml");
            entries.push((name, clone_bytes(xml)));
            proof {
                head = seq![("ComicInfo.xml"@, xml@)];
            }
            assert(named_views(entries@) =~= head);
        },
        None => {
            assert(named_views(entries@) =~= head);
        },
    }
    let nc = chapters.len();
    for ci in 0..nc
        invariant
            nc == chapters@.len(),
            cs == chapter_views(chapters@),
            named_views(entries@) == head + chapters_entries(cs.take(ci as int)),
    {
        let chapter = &chapters[ci];
        let ghost c = chapter_view(*chapter);
        assert(cs[ci as int] == c);
        let title = safe_title_chars(&chapter.title);
        let np = chapter.pages.len();
        let ghost start = named_views(entries@);
        for k in 0..np
            invariant
                np == chapter.pages@.len(),
                c == chapter_view(*chapter),
                title@ == safe_title(c.title),
                named_views(entries@) == start + chapter_entries(c).take(k as int),
        {
            let page = &chapter.pages[k];
            assert(c.pages[k as int] == page_view(*page));
            let mut name = title.clone();
            assert(name@ == title@);
            name.push('/');
            name.push('p');
            let digits = decimal_chars((k + 1) as u64);
            let padded = pad_left_chars(digits, 4, '0');
            append_chars(&mut name, padded.as_slice());
            name.push('.');
            let ext = chars_of(page.extension.as_str());
            append_chars(&mut name, ext.as_slice());
            assert(name@ =~= page_entry_name(c.title, (k + 1) as nat, c.pages[k as int].0));
            let s = string_from_chars(name.as_slice());
            let ghost before = named_views(entries@);
            entries.push((s, clone_bytes(page.bytes.as_slice())));
            assert(named_views(entries@) =~= before.push(chapter_entries(c)[k as int]));
            assert(chapter_entries(c).take(k + 1) =~= chapter_entries(c).take(k as int).push(chapter_entries(c)[k as int]));
        }
        assert(chapter_entries(c).take(np as int) =~= chapter_entries(c));
        assert(cs.take(ci + 1).drop_last() =~= cs.take(ci as int));
        assert(cs.take(ci + 1).last() == c);
    }
    assert(cs.take(nc as int) =~= cs);
    entries
}

/// `comic_info_xml` as plain values.
pub open spec fn xml_view(comic_info_xml: Option<&[u8]>) -> Option<Seq<u8>> {
    match comic_info_xml {
        Some(x) => Some(x@),
        None => None,
    }
}

/// The resized `.cbz`: the entries of [`cbz_entries`], stored uncompressed;
/// reading the archive back lists exactly those entries, in that order,
/// with their bytes. A book with no page (a lone `ComicInfo.xml` included)
/// is refused with [`Error::EmptyBook`]; one with pages is built whenever
/// no two entries share a name and no entry passes 4 GiB. Each entry name
/// must fit a ZIP header's 16-bit name length.
pub fn build_cbz(chapters: &[Chapter], comic_info_xml: Option<&[u8]>) -> (r: Result<Vec<u8>, Error>)
    requires
        names_fit(cbz_entry_list(chapter_views(chapters@), xml_view(comic_info_xml))),
    ensures
        (r matches Err(Error::EmptyBook)) <==> total_pages(chapter_views(chapters@)) == 0,
        r matches Ok(b) ==> zip_read(b@) == Some(listing(cbz_entry_list(chapter_views(chapters@), xml_view(comic_info_xml)))),
        (total_pages(chapter_views(chapters@)) > 0 && distinct_names(cbz_entry_list(chapter_views(chapters@), xml_view(comic_info_xml)))
            && sizes_fit(cbz_entry_list(chapter_views(chapters@), xml_view(comic_info_xml)))) ==> r is Ok,
{
    let entries = cbz_entries(chapters, comic_info_xml);
    proof {
        lemma_chapters_entries_len(chapter_views(chapters@));
        assert(named_views(entries@).len() == entries@.len());
    }
    let only_info = match comic_info_xml {
        Some(_) => entries.len() == 1,
        None => false,
    };
    if entries.len() == 0 || only_info {
        return Err(Error::EmptyBook);
    }
    match write_zip(&entries, true) {
        Ok(b) => Ok(b),
        Err(e) => Err(e),
    }
}

} // verus!
