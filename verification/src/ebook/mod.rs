//! Books built from processed pages: the chapter structure shared by every
//! output format, and the CBZ, EPUB and PDF specifics.

pub mod cbz_out;
pub mod epub;
pub mod pdf;

use crate::archive::{entry_view, entry_views, SourceEntry};
use crate::paths::{components, extension, is_dot, is_dot_dot, is_root, name_extension_exec, path_components, path_text, path_text_parts};
use crate::text::{chars_of, clone_chars, lowercase, str_eq, string_from_chars, to_lowercase};
use vstd::prelude::*;

verus! {

/// One processed page: encoded image bytes and their format's extension
/// (lowercase, no leading dot).
pub struct Page {
    pub extension: String,
    pub bytes: Vec<u8>,
}

/// One chapter: the pages of one directory, keyed by the directory's full
/// relative path (so same-named directories under different parents stay
/// apart) and titled by its last component.
pub struct Chapter {
    pub relative_path: String,
    pub title: String,
    pub pages: Vec<Page>,
}

/// A chapter as plain values.
pub struct ChapterView {
    pub path: Seq<char>,
    pub title: Seq<char>,
    pub pages: Seq<(Seq<char>, Seq<u8>)>,
}

pub open spec fn page_view(p: Page) -> (Seq<char>, Seq<u8>) {
    (p.extension@, p.bytes@)
}

pub open spec fn chapter_view(c: Chapter) -> ChapterView {
    ChapterView { path: c.relative_path@, title: c.title@, pages: c.pages@.map_values(|p: Page| page_view(p)) }
}

pub open spec fn chapter_views(s: Seq<Chapter>) -> Seq<ChapterView> {
    s.map_values(|c: Chapter| chapter_view(c))
}

/// The components of the directory holding `path`.
pub open spec fn parent_components(path: Seq<char>) -> Seq<Seq<char>> {
    let c = components(path);
    if c.len() == 0 {
        c
    } else {
        c.drop_last()
    }
}

/// The directory holding `path`, written out as a path (see
/// [`path_text`]).
pub open spec fn parent_path(path: Seq<char>) -> Seq<char> {
    path_text(parent_components(path))
}

/// A chapter's title: the last component of its directory, or `Untitled`
/// when there is none (or it is `.` or `..`).
pub open spec fn chapter_title(path: Seq<char>) -> Seq<char> {
    let p = parent_components(path);
    if p.len() == 0 || p.last() == seq!['.', '.'] || p.last() == seq!['.'] || p.last() == seq!['/'] {
        "Untitled"@
    } else {
        p.last()
    }
}

/// A page's extension: the path's extension lowercased, or empty.
pub open spec fn page_extension(path: Seq<char>) -> Seq<char> {
    match extension(path) {
        Some(e) => lowercase(e),
        None => Seq::empty(),
    }
}

/// Entries grouped into chapters: each entry joins the last chapter when
/// that chapter has the entry's directory, and starts a new one otherwise.
pub open spec fn chapters_of(entries: Seq<(Seq<char>, Seq<u8>)>) -> Seq<ChapterView>
    decreases entries.len(),
{
    if entries.len() == 0 {
        Seq::empty()
    } else {
        let prev = chapters_of(entries.drop_last());
        let (path, bytes) = entries.last();
        let page = (page_extension(path), bytes);
        if prev.len() > 0 && prev.last().path == parent_path(path) {
            let last = prev.last();
            prev.update(prev.len() - 1, ChapterView { path: last.path, title: last.title, pages: last.pages.push(page) })
        } else {
            prev.push(ChapterView { path: parent_path(path), title: chapter_title(path), pages: seq![page] })
        }
    }
}

struct EntryParts {
    parent: String,
    title: String,
    extension: String,
}

fn entry_parts(path: &String) -> (r: EntryParts)
    ensures
        r.parent@ == parent_path(path@),
        r.title@ == chapter_title(path@),
        r.extension@ == page_extension(path@),
{
    let comps = path_components(path.as_str());
    let ghost cv = comps@.map_values(|p: Vec<char>| p@);
    let n = comps.len();
    let mut parent: Vec<Vec<char>> = Vec::new();
    let m: usize = if n == 0 { 0 } else { n - 1 };
    for i in 0..m
        invariant
            m <= n,
            n == comps@.len(),
            cv == comps@.map_values(|p: Vec<char>| p@),
            parent@.map_values(|p: Vec<char>| p@) == cv.take(i as int),
    {
        let ghost before = parent@.map_values(|p: Vec<char>| p@);
        let c = clone_chars(comps[i].as_slice());
        assert(cv[i as int] == comps@[i as int]@);
        let ghost cval = c@;
        parent.push(c);
        assert(parent@.map_values(|p: Vec<char>| p@) =~= before.push(cval));
        assert(before.push(cval) =~= cv.take(i + 1));
    }
    proof {
        if n > 0 {
            assert(cv.take(m as int) =~= cv.drop_last());
        } else {
            assert(cv.take(0) =~= cv);
        }
    }
    let joined = path_text_parts(&parent);
    let parent_str = string_from_chars(joined.as_slice());
    let title = if m == 0 || is_dot_dot(&parent[m - 1]) || is_dot(&parent[m - 1]) || is_root(&parent[m - 1]) {
        String::from_str("Untitled")
    } else {
        string_from_chars(parent[m - 1].as_slice())
    };
    let ext = if n == 0 || is_dot_dot(&comps[n - 1]) || is_root(&comps[n - 1]) {
        String::new()
    } else {
        match name_extension_exec(&comps[n - 1]) {
            None => String::new(),
            Some(e) => {
                let s = string_from_chars(e.as_slice());
                to_lowercase(s.as_str())
            },
        }
    };
    EntryParts { parent: parent_str, title, extension: ext }
}

/// Groups entries, already in natural path order, into chapters by parent
/// directory: consecutive entries sharing a directory form one chapter.
/// Entries are not re-sorted.
pub fn group_into_chapters(entries: Vec<SourceEntry>) -> (r: Vec<Chapter>)
    ensures
        chapter_views(r@) == chapters_of(entry_views(entries@)),
{
    let ghost all = entry_views(entries@);
    let mut chapters: Vec<Chapter> = Vec::new();
    for e in it: entries.into_iter()
        invariant
            it.seq() == entries@,
            all == entry_views(entries@),
            chapter_views(chapters@) == chapters_of(all.take(it.index() as int)),
    {
        let ghost i = it.index() as int;
        let ghost prev = chapter_views(chapters@);
        proof {
            assert(all.take(i + 1).drop_last() =~= all.take(i));
            assert(all.take(i + 1).last() == entry_view(e));
        }
        let parts = entry_parts(&e.relative_path);
        let page = Page { extension: parts.extension, bytes: e.bytes };
        let ghost pv = page_view(page);
        let n = chapters.len();
        let joins = n > 0 && str_eq(chapters[n - 1].relative_path.as_str(), parts.parent.as_str());
        if joins {
            assert(prev.last() == chapter_view(chapters@[n - 1]));
            let mut last = chapters.pop().unwrap();
            let ghost lv = chapter_view(last);
            let ghost pages_before = last.pages@;
            last.pages.push(page);
            assert(last.pages@.map_values(|p: Page| page_view(p)) =~= pages_before.map_values(|p: Page| page_view(p)).push(pv));
            let ghost mid = chapters@;
            chapters.push(last);
            assert(chapter_views(chapters@) =~= prev.update(prev.len() - 1, ChapterView { path: lv.path, title: lv.title, pages: lv.pages.push(pv) }));
        } else {
            let mut pages: Vec<Page> = Vec::new();
            pages.push(page);
            let c = Chapter { relative_path: parts.parent, title: parts.title, pages };
            assert(c.pages@.map_values(|p: Page| page_view(p)) =~= seq![pv]);
            let ghost cv = chapter_view(c);
            chapters.push(c);
            assert(chapter_views(chapters@) =~= prev.push(cv));
        }
    }
    assert(all.take(all.len() as int) =~= all);
    chapters
}

/// The pages of all chapters, chapter after chapter.
pub open spec fn flatten_pages(cs: Seq<ChapterView>) -> Seq<(Seq<char>, Seq<u8>)>
    decreases cs.len(),
{
    if cs.len() == 0 {
        Seq::empty()
    } else {
        flatten_pages(cs.drop_last()) + cs.last().pages
    }
}

/// Grouping only groups: reading the chapters' pages in order gives back
/// every entry, in order, as a page; no chapter is empty; and two chapters
/// in a row never share a directory.
pub proof fn lemma_grouping_keeps_every_page(entries: Seq<(Seq<char>, Seq<u8>)>)
    ensures
        flatten_pages(chapters_of(entries)) == entries.map_values(
            |e: (Seq<char>, Seq<u8>)| (page_extension(e.0), e.1),
        ),
        forall|i: int| 0 <= i < chapters_of(entries).len() ==> #[trigger] chapters_of(entries)[i].pages.len() > 0,
        forall|i: int|
            0 <= i < chapters_of(entries).len() - 1 ==> #[trigger] chapters_of(entries)[i].path != chapters_of(
                entries,
            )[i + 1].path,
    decreases entries.len(),
{
    let f = |e: (Seq<char>, Seq<u8>)| (page_extension(e.0), e.1);
    if entries.len() == 0 {
        assert(entries.map_values(f) =~= Seq::<(Seq<char>, Seq<u8>)>::empty());
    } else {
        let rest = entries.drop_last();
        lemma_grouping_keeps_every_page(rest);
        let prev = chapters_of(rest);
        let (path, bytes) = entries.last();
        let page = (page_extension(path), bytes);
        assert(entries.map_values(f) =~= rest.map_values(f).push(page));
        let cs = chapters_of(entries);
        if prev.len() > 0 && prev.last().path == parent_path(path) {
            let last = prev.last();
            let c = ChapterView { path: last.path, title: last.title, pages: last.pages.push(page) };
            assert(cs == prev.update(prev.len() - 1, c));
            assert(cs.drop_last() =~= prev.drop_last());
            assert(flatten_pages(prev) == flatten_pages(prev.drop_last()) + last.pages);
            assert(flatten_pages(cs) =~= flatten_pages(prev).push(page));
        } else {
            let c = ChapterView { path: parent_path(path), title: chapter_title(path), pages: seq![page] };
            assert(cs == prev.push(c));
            assert(cs.drop_last() =~= prev);
            assert(flatten_pages(cs) =~= flatten_pages(prev).push(page));
        }
    }
}

} // verus!
