//! EPUB output: a fixed-layout EPUB 3 book, one XHTML page per processed
//! page showing its image at the image's own size, a table of contents
//! (`toc.ncx` and `nav.xhtml`) with one entry per chapter, labelled with
//! the chapter's title and pointing at its first page, and the spine in
//! the reading direction's page progression. The first page is the cover.
//! Every text is written here, XML-escaped where it carries the caller's
//! words; the archive is `mimetype` first, everything stored.

use crate::archive::cbz::{distinct_names, listing, named_views, names_fit, sizes_fit, utf8_len, write_zip, zip_read};
use crate::ebook::cbz_out::total_pages;
use crate::ebook::pdf::{
    all_decode, book_page_images, decoded_pages, lemma_page_positions_len, lemma_position_in_range, page_bytes,
    page_positions, pdf_page_order,
};
use crate::ebook::{chapter_view, chapter_views, page_view, Chapter, ChapterView, Page};
use crate::error::Error;
use crate::gray::GrayImage;
use crate::manga::ReadingDirection;
use crate::text::{
    append_chars, chars_of, clone_bytes, decimal_chars, decimal_text, pad_left, pad_left_chars, str_eq,
    string_from_chars,
};
use vstd::prelude::*;

verus! {

pub struct EpubOptions {
    pub title: String,
    pub author: String,
    pub language: String,
    pub reading_direction: ReadingDirection,
}

/// The options as plain values.
pub struct EpubView {
    pub title: Seq<char>,
    pub author: Seq<char>,
    pub language: Seq<char>,
    pub right_to_left: bool,
}

pub open spec fn epub_view(o: EpubOptions) -> EpubView {
    EpubView {
        title: o.title@,
        author: o.author@,
        language: o.language@,
        right_to_left: o.reading_direction.right_to_left,
    }
}

/// The `mimetype` file's text.
pub const MIMETYPE: &'static str = "application/epub+zip";

/// `META-INF/container.xml`: where the package document is.
pub const CONTAINER_XML: &'static str = "<?xml version=\"1.0\" encoding=\"UTF-8\"?>\n<container version=\"1.0\" xmlns=\"urn:oasis:names:tc:opendocument:xmlns:container\">\n<rootfiles>\n<rootfile full-path=\"OEBPS/content.opf\" media-type=\"application/oebps-package+xml\"/>\n</rootfiles>\n</container>\n";

pub const OPF_HEAD: &'static str = "<?xml version=\"1.0\" encoding=\"UTF-8\"?>\n<package xmlns=\"http://www.idpf.org/2007/opf\" version=\"3.0\" unique-identifier=\"bookid\" prefix=\"rendition: http://www.idpf.org/vocab/rendition/#\">\n<metadata xmlns:dc=\"http://purl.org/dc/elements/1.1/\">\n<dc:identifier id=\"bookid\">urn:mangapress:";
pub const OPF_TITLE: &'static str = "</dc:identifier>\n<dc:title>";
pub const OPF_CREATOR: &'static str = "</dc:title>\n<dc:creator>";
pub const OPF_LANGUAGE: &'static str = "</dc:creator>\n<dc:language>";
pub const OPF_MANIFEST: &'static str = "</dc:language>\n<meta property=\"dcterms:modified\">2000-01-01T00:00:00Z</meta>\n<meta property=\"rendition:layout\">pre-paginated</meta>\n<meta property=\"rendition:spread\">none</meta>\n<meta name=\"cover\" content=\"img0001\"/>\n</metadata>\n<manifest>\n<item id=\"ncx\" href=\"toc.ncx\" media-type=\"application/x-dtbncx+xml\"/>\n<item id=\"nav\" href=\"nav.xhtml\" media-type=\"application/xhtml+xml\" properties=\"nav\"/>\n";
pub const OPF_SPINE: &'static str = "</manifest>\n<spine toc=\"ncx\" page-progression-direction=\"";
pub const OPF_SPINE_ITEMS: &'static str = "\">\n";
pub const OPF_TAIL: &'static str = "</spine>\n</package>\n";

pub const NCX_HEAD: &'static str = "<?xml version=\"1.0\" encoding=\"UTF-8\"?>\n<ncx xmlns=\"http://www.daisy.org/z3986/2005/ncx/\" version=\"2005-1\">\n<head>\n<meta name=\"dtb:uid\" content=\"urn:mangapress:";
pub const NCX_TITLE: &'static str = "\"/>\n</head>\n<docTitle><text>";
pub const NCX_MAP: &'static str = "</text></docTitle>\n<navMap>\n";
pub const NCX_TAIL: &'static str = "</navMap>\n</ncx>\n";

pub const NAV_HEAD: &'static str = "<?xml version=\"1.0\" encoding=\"UTF-8\"?>\n<!DOCTYPE html>\n<html xmlns=\"http://www.w3.org/1999/xhtml\" xmlns:epub=\"http://www.idpf.org/2007/ops\">\n<head>\n<title>";
pub const NAV_LIST: &'static str = "</title>\n</head>\n<body>\n<nav epub:type=\"toc\" id=\"toc\">\n<ol>\n";
pub const NAV_TAIL: &'static str = "</ol>\n</nav>\n</body>\n</html>\n";

pub const PAGE_HEAD: &'static str = "<?xml version=\"1.0\" encoding=\"UTF-8\"?>\n<!DOCTYPE html>\n<html xmlns=\"http://www.w3.org/1999/xhtml\">\n<head>\n<title>Page ";
pub const PAGE_VIEWPORT: &'static str = "</title>\n<meta name=\"viewport\" content=\"width=";
pub const PAGE_HEIGHT: &'static str = ", height=";
pub const PAGE_BODY: &'static str = "\"/>\n</head>\n<body style=\"margin:0\">\n<img src=\"../";
pub const PAGE_TAIL: &'static str = "\" alt=\"\" style=\"width:100%;height:100%\"/>\n</body>\n</html>\n";

/// Page number `n`, padded with zeros to four digits.
pub open spec fn num4(n: nat) -> Seq<char> {
    pad_left(decimal_text(n), 4, '0')
}

/// Where page `n`'s XHTML file lies, from `OEBPS/`.
pub open spec fn page_href(n: nat) -> Seq<char> {
    "Text/p"@ + num4(n) + ".xhtml"@
}

/// Where page `n`'s image lies, from `OEBPS/`.
pub open spec fn image_href(n: nat, ext: Seq<char>) -> Seq<char> {
    "Images/p"@ + num4(n) + "."@ + ext
}

/// The media type of a page image by its extension.
pub open spec fn media_type(ext: Seq<char>) -> Seq<char> {
    if ext == "png"@ {
        "image/png"@
    } else {
        "image/jpeg"@
    }
}

/// The extension of page `k` (counting from 0) of the book.
pub open spec fn page_ext(cs: Seq<ChapterView>, k: int) -> Seq<char> {
    cs[page_positions(cs)[k].0].pages[page_positions(cs)[k].1].0
}

/// The two manifest items of page `n`: its XHTML file and its image (the
/// first page's image is the cover).
pub open spec fn manifest_item(n: nat, ext: Seq<char>) -> Seq<char> {
    "<item id=\"page"@ + num4(n) + "\" href=\""@ + page_href(n) + "\" media-type=\"application/xhtml+xml\"/>\n"@
        + "<item id=\"img"@ + num4(n) + "\" href=\""@ + image_href(n, ext) + "\" media-type=\""@ + media_type(ext) + if n
        == 1 {
        "\" properties=\"cover-image\"/>\n"@
    } else {
        "\"/>\n"@
    }
}

/// The manifest items of the first `k` pages.
pub open spec fn manifest_items(cs: Seq<ChapterView>, k: int) -> Seq<char>
    decreases k,
{
    if k <= 0 {
        Seq::empty()
    } else {
        manifest_items(cs, k - 1) + manifest_item(k as nat, page_ext(cs, k - 1))
    }
}

/// The spine entries of the first `k` pages.
pub open spec fn spine_items(k: int) -> Seq<char>
    decreases k,
{
    if k <= 0 {
        Seq::empty()
    } else {
        spine_items(k - 1) + "<itemref idref=\"page"@ + num4(k as nat) + "\"/>\n"@
    }
}

/// The spine's page progression.
pub open spec fn progression(right_to_left: bool) -> Seq<char> {
    if right_to_left {
        "rtl"@
    } else {
        "ltr"@
    }
}

/// `OEBPS/content.opf`: the book's metadata, every file, and the reading
/// order.
pub open spec fn opf_text(cs: Seq<ChapterView>, o: EpubView) -> Seq<char> {
    OPF_HEAD@ + xml_escape(o.title) + OPF_TITLE@ + xml_escape(o.title) + OPF_CREATOR@ + xml_escape(o.author)
        + OPF_LANGUAGE@ + xml_escape(o.language) + OPF_MANIFEST@ + manifest_items(cs, total_pages(cs)) + OPF_SPINE@
        + progression(o.right_to_left) + OPF_SPINE_ITEMS@ + spine_items(total_pages(cs)) + OPF_TAIL@
}

/// The number of chapters of `cs` that have pages.
pub open spec fn nonempty_chapters(cs: Seq<ChapterView>) -> int
    decreases cs.len(),
{
    if cs.len() == 0 {
        0
    } else {
        nonempty_chapters(cs.drop_last()) + if cs.last().pages.len() > 0 {
            1int
        } else {
            0int
        }
    }
}

/// The `toc.ncx` entry of the `m`-th chapter with pages, titled `title`,
/// whose first page is page `first`.
pub open spec fn nav_point(m: nat, first: nat, title: Seq<char>) -> Seq<char> {
    "<navPoint id=\"nav"@ + decimal_text(m) + "\" playOrder=\""@ + decimal_text(m) + "\"><navLabel><text>"@ + xml_escape(
        title,
    ) + "</text></navLabel><content src=\""@ + page_href(first) + "\"/></navPoint>\n"@
}

/// The `nav.xhtml` entry of a chapter titled `title` whose first page is
/// page `first`.
pub open spec fn nav_item(first: nat, title: Seq<char>) -> Seq<char> {
    "<li><a href=\""@ + page_href(first) + "\">"@ + xml_escape(title) + "</a></li>\n"@
}

/// The `toc.ncx` entries of the chapters of `cs` that have pages, in order.
pub open spec fn ncx_points(cs: Seq<ChapterView>) -> Seq<char>
    decreases cs.len(),
{
    if cs.len() == 0 {
        Seq::empty()
    } else {
        let prev = cs.drop_last();
        ncx_points(prev) + if cs.last().pages.len() == 0 {
            Seq::empty()
        } else {
            nav_point((nonempty_chapters(prev) + 1) as nat, (total_pages(prev) + 1) as nat, cs.last().title)
        }
    }
}

/// The `nav.xhtml` entries of the chapters of `cs` that have pages, in
/// order.
pub open spec fn nav_items(cs: Seq<ChapterView>) -> Seq<char>
    decreases cs.len(),
{
    if cs.len() == 0 {
        Seq::empty()
    } else {
        let prev = cs.drop_last();
        nav_items(prev) + if cs.last().pages.len() == 0 {
            Seq::empty()
        } else {
            nav_item((total_pages(prev) + 1) as nat, cs.last().title)
        }
    }
}

/// `OEBPS/toc.ncx`.
pub open spec fn ncx_text(cs: Seq<ChapterView>, o: EpubView) -> Seq<char> {
    NCX_HEAD@ + xml_escape(o.title) + NCX_TITLE@ + xml_escape(o.title) + NCX_MAP@ + ncx_points(cs) + NCX_TAIL@
}

/// `OEBPS/nav.xhtml`.
pub open spec fn nav_text(cs: Seq<ChapterView>, o: EpubView) -> Seq<char> {
    NAV_HEAD@ + xml_escape(o.title) + NAV_LIST@ + nav_items(cs) + NAV_TAIL@
}

/// Page `n`'s XHTML file: its image, `width x height` pixels, filling the
/// page.
pub open spec fn page_xhtml(n: nat, ext: Seq<char>, width: nat, height: nat) -> Seq<char> {
    PAGE_HEAD@ + decimal_text(n) + PAGE_VIEWPORT@ + decimal_text(width) + PAGE_HEIGHT@ + decimal_text(height)
        + PAGE_BODY@ + image_href(n, ext) + PAGE_TAIL@
}

/// The files of the first `k` pages: each page's XHTML file, then its
/// image, `dims` giving each image's width and height.
pub open spec fn page_entries(cs: Seq<ChapterView>, dims: Seq<(nat, nat)>, k: int) -> Seq<(Seq<char>, Seq<u8>)>
    decreases k,
{
    if k <= 0 {
        Seq::empty()
    } else {
        let ext = page_ext(cs, k - 1);
        page_entries(cs, dims, k - 1) + seq![
            ("OEBPS/"@ + page_href(k as nat), vstd::utf8::encode_utf8(page_xhtml(k as nat, ext, dims[k - 1].0, dims[k - 1].1))),
            ("OEBPS/"@ + image_href(k as nat, ext), page_bytes(cs, page_positions(cs)[k - 1])),
        ]
    }
}

/// The EPUB's files, in archive order: `mimetype` first, the container,
/// the package document, the two tables of contents, then every page.
pub open spec fn epub_entry_list(cs: Seq<ChapterView>, dims: Seq<(nat, nat)>, o: EpubView) -> Seq<(Seq<char>, Seq<u8>)> {
    seq![
        ("mimetype"@, vstd::utf8::encode_utf8(MIMETYPE@)),
        ("META-INF/container.xml"@, vstd::utf8::encode_utf8(CONTAINER_XML@)),
        ("OEBPS/content.opf"@, vstd::utf8::encode_utf8(opf_text(cs, o))),
        ("OEBPS/toc.ncx"@, vstd::utf8::encode_utf8(ncx_text(cs, o))),
        ("OEBPS/nav.xhtml"@, vstd::utf8::encode_utf8(nav_text(cs, o))),
    ] + page_entries(cs, dims, total_pages(cs))
}

/// The names of the files of the first `k` pages.
pub open spec fn page_names(cs: Seq<ChapterView>, k: int) -> Seq<Seq<char>>
    decreases k,
{
    if k <= 0 {
        Seq::empty()
    } else {
        page_names(cs, k - 1) + seq!["OEBPS/"@ + page_href(k as nat), "OEBPS/"@ + image_href(k as nat, page_ext(cs, k - 1))]
    }
}

/// The names of the EPUB's files, in archive order.
pub open spec fn epub_names(cs: Seq<ChapterView>) -> Seq<Seq<char>> {
    seq!["mimetype"@, "META-INF/container.xml"@, "OEBPS/content.opf"@, "OEBPS/toc.ncx"@, "OEBPS/nav.xhtml"@] + page_names(
        cs,
        total_pages(cs),
    )
}

/// The width and height of each page's decoded image, in page order.
pub open spec fn page_dims(cs: Seq<ChapterView>) -> Seq<(nat, nat)> {
    decoded_pages(cs).map_values(|g: crate::gray::GrayView| (g.width, g.height))
}

/// A character written into XML text or an attribute value.
pub open spec fn escape_char(c: char) -> Seq<char> {
    if c == '&' {
        "&amp;"@
    } else if c == '<' {
        "&lt;"@
    } else if c == '>' {
        "&gt;"@
    } else if c == '"' {
        "&quot;"@
    } else if c == '\'' {
        "&apos;"@
    } else {
        seq![c]
    }
}

/// Text written into XML, each of `&`, `<`, `>`, `"` and `'` replaced by
/// its entity.
pub open spec fn xml_escape(s: Seq<char>) -> Seq<char>
    decreases s.len(),
{
    if s.len() == 0 {
        Seq::empty()
    } else {
        xml_escape(s.drop_last()) + escape_char(s.last())
    }
}

/// Appends `s` to `buf`.
fn push_text(buf: &mut Vec<char>, s: &str)
    ensures
        final(buf)@ == old(buf)@ + s@,
{
    let cs = chars_of(s);
    append_chars(buf, cs.as_slice());
}

/// Appends `s`, XML-escaped, to `buf`.
fn push_escaped(buf: &mut Vec<char>, s: &str)
    ensures
        final(buf)@ == old(buf)@ + xml_escape(s@),
{
    let cs = chars_of(s);
    let n = cs.len();
    let ghost start = buf@;
    for i in 0..n
        invariant
            n == cs@.len(),
            cs@ == s@,
            buf@ == start + xml_escape(cs@.take(i as int)),
    {
        let c = cs[i];
        let ghost before = buf@;
        if c == '&' {
            push_text(buf, "&amp;");
        } else if c == '<' {
            push_text(buf, "&lt;");
        } else if c == '>' {
            push_text(buf, "&gt;");
        } else if c == '"' {
            push_text(buf, "&quot;");
        } else if c == '\'' {
            push_text(buf, "&apos;");
        } else {
            buf.push(c);
            assert(buf@ =~= before + seq![c]);
        }
        assert(cs@.take(i + 1).drop_last() =~= cs@.take(i as int));
        assert(buf@ =~= start + xml_escape(cs@.take(i as int)) + escape_char(c));
    }
    assert(cs@.take(n as int) =~= cs@);
}

fn push_decimal(buf: &mut Vec<char>, n: u64)
    ensures
        final(buf)@ == old(buf)@ + decimal_text(n as nat),
{
    let d = decimal_chars(n);
    append_chars(buf, d.as_slice());
}

fn push_num4(buf: &mut Vec<char>, n: u64)
    ensures
        final(buf)@ == old(buf)@ + num4(n as nat),
{
    let d = decimal_chars(n);
    let p = pad_left_chars(d, 4, '0');
    append_chars(buf, p.as_slice());
}

fn push_page_href(buf: &mut Vec<char>, n: u64)
    ensures
        final(buf)@ == old(buf)@ + page_href(n as nat),
{
    let ghost start = buf@;
    push_text(buf, "Text/p");
    push_num4(buf, n);
    push_text(buf, ".xhtml");
    assert(buf@ =~= start + page_href(n as nat));
}

fn push_image_href(buf: &mut Vec<char>, n: u64, ext: &str)
    ensures
        final(buf)@ == old(buf)@ + image_href(n as nat, ext@),
{
    let ghost start = buf@;
    push_text(buf, "Images/p");
    push_num4(buf, n);
    push_text(buf, ".");
    push_text(buf, ext);
    assert(buf@ =~= start + image_href(n as nat, ext@));
}

/// The UTF-8 encoding of `chars`.
fn utf8_bytes(chars: &Vec<char>) -> (b: Vec<u8>)
    ensures
        b@ == vstd::utf8::encode_utf8(chars@),
{
    let s = string_from_chars(chars.as_slice());
    let bytes = s.as_str().as_bytes();
    clone_bytes(bytes)
}

/// `order` lists the positions of the pages of `cs`, in order.
pub open spec fn lists_positions(order: Seq<(usize, usize)>, cs: Seq<ChapterView>) -> bool {
    order.map_values(|p: (usize, usize)| (p.0 as int, p.1 as int)) == page_positions(cs)
}

/// Page `k` of the book.
fn page_at<'a>(chapters: &'a [Chapter], order: &Vec<(usize, usize)>, k: usize) -> (p: &'a Page)
    requires
        lists_positions(order@, chapter_views(chapters@)),
        k < order@.len(),
    ensures
        p.extension@ == page_ext(chapter_views(chapters@), k as int),
        p.bytes@ == page_bytes(chapter_views(chapters@), page_positions(chapter_views(chapters@))[k as int]),
{
    let ghost cs = chapter_views(chapters@);
    assert(order@.map_values(|p: (usize, usize)| (p.0 as int, p.1 as int)).len() == order@.len());
    let (ci, pi) = order[k];
    assert(order@.map_values(|p: (usize, usize)| (p.0 as int, p.1 as int))[k as int] == (ci as int, pi as int));
    proof {
        lemma_position_in_range(cs, k as int);
    }
    assert(cs[ci as int] == chapter_view(chapters@[ci as int]));
    assert(cs[ci as int].pages[pi as int] == page_view(chapters@[ci as int].pages@[pi as int]));
    &chapters[ci].pages[pi]
}

fn push_manifest_item(t: &mut Vec<char>, num: u64, ext: &str)
    ensures
        final(t)@ == old(t)@ + manifest_item(num as nat, ext@),
{
    let ghost before = t@;
    push_text(t, "<item id=\"page");
    push_num4(t, num);
    push_text(t, "\" href=\"");
    push_page_href(t, num);
    push_text(t, "\" media-type=\"application/xhtml+xml\"/>\n");
    push_text(t, "<item id=\"img");
    push_num4(t, num);
    push_text(t, "\" href=\"");
    push_image_href(t, num, ext);
    push_text(t, "\" media-type=\"");
    if str_eq(ext, "png") {
        push_text(t, "image/png");
    } else {
        push_text(t, "image/jpeg");
    }
    if num == 1 {
        push_text(t, "\" properties=\"cover-image\"/>\n");
    } else {
        push_text(t, "\"/>\n");
    }
    assert(t@ =~= before + manifest_item(num as nat, ext@));
}

fn opf_file(chapters: &[Chapter], order: &Vec<(usize, usize)>, options: &EpubOptions) -> (t: Vec<char>)
    requires
        lists_positions(order@, chapter_views(chapters@)),
        order@.len() == total_pages(chapter_views(chapters@)),
        order@.len() < u64::MAX,
    ensures
        t@ == opf_text(chapter_views(chapters@), epub_view(*options)),
{
    let ghost cs = chapter_views(chapters@);
    let ghost o = epub_view(*options);
    let mut t: Vec<char> = Vec::new();
    push_text(&mut t, OPF_HEAD);
    push_escaped(&mut t, options.title.as_str());
    push_text(&mut t, OPF_TITLE);
    push_escaped(&mut t, options.title.as_str());
    push_text(&mut t, OPF_CREATOR);
    push_escaped(&mut t, options.author.as_str());
    push_text(&mut t, OPF_LANGUAGE);
    push_escaped(&mut t, options.language.as_str());
    push_text(&mut t, OPF_MANIFEST);
    let ghost head = t@;
    let n = order.len();
    for k in 0..n
        invariant
            n == order@.len(),
            n < u64::MAX,
            lists_positions(order@, cs),
            cs == chapter_views(chapters@),
            t@ == head + manifest_items(cs, k as int),
    {
        let page = page_at(chapters, order, k);
        let num = (k + 1) as u64;
        push_manifest_item(&mut t, num, page.extension.as_str());
    }
    push_text(&mut t, OPF_SPINE);
    push_text(&mut t, options.reading_direction.epub_page_progression());
    push_text(&mut t, OPF_SPINE_ITEMS);
    let ghost mid = t@;
    for k in 0..n
        invariant
            n < u64::MAX,
            t@ == mid + spine_items(k as int),
    {
        let num = (k + 1) as u64;
        let ghost before = t@;
        push_text(&mut t, "<itemref idref=\"page");
        push_num4(&mut t, num);
        push_text(&mut t, "\"/>\n");
        assert(t@ =~= before + "<itemref idref=\"page"@ + num4(num as nat) + "\"/>\n"@);
    }
    push_text(&mut t, OPF_TAIL);
    assert(t@ =~= opf_text(cs, o));
    t
}

proof fn lemma_total_pages_nonneg(cs: Seq<ChapterView>)
    ensures
        total_pages(cs) >= 0,
    decreases cs.len(),
{
    if cs.len() > 0 {
        lemma_total_pages_nonneg(cs.drop_last());
    }
}

/// The pages of the first `i` chapters are at most all pages.
proof fn lemma_total_pages_take(cs: Seq<ChapterView>, i: int)
    requires
        0 <= i <= cs.len(),
    ensures
        0 <= total_pages(cs.take(i)) <= total_pages(cs),
    decreases cs.len() - i,
{
    lemma_total_pages_nonneg(cs.take(i));
    if i == cs.len() {
        assert(cs.take(i) =~= cs);
    } else {
        lemma_total_pages_take(cs, i + 1);
        assert(cs.take(i + 1).drop_last() =~= cs.take(i));
    }
}

fn push_nav_point(t: &mut Vec<char>, m: u64, first: u64, title: &str)
    ensures
        final(t)@ == old(t)@ + nav_point(m as nat, first as nat, title@),
{
    let ghost before = t@;
    push_text(t, "<navPoint id=\"nav");
    push_decimal(t, m);
    push_text(t, "\" playOrder=\"");
    push_decimal(t, m);
    push_text(t, "\"><navLabel><text>");
    push_escaped(t, title);
    push_text(t, "</text></navLabel><content src=\"");
    push_page_href(t, first);
    push_text(t, "\"/></navPoint>\n");
    assert(t@ =~= before + nav_point(m as nat, first as nat, title@));
}

fn push_nav_item(t: &mut Vec<char>, first: u64, title: &str)
    ensures
        final(t)@ == old(t)@ + nav_item(first as nat, title@),
{
    let ghost before = t@;
    push_text(t, "<li><a href=\"");
    push_page_href(t, first);
    push_text(t, "\">");
    push_escaped(t, title);
    push_text(t, "</a></li>\n");
    assert(t@ =~= before + nav_item(first as nat, title@));
}

/// `toc.ncx` and `nav.xhtml`.
fn toc_files(chapters: &[Chapter], options: &EpubOptions) -> (r: (Vec<char>, Vec<char>))
    requires
        total_pages(chapter_views(chapters@)) < u64::MAX,
    ensures
        r.0@ == ncx_text(chapter_views(chapters@), epub_view(*options)),
        r.1@ == nav_text(chapter_views(chapters@), epub_view(*options)),
{
    let ghost cs = chapter_views(chapters@);
    let ghost o = epub_view(*options);
    let mut ncx: Vec<char> = Vec::new();
    push_text(&mut ncx, NCX_HEAD);
    push_escaped(&mut ncx, options.title.as_str());
    push_text(&mut ncx, NCX_TITLE);
    push_escaped(&mut ncx, options.title.as_str());
    push_text(&mut ncx, NCX_MAP);
    let mut nav: Vec<char> = Vec::new();
    push_text(&mut nav, NAV_HEAD);
    push_escaped(&mut nav, options.title.as_str());
    push_text(&mut nav, NAV_LIST);
    let ghost ncx_head = ncx@;
    let ghost nav_head = nav@;
    let mut before: u64 = 0;
    let mut points: u64 = 0;
    let nc = chapters.len();
    assert(cs.take(0) =~= Seq::<ChapterView>::empty());
    for ci in 0..nc
        invariant
            nc == chapters@.len(),
            cs == chapter_views(chapters@),
            total_pages(cs) < u64::MAX,
            ncx@ == ncx_head + ncx_points(cs.take(ci as int)),
            nav@ == nav_head + nav_items(cs.take(ci as int)),
            before == total_pages(cs.take(ci as int)),
            points == nonempty_chapters(cs.take(ci as int)),
            points <= ci,
    {
        let chapter = &chapters[ci];
        assert(cs[ci as int] == chapter_view(*chapter));
        let np = chapter.pages.len();
        proof {
            lemma_total_pages_take(cs, ci + 1);
            assert(cs.take(ci + 1).drop_last() =~= cs.take(ci as int));
            assert(cs.take(ci + 1).last() == cs[ci as int]);
        }
        if np > 0 {
            push_nav_point(&mut ncx, points + 1, before + 1, chapter.title.as_str());
            push_nav_item(&mut nav, before + 1, chapter.title.as_str());
            points = points + 1;
        }
        before = before + np as u64;
    }
    assert(cs.take(nc as int) =~= cs);
    push_text(&mut ncx, NCX_TAIL);
    push_text(&mut nav, NAV_TAIL);
    (ncx, nav)
}

fn page_file(num: u64, ext: &str, width: u32, height: u32) -> (t: Vec<char>)
    ensures
        t@ == page_xhtml(num as nat, ext@, width as nat, height as nat),
{
    let mut t: Vec<char> = Vec::new();
    push_text(&mut t, PAGE_HEAD);
    push_decimal(&mut t, num);
    push_text(&mut t, PAGE_VIEWPORT);
    push_decimal(&mut t, width as u64);
    push_text(&mut t, PAGE_HEIGHT);
    push_decimal(&mut t, height as u64);
    push_text(&mut t, PAGE_BODY);
    push_image_href(&mut t, num, ext);
    push_text(&mut t, PAGE_TAIL);
    assert(t@ =~= page_xhtml(num as nat, ext@, width as nat, height as nat));
    t
}

fn named_entry(name: &Vec<char>, text: &Vec<char>) -> (e: (String, Vec<u8>))
    ensures
        e.0@ == name@,
        e.1@ == vstd::utf8::encode_utf8(text@),
{
    (string_from_chars(name.as_slice()), utf8_bytes(text))
}

fn literal_entry(name: &str, text: &str) -> (e: (String, Vec<u8>))
    ensures
        e.0@ == name@,
        e.1@ == vstd::utf8::encode_utf8(text@),
{
    let n = chars_of(name);
    let t = chars_of(text);
    named_entry(&n, &t)
}

/// The names of the files of the first `k` pages are those of their
/// entries.
proof fn lemma_page_entry_names(cs: Seq<ChapterView>, dims: Seq<(nat, nat)>, k: int)
    requires
        k >= 0,
    ensures
        page_entries(cs, dims, k).len() == page_names(cs, k).len(),
        forall|i: int| 0 <= i < page_names(cs, k).len() ==> (#[trigger] page_entries(cs, dims, k)[i]).0 == page_names(cs, k)[i],
    decreases k,
{
    if k > 0 {
        lemma_page_entry_names(cs, dims, k - 1);
    }
}

/// The EPUB's files as named byte blobs (see [`epub_entry_list`]).
fn epub_entries(chapters: &[Chapter], options: &EpubOptions, order: &Vec<(usize, usize)>, images: &Vec<GrayImage>) -> (entries: Vec<(String, Vec<u8>)>)
    requires
        lists_positions(order@, chapter_views(chapters@)),
        order@.len() == total_pages(chapter_views(chapters@)),
        order@.len() == images@.len(),
        order@.len() < usize::MAX,
        images@.map_values(|g: GrayImage| g@) == decoded_pages(chapter_views(chapters@)),
    ensures
        named_views(entries@) == epub_entry_list(chapter_views(chapters@), page_dims(chapter_views(chapters@)), epub_view(*options)),
{
    let ghost cs = chapter_views(chapters@);
    let ghost o = epub_view(*options);
    let ghost dims = page_dims(cs);
    let opf = opf_file(chapters, order, options);
    let (ncx, nav) = toc_files(chapters, options);
    let mut entries: Vec<(String, Vec<u8>)> = Vec::new();
    entries.push(literal_entry("mimetype", MIMETYPE));
    entries.push(literal_entry("META-INF/container.xml", CONTAINER_XML));
    let opf_name = chars_of("OEBPS/content.opf");
    entries.push(named_entry(&opf_name, &opf));
    let ncx_name = chars_of("OEBPS/toc.ncx");
    entries.push(named_entry(&ncx_name, &ncx));
    let nav_name = chars_of("OEBPS/nav.xhtml");
    entries.push(named_entry(&nav_name, &nav));
    let ghost head = named_views(entries@);
    assert(head =~= epub_entry_list(cs, dims, o).take(5));
    push_page_entries(&mut entries, chapters, order, images);
    assert(named_views(entries@) =~= epub_entry_list(cs, dims, o));
    entries
}

/// Appends the files of every page: its XHTML file, then its image.
fn push_page_entries(entries: &mut Vec<(String, Vec<u8>)>, chapters: &[Chapter], order: &Vec<(usize, usize)>, images: &Vec<GrayImage>)
    requires
        lists_positions(order@, chapter_views(chapters@)),
        order@.len() == images@.len(),
        order@.len() < usize::MAX,
        images@.map_values(|g: GrayImage| g@) == decoded_pages(chapter_views(chapters@)),
    ensures
        named_views(final(entries)@) == named_views(old(entries)@) + page_entries(
            chapter_views(chapters@),
            page_dims(chapter_views(chapters@)),
            order@.len() as int,
        ),
{
    let ghost cs = chapter_views(chapters@);
    let ghost dims = page_dims(cs);
    let ghost head = named_views(entries@);
    let n = order.len();
    assert(images@.map_values(|g: GrayImage| g@).len() == images@.len());
    for k in 0..n
        invariant
            n == order@.len(),
            n == images@.len(),
            n < usize::MAX,
            cs == chapter_views(chapters@),
            dims == page_dims(cs),
            lists_positions(order@, cs),
            images@.map_values(|g: GrayImage| g@) == decoded_pages(cs),
            named_views(entries@) == head + page_entries(cs, dims, k as int),
    {
        let page = page_at(chapters, order, k);
        let num = (k + 1) as u64;
        let (w, h) = images[k].dimensions();
        assert(images@.map_values(|g: GrayImage| g@)[k as int] == images@[k as int]@);
        assert(dims[k as int] == (w as nat, h as nat));
        let text = page_file(num, page.extension.as_str(), w, h);
        let mut name: Vec<char> = Vec::new();
        push_text(&mut name, "OEBPS/");
        push_page_href(&mut name, num);
        let mut image_name: Vec<char> = Vec::new();
        push_text(&mut image_name, "OEBPS/");
        push_image_href(&mut image_name, num, page.extension.as_str());
        let ghost before = named_views(entries@);
        let first = named_entry(&name, &text);
        let ghost v1 = (first.0@, first.1@);
        entries.push(first);
        let second = (string_from_chars(image_name.as_slice()), clone_bytes(page.bytes.as_slice()));
        let ghost v2 = (second.0@, second.1@);
        entries.push(second);
        assert(named_views(entries@) =~= before.push(v1).push(v2));
        assert(page_entries(cs, dims, k + 1) =~= page_entries(cs, dims, k as int).push(v1).push(v2));
    }
}

/// Every name of the EPUB fits a ZIP header's 16-bit name length.
pub open spec fn epub_names_fit(cs: Seq<ChapterView>) -> bool {
    forall|i: int| 0 <= i < epub_names(cs).len() ==> utf8_len(#[trigger] epub_names(cs)[i]) <= u16::MAX
}

/// The EPUB of a book: the files of [`epub_entry_list`], `mimetype`
/// first, everything stored; reading the archive back lists exactly those
/// files, in that order, with their bytes. Each page is decoded for its
/// width and height. A book without pages is refused with
/// [`Error::EmptyBook`]; otherwise a page that does not decode is refused
/// with [`Error::Image`]. A book whose pages all decode is built whenever
/// no two files share a name and none passes 4 GiB. Each file name must
/// fit a ZIP header's 16-bit name length.
pub fn build_epub(chapters: &[Chapter], options: &EpubOptions) -> (r: Result<Vec<u8>, Error>)
    requires
        epub_names_fit(chapter_views(chapters@)),
        total_pages(chapter_views(chapters@)) < usize::MAX,
    ensures
        (r matches Err(Error::EmptyBook)) <==> total_pages(chapter_views(chapters@)) == 0,
        (r matches Err(Error::Image(_))) <==> (total_pages(chapter_views(chapters@)) > 0 && !all_decode(
            chapter_views(chapters@),
        )),
        r matches Ok(b) ==> zip_read(b@) == Some(
            listing(epub_entry_list(chapter_views(chapters@), page_dims(chapter_views(chapters@)), epub_view(*options))),
        ),
        (total_pages(chapter_views(chapters@)) > 0 && all_decode(chapter_views(chapters@)) && distinct_names(
            epub_entry_list(chapter_views(chapters@), page_dims(chapter_views(chapters@)), epub_view(*options)),
        ) && sizes_fit(epub_entry_list(chapter_views(chapters@), page_dims(chapter_views(chapters@)), epub_view(*options))))
            ==> r is Ok,
        r matches Err(e) ==> (e is EmptyBook || e is Image || e is Archive || e is Io),
{
    let ghost cs = chapter_views(chapters@);
    let ghost o = epub_view(*options);
    let ghost dims = page_dims(cs);
    proof {
        lemma_total_pages_nonneg(cs);
    }
    let images = match book_page_images(chapters) {
        Ok(v) => v,
        Err(e) => return Err(e),
    };
    let order = match pdf_page_order(chapters) {
        Ok(v) => v,
        Err(e) => return Err(e),
    };
    proof {
        lemma_page_positions_len(cs);
        assert(order@.map_values(|p: (usize, usize)| (p.0 as int, p.1 as int)).len() == order@.len());
        assert(images@.map_values(|g: GrayImage| g@).len() == images@.len());
    }
    let entries = epub_entries(chapters, options, &order, &images);
    let ghost list = epub_entry_list(cs, dims, o);
    proof {
        lemma_page_entry_names(cs, dims, total_pages(cs));
        assert forall|i: int| 0 <= i < list.len() implies utf8_len((#[trigger] list[i]).0) <= u16::MAX by {
            assert(list[i].0 == epub_names(cs)[i]);
        }
    }
    write_zip(&entries, true)
}

} // verus!
