//! `ComicInfo.xml` reading and the book's title and author resolution.
//!
//! Fields of [`ComicInfo`] are `None` (or empty) when the element is
//! absent. People lists are split on `", "`, trimmed, and kept sorted and
//! free of duplicates.

use crate::archive::{entry_view, entry_views, SourceEntry};
use crate::natural_sort::{compare_text, lemma_text_order, text_order};
use crate::paths::{components, path_components};
use crate::error::Error;
use crate::natural_sort::{decimal, is_digit};
use crate::text::{append_chars, chars_eq, chars_of, pad_left, pad_left_chars, split_comma_space, split_pieces, string_from_chars, trim_str, trimmed};
use vstd::prelude::*;

verus! {

/// Parsed `ComicInfo.xml` contents.
pub struct ComicInfo {
    pub series: Option<String>,
    /// Kept as text: it is only ever zero-padded, never computed with.
    pub volume: Option<String>,
    pub number: Option<String>,
    pub title: Option<String>,
    pub summary: Option<String>,
    pub writers: Vec<String>,
    pub pencillers: Vec<String>,
    pub inkers: Vec<String>,
    pub colorists: Vec<String>,
    /// `(page index, bookmark name)` of every page that has both.
    pub bookmarks: Vec<(u32, String)>,
}

impl ComicInfo {
    /// A `ComicInfo` with every field absent.
    pub fn empty() -> (c: ComicInfo)
        ensures
            c.series is None && c.volume is None && c.number is None,
            c.title is None && c.summary is None,
            c.writers@.len() == 0 && c.pencillers@.len() == 0,
            c.inkers@.len() == 0 && c.colorists@.len() == 0,
            c.bookmarks@.len() == 0,
    {
        ComicInfo {
            series: None,
            volume: None,
            number: None,
            title: None,
            summary: None,
            writers: Vec::new(),
            pencillers: Vec::new(),
            inkers: Vec::new(),
            colorists: Vec::new(),
            bookmarks: Vec::new(),
        }
    }
}

/// How the title is built from `ComicInfo.xml`.
#[derive(Debug, Clone, Copy, PartialEq, Eq, Structural)]
pub enum MetadataTitleMode {
    /// Series, volume and number only, never the `Title` element.
    SeriesOnly,
    /// Series, volume and number, then `: Title`.
    Combine,
    /// The `Title` element alone, even over a title the user gave.
    TitleOnly,
}

impl Default for MetadataTitleMode {
    fn default() -> (m: MetadataTitleMode)
        ensures
            m == MetadataTitleMode::SeriesOnly,
    {
        MetadataTitleMode::SeriesOnly
    }
}

pub struct ResolvedMetadata {
    pub title: String,
    pub authors: Vec<String>,
    pub summary: Option<String>,
}

pub open spec fn str_views(v: Seq<String>) -> Seq<Seq<char>> {
    v.map_values(|s: String| s@)
}

pub open spec fn opt_view(o: Option<String>) -> Option<Seq<char>> {
    match o {
        Some(s) => Some(s@),
        None => None,
    }
}

/// Every string comes strictly before the ones after it.
pub open spec fn strictly_sorted(s: Seq<Seq<char>>) -> bool {
    forall|i: int, j: int| 0 <= i < j < s.len() ==> text_order(#[trigger] s[i], #[trigger] s[j]) < 0
}

/// `r` holds exactly the strings of `src`, each once, in character-code
/// order.
pub open spec fn sorted_set_of(r: Seq<Seq<char>>, src: Seq<Seq<char>>) -> bool {
    &&& strictly_sorted(r)
    &&& forall|x: Seq<char>| r.contains(x) <==> src.contains(x)
}

fn copy_string(s: &String) -> (r: String)
    ensures
        r@ == s@,
{
    s.clone()
}

fn copy_opt_string(o: &Option<String>) -> (r: Option<String>)
    ensures
        opt_view(r) == opt_view(*o),
{
    match o {
        Some(s) => Some(copy_string(s)),
        None => None,
    }
}

proof fn lemma_push_contains<A>(t: Seq<A>, e: A, x: A)
    ensures
        t.push(e).contains(x) <==> (t.contains(x) || x == e),
{
    if t.contains(x) {
        let q = choose|q: int| 0 <= q < t.len() && t[q] == x;
        assert(t.push(e)[q] == x);
    }
    if x == e {
        assert(t.push(e)[t.len() as int] == x);
    }
    if t.push(e).contains(x) {
        let q = choose|q: int| 0 <= q < t.len() + 1 && t.push(e)[q] == x;
        if q < t.len() {
            assert(t[q] == x);
        }
    }
}

proof fn lemma_insert_contains<A>(t: Seq<A>, k: int, e: A, x: A)
    requires
        0 <= k <= t.len(),
    ensures
        t.insert(k, e).contains(x) <==> (t.contains(x) || x == e),
{
    let u = t.insert(k, e);
    if t.contains(x) {
        let q = choose|q: int| 0 <= q < t.len() && t[q] == x;
        if q < k {
            assert(u[q] == x);
        } else {
            assert(u[q + 1] == x);
        }
    }
    if x == e {
        assert(u[k] == x);
    }
    if u.contains(x) {
        let q = choose|q: int| 0 <= q < u.len() && u[q] == x;
        if q < k {
            assert(t[q] == x);
        } else if q > k {
            assert(t[q - 1] == x);
        }
    }
}

/// Adds every string of `src` to the sorted, duplicate-free `out`.
fn insert_all_sorted(out: &mut Vec<String>, src: &Vec<String>)
    requires
        strictly_sorted(str_views(old(out)@)),
    ensures
        strictly_sorted(str_views(final(out)@)),
        forall|x: Seq<char>| #[trigger] str_views(final(out)@).contains(x) <==> (str_views(old(out)@).contains(x) || str_views(src@).contains(x)),
{
    let ghost start = str_views(out@);
    let ghost sv = str_views(src@);
    let n = src.len();
    for i in 0..n
        invariant
            n == src@.len(),
            sv == str_views(src@),
            strictly_sorted(str_views(out@)),
            forall|x: Seq<char>| #[trigger] str_views(out@).contains(x) <==> (start.contains(x) || sv.take(i as int).contains(x)),
    {
        let ghost headv = str_views(out@);
        assert(forall|x: Seq<char>| #[trigger] headv.contains(x) <==> (start.contains(x) || sv.take(i as int).contains(x)));
        let s = &src[i];
        assert(sv[i as int] == s@);
        let cs = chars_of(s.as_str());
        let ghost ov = str_views(out@);
        let mut k: usize = 0;
        let mut found = false;
        while k < out.len()
            invariant_except_break
                !found,
                ov == str_views(out@),
                k <= out@.len(),
                cs@ == s@,
                forall|j: int| 0 <= j < k ==> text_order(#[trigger] ov[j], s@) < 0,
            ensures
                ov == str_views(out@),
                k <= out@.len(),
                forall|j: int| 0 <= j < k ==> text_order(#[trigger] ov[j], s@) < 0,
                k < out@.len() ==> text_order(ov[k as int], s@) >= 0,
                found ==> k < out@.len() && ov[k as int] == s@,
                !found && k < out@.len() ==> text_order(ov[k as int], s@) > 0,
            decreases out@.len() - k,
        {
            let ck = chars_of(out[k].as_str());
            assert(ov[k as int] == out@[k as int]@);
            let d = compare_text(&ck, &cs);
            if d >= 0 {
                proof {
                    lemma_text_order(ck@, cs@, cs@);
                }
                if d == 0 {
                    found = true;
                }
                break;
            }
            k = k + 1;
        }
        if !found {
            let ghost before = str_views(out@);
            let c = copy_string(s);
            out.insert(k, c);
            proof {
                assert(str_views(out@) =~= before.insert(k as int, s@));
                let nv = str_views(out@);
                assert forall|a: int, b: int| 0 <= a < b < nv.len() implies text_order(#[trigger] nv[a], #[trigger] nv[b]) < 0 by {
                    if b < k {
                        assert(nv[a] == before[a] && nv[b] == before[b]);
                    } else if b == k {
                        assert(nv[a] == before[a]);
                    } else if a == k {
                        assert(nv[b] == before[b - 1]);
                        lemma_text_order(before[k as int], s@, s@);
                        if b - 1 > k {
                            lemma_text_order(s@, before[k as int], before[b - 1]);
                        }
                    } else if a < k {
                        assert(nv[a] == before[a] && nv[b] == before[b - 1]);
                    } else {
                        assert(nv[a] == before[a - 1] && nv[b] == before[b - 1]);
                    }
                }
                assert forall|x: Seq<char>| nv.contains(x) <==> (start.contains(x) || sv.take(i + 1).contains(x)) by {
                    assert(sv.take(i + 1) =~= sv.take(i as int).push(s@));
                    lemma_push_contains(sv.take(i as int), s@, x);
                    lemma_insert_contains(before, k as int, s@, x);
                    assert(before == headv);
                    assert(headv.contains(x) <==> (start.contains(x) || sv.take(i as int).contains(x)));
                }
            }
        } else {
            proof {
                assert forall|x: Seq<char>| str_views(out@).contains(x) <==> (start.contains(x) || sv.take(i + 1).contains(x)) by {
                    assert(sv.take(i + 1) =~= sv.take(i as int).push(s@));
                    lemma_push_contains(sv.take(i as int), s@, x);
                    assert(str_views(out@) == headv);
                    assert(headv.contains(x) <==> (start.contains(x) || sv.take(i as int).contains(x)));
                    if x == s@ {
                        assert(ov[k as int] == x);
                    }
                }
            }
        }
    }
    assert(sv.take(n as int) =~= sv);
}

/// The title built from series, volume and number (and, when combining,
/// the `Title` element): `Series Vol. 01 #001: Title`, each part only when
/// present, starting from `fallback` when there is no series.
pub open spec fn series_title(info: ComicInfo, fallback: Seq<char>, mode: MetadataTitleMode) -> Seq<char> {
    let head = match opt_view(info.series) {
        Some(s) => s,
        None => fallback,
    };
    let vol = match opt_view(info.volume) {
        Some(v) => " Vol. "@ + pad_left(v, 2, '0'),
        None => Seq::empty(),
    };
    let num = match opt_view(info.number) {
        Some(n) => " #"@ + pad_left(n, 3, '0'),
        None => Seq::empty(),
    };
    let tail = match opt_view(info.title) {
        Some(t) => if mode == MetadataTitleMode::Combine { ": "@ + t } else { Seq::empty() },
        None => Seq::empty(),
    };
    head + vol + num + tail
}

/// The resolved title: in title-only mode the `Title` element wins over
/// everything; otherwise a title the user gave is kept, and without one the
/// series title is built; with no `ComicInfo.xml` the user's title or the
/// fallback.
pub open spec fn resolved_title(
    info: Option<ComicInfo>,
    user_title: Option<Seq<char>>,
    fallback: Seq<char>,
    mode: MetadataTitleMode,
) -> Seq<char> {
    let base = match user_title {
        Some(t) => t,
        None => fallback,
    };
    match info {
        None => base,
        Some(i) => if mode == MetadataTitleMode::TitleOnly {
            match opt_view(i.title) {
                Some(t) => t,
                None => base,
            }
        } else if user_title is None {
            series_title(i, fallback, mode)
        } else {
            base
        },
    }
}

/// Everyone credited in `info`: writers, pencillers, inkers and colorists.
pub open spec fn credited(info: ComicInfo) -> Seq<Seq<char>> {
    str_views(info.writers@) + str_views(info.pencillers@) + str_views(info.inkers@) + str_views(info.colorists@)
}

/// The resolved authors: the user's author alone when given; otherwise
/// everyone credited, each once, sorted; `Unknown` when that leaves nobody.
pub open spec fn authors_ok(authors: Seq<Seq<char>>, info: Option<ComicInfo>, user_author: Option<Seq<char>>) -> bool {
    match user_author {
        Some(a) => authors == seq![a],
        None => match info {
            Some(i) if credited(i).len() > 0 => sorted_set_of(authors, credited(i)),
            _ => authors == seq!["Unknown"@],
        },
    }
}

pub open spec fn opt_str(o: Option<&str>) -> Option<Seq<char>> {
    match o {
        Some(s) => Some(s@),
        None => None,
    }
}

pub open spec fn opt_info(o: Option<&ComicInfo>) -> Option<ComicInfo> {
    match o {
        Some(i) => Some(*i),
        None => None,
    }
}

proof fn lemma_add_contains<A>(a: Seq<A>, b: Seq<A>, x: A)
    ensures
        (a + b).contains(x) <==> (a.contains(x) || b.contains(x)),
{
    let u = a + b;
    if a.contains(x) {
        let q = choose|q: int| 0 <= q < a.len() && a[q] == x;
        assert(u[q] == x);
    }
    if b.contains(x) {
        let q = choose|q: int| 0 <= q < b.len() && b[q] == x;
        assert(u[a.len() + q] == x);
    }
    if u.contains(x) {
        let q = choose|q: int| 0 <= q < u.len() && u[q] == x;
        if q < a.len() {
            assert(a[q] == x);
        } else {
            assert(b[q - a.len()] == x);
        }
    }
}

fn unknown_author() -> (r: Vec<String>)
    ensures
        str_views(r@) == seq!["Unknown"@],
{
    let mut r: Vec<String> = Vec::new();
    r.push(String::from_str("Unknown"));
    assert(str_views(r@) =~= seq!["Unknown"@]);
    r
}

fn series_title_exec(info: &ComicInfo, fallback: &str, mode: MetadataTitleMode) -> (t: Vec<char>)
    ensures
        t@ == series_title(*info, fallback@, mode),
{
    let mut t = match &info.series {
        Some(s) => chars_of(s.as_str()),
        None => chars_of(fallback),
    };
    let ghost head = t@;
    let ghost vol: Seq<char> = Seq::empty();
    let ghost num: Seq<char> = Seq::empty();
    let ghost tail: Seq<char> = Seq::empty();
    match &info.volume {
        Some(v) => {
            let sep = chars_of(" Vol. ");
            append_chars(&mut t, sep.as_slice());
            let padded = pad_left_chars(chars_of(v.as_str()), 2, '0');
            append_chars(&mut t, padded.as_slice());
            proof {
                vol = " Vol. "@ + pad_left(v@, 2, '0');
            }
        },
        None => {},
    }
    assert(t@ =~= head + vol);
    match &info.number {
        Some(n) => {
            let sep = chars_of(" #");
            append_chars(&mut t, sep.as_slice());
            let padded = pad_left_chars(chars_of(n.as_str()), 3, '0');
            append_chars(&mut t, padded.as_slice());
            proof {
                num = " #"@ + pad_left(n@, 3, '0');
            }
        },
        None => {},
    }
    assert(t@ =~= head + vol + num);
    if mode == MetadataTitleMode::Combine {
        match &info.title {
            Some(x) => {
                let sep = chars_of(": ");
                append_chars(&mut t, sep.as_slice());
                let tc = chars_of(x.as_str());
                append_chars(&mut t, tc.as_slice());
                proof {
                    tail = ": "@ + x@;
                }
            },
            None => {},
        }
    }
    assert(t@ =~= head + vol + num + tail);
    t
}

/// The book's title, authors and summary from the user's choices and
/// `ComicInfo.xml` (see [`resolved_title`] and [`authors_ok`]).
/// `fallback_title` is used when neither gives a title.
pub fn resolve(
    info: Option<&ComicInfo>,
    user_title: Option<&str>,
    user_author: Option<&str>,
    fallback_title: &str,
    metadata_title_mode: MetadataTitleMode,
) -> (r: ResolvedMetadata)
    ensures
        r.title@ == resolved_title(opt_info(info), opt_str(user_title), fallback_title@, metadata_title_mode),
        authors_ok(str_views(r.authors@), opt_info(info), opt_str(user_author)),
        opt_view(r.summary) == (match info {
            Some(i) => opt_view(i.summary),
            None => None,
        }),
{
    let base = match user_title {
        Some(t) => chars_of(t),
        None => chars_of(fallback_title),
    };
    let title = match info {
        None => base,
        Some(i) => {
            if metadata_title_mode == MetadataTitleMode::TitleOnly {
                match &i.title {
                    Some(t) => chars_of(t.as_str()),
                    None => base,
                }
            } else if user_title.is_none() {
                series_title_exec(i, fallback_title, metadata_title_mode)
            } else {
                base
            }
        },
    };
    let authors = match user_author {
        Some(a) => {
            let mut r: Vec<String> = Vec::new();
            r.push(String::from_str(a));
            assert(str_views(r@) =~= seq![a@]);
            r
        },
        None => match info {
            None => unknown_author(),
            Some(i) => {
                let mut out: Vec<String> = Vec::new();
                assert(strictly_sorted(str_views(out@)));
                let ghost v0 = str_views(out@);
                insert_all_sorted(&mut out, &i.writers);
                let ghost v1 = str_views(out@);
                insert_all_sorted(&mut out, &i.pencillers);
                let ghost v2 = str_views(out@);
                insert_all_sorted(&mut out, &i.inkers);
                let ghost v3 = str_views(out@);
                insert_all_sorted(&mut out, &i.colorists);
                let ghost ov = str_views(out@);
                let ghost cr = credited(*i);
                proof {
                    let w = str_views(i.writers@);
                    let p = str_views(i.pencillers@);
                    let k = str_views(i.inkers@);
                    let c = str_views(i.colorists@);
                    assert forall|x: Seq<char>| ov.contains(x) <==> cr.contains(x) by {
                        lemma_add_contains(w + p + k, c, x);
                        lemma_add_contains(w + p, k, x);
                        lemma_add_contains(w, p, x);
                        assert(!v0.contains(x));
                        assert(v1.contains(x) <==> (v0.contains(x) || w.contains(x)));
                        assert(v2.contains(x) <==> (v1.contains(x) || p.contains(x)));
                        assert(v3.contains(x) <==> (v2.contains(x) || k.contains(x)));
                        assert(ov.contains(x) <==> (v3.contains(x) || c.contains(x)));
                    }
                    if cr.len() > 0 {
                        assert(cr.contains(cr[0]));
                        assert(ov.contains(cr[0]));
                    }
                    if ov.len() > 0 {
                        assert(ov.contains(ov[0]));
                    }
                }
                if out.len() == 0 {
                    unknown_author()
                } else {
                    out
                }
            },
        },
    };
    let summary = match info {
        Some(i) => copy_opt_string(&i.summary),
        None => None,
    };
    ResolvedMetadata { title: string_from_chars(title.as_slice()), authors, summary }
}

/// `path` is `ComicInfo.xml` at the archive root.
pub open spec fn is_root_comic_info(path: Seq<char>) -> bool {
    components(path) == seq!["ComicInfo.xml"@]
}

fn is_root_comic_info_exec(path: &String) -> (r: bool)
    ensures
        r == is_root_comic_info(path@),
{
    let comps = path_components(path.as_str());
    let ghost cv = comps@.map_values(|p: Vec<char>| p@);
    if comps.len() != 1 {
        proof {
            if cv =~= seq!["ComicInfo.xml"@] {
                assert(cv.len() == 1);
            }
        }
        return false;
    }
    let name = chars_of("ComicInfo.xml");
    assert(cv[0] == comps@[0]@);
    let r = chars_eq(comps[0].as_slice(), name.as_slice());
    proof {
        if r {
            assert(cv =~= seq!["ComicInfo.xml"@]);
        }
    }
    r
}

/// Takes the archive-root `ComicInfo.xml` out of `entries` and returns its
/// bytes; a `ComicInfo.xml` inside a subfolder is left alone.
pub fn extract_comic_info_entry(entries: &mut Vec<SourceEntry>) -> (r: Option<Vec<u8>>)
    ensures
        match r {
            Some(b) => exists|i: int|
                0 <= i < old(entries)@.len() && is_root_comic_info(#[trigger] old(entries)@[i].relative_path@)
                    && (forall|j: int| 0 <= j < i ==> !is_root_comic_info(#[trigger] old(entries)@[j].relative_path@))
                    && b@ == old(entries)@[i].bytes@
                    && entry_views(final(entries)@) == entry_views(old(entries)@).remove(i),
            None => (forall|j: int| 0 <= j < old(entries)@.len() ==> !is_root_comic_info(#[trigger] old(entries)@[j].relative_path@))
                && entry_views(final(entries)@) == entry_views(old(entries)@),
        },
{
    let n = entries.len();
    for i in 0..n
        invariant
            n == entries@.len(),
            entries@ == old(entries)@,
            forall|j: int| 0 <= j < i ==> !is_root_comic_info(#[trigger] entries@[j].relative_path@),
    {
        if is_root_comic_info_exec(&entries[i].relative_path) {
            let ghost before = entries@;
            let e = entries.remove(i);
            assert(entry_views(entries@) =~= entry_views(before).remove(i as int));
            return Some(e.bytes);
        }
    }
    None
}

// ---------------------------------------------------------------------------
// Reading ComicInfo.xml

/// An XML attribute as plain values.
pub struct XmlAttribute {
    pub namespace: Option<String>,
    pub name: String,
    pub value: String,
}

/// An XML node as plain values: whether it is an element, its local tag
/// name (empty for other nodes), its text (an element's first child when
/// that is text; a text node's own text) and its attributes.
pub struct XmlNode {
    pub is_element: bool,
    pub tag: String,
    pub text: Option<String>,
    pub attributes: Vec<XmlAttribute>,
}

pub struct XmlAttributeView {
    pub namespace: Option<Seq<char>>,
    pub name: Seq<char>,
    pub value: Seq<char>,
}

pub struct XmlNodeView {
    pub is_element: bool,
    pub tag: Seq<char>,
    pub text: Option<Seq<char>>,
    pub attributes: Seq<XmlAttributeView>,
}

pub open spec fn attribute_view(a: XmlAttribute) -> XmlAttributeView {
    XmlAttributeView { namespace: opt_view(a.namespace), name: a.name@, value: a.value@ }
}

pub open spec fn node_view(n: XmlNode) -> XmlNodeView {
    XmlNodeView {
        is_element: n.is_element,
        tag: n.tag@,
        text: opt_view(n.text),
        attributes: n.attributes@.map_values(|a: XmlAttribute| attribute_view(a)),
    }
}

pub open spec fn node_views(s: Seq<XmlNode>) -> Seq<XmlNodeView> {
    s.map_values(|n: XmlNode| node_view(n))
}

/// What `roxmltree` reads from a document: its nodes in document order
/// (`descendants` of the root, the root first), or `None` when the text is
/// not well-formed XML.
pub uninterp spec fn xml_document(xml: Seq<char>) -> Option<Seq<XmlNodeView>>;

/// Calls `roxmltree::Document::parse` and lists the document's
/// `descendants`, each converted to plain values; on a parse error, the
/// error's message.
#[verifier::external_body]
fn parse_xml(xml: &str) -> (r: Result<Vec<XmlNode>, String>)
    ensures
        match r {
            Ok(v) => xml_document(xml@) == Some(node_views(v@)),
            Err(_) => xml_document(xml@) is None,
        },
{
    let doc = roxmltree::Document::parse(xml).map_err(|e| e.to_string())?;
    Ok(doc.descendants().map(|n| XmlNode {
        is_element: n.is_element(),
        tag: n.tag_name().name().to_string(),
        text: n.text().map(str::to_string),
        attributes: n.attributes().map(|a| XmlAttribute {
            namespace: a.namespace().map(str::to_string),
            name: a.name().to_string(),
            value: a.value().to_string(),
        }).collect(),
    }).collect())
}

/// The index of the first element among `nodes[..n]` with tag `tag`.
pub open spec fn first_element(nodes: Seq<XmlNodeView>, tag: Seq<char>, n: int) -> Option<int>
    decreases n,
{
    if n <= 0 {
        None
    } else {
        match first_element(nodes, tag, n - 1) {
            Some(i) => Some(i),
            None => if nodes[n - 1].is_element && nodes[n - 1].tag == tag { Some(n - 1) } else { None },
        }
    }
}

/// The trimmed text of the first `tag` element, when there is one and its
/// trimmed text is not empty.
pub open spec fn element_text(nodes: Seq<XmlNodeView>, tag: Seq<char>) -> Option<Seq<char>> {
    match first_element(nodes, tag, nodes.len() as int) {
        None => None,
        Some(i) => match nodes[i].text {
            None => None,
            Some(t) => if trimmed(t).len() == 0 { None } else { Some(trimmed(t)) },
        },
    }
}

/// The trimmed, non-empty pieces among `ps[..n]`.
pub open spec fn nonempty_trimmed(ps: Seq<Seq<char>>, n: int) -> Seq<Seq<char>>
    decreases n,
{
    if n <= 0 {
        Seq::empty()
    } else if trimmed(ps[n - 1]).len() == 0 {
        nonempty_trimmed(ps, n - 1)
    } else {
        nonempty_trimmed(ps, n - 1).push(trimmed(ps[n - 1]))
    }
}

/// The people a `tag` element lists, separated by `, `.
pub open spec fn listed_people(nodes: Seq<XmlNodeView>, tag: Seq<char>) -> Seq<Seq<char>> {
    match element_text(nodes, tag) {
        None => Seq::empty(),
        Some(t) => {
            let ps = split_pieces(t, 0);
            nonempty_trimmed(ps, ps.len() as int)
        },
    }
}

/// What `str::parse::<u32>` accepts: an optional `+`, then one or more
/// ASCII digits whose value fits in `u32`.
pub open spec fn parsed_u32(s: Seq<char>) -> Option<u32> {
    let digits = unsigned_digits(s);
    if digits.len() == 0 || !all_digits(digits) {
        None
    } else if decimal(digits) > u32::MAX {
        None
    } else {
        Some(decimal(digits) as u32)
    }
}

/// `s` without a leading `+`.
pub open spec fn unsigned_digits(s: Seq<char>) -> Seq<char> {
    if s.len() > 0 && s[0] == '+' {
        s.drop_first()
    } else {
        s
    }
}

pub open spec fn all_digits(d: Seq<char>) -> bool {
    forall|i: int| 0 <= i < d.len() ==> is_digit(#[trigger] d[i])
}

/// The value of the first attribute `name` without a namespace.
pub open spec fn attribute_value(attrs: Seq<XmlAttributeView>, name: Seq<char>, n: int) -> Option<Seq<char>>
    decreases n,
{
    if n <= 0 {
        None
    } else {
        match attribute_value(attrs, name, n - 1) {
            Some(v) => Some(v),
            None => if attrs[n - 1].namespace is None && attrs[n - 1].name == name { Some(attrs[n - 1].value) } else { None },
        }
    }
}

/// The bookmark a node carries: a `Page` element whose `Image` attribute is
/// a page number and whose `Bookmark` attribute is not empty.
pub open spec fn node_bookmark(node: XmlNodeView) -> Option<(u32, Seq<char>)> {
    if !node.is_element || node.tag != "Page"@ {
        None
    } else {
        match attribute_value(node.attributes, "Image"@, node.attributes.len() as int) {
            None => None,
            Some(image) => match parsed_u32(image) {
                None => None,
                Some(index) => match attribute_value(node.attributes, "Bookmark"@, node.attributes.len() as int) {
                    None => None,
                    Some(b) => if b.len() == 0 { None } else { Some((index, b)) },
                },
            },
        }
    }
}

/// The bookmarks of `nodes[..n]`, in document order.
pub open spec fn bookmarks_of(nodes: Seq<XmlNodeView>, n: int) -> Seq<(u32, Seq<char>)>
    decreases n,
{
    if n <= 0 {
        Seq::empty()
    } else {
        match node_bookmark(nodes[n - 1]) {
            None => bookmarks_of(nodes, n - 1),
            Some(b) => bookmarks_of(nodes, n - 1).push(b),
        }
    }
}

proof fn lemma_first_element_stable(nodes: Seq<XmlNodeView>, tag: Seq<char>, m: int, n: int)
    requires
        m <= n,
        first_element(nodes, tag, m) is Some,
    ensures
        first_element(nodes, tag, n) == first_element(nodes, tag, m),
    decreases n - m,
{
    if m < n {
        lemma_first_element_stable(nodes, tag, m, n - 1);
    }
}

proof fn lemma_attribute_value_stable(attrs: Seq<XmlAttributeView>, name: Seq<char>, m: int, n: int)
    requires
        m <= n,
        attribute_value(attrs, name, m) is Some,
    ensures
        attribute_value(attrs, name, n) == attribute_value(attrs, name, m),
    decreases n - m,
{
    if m < n {
        lemma_attribute_value_stable(attrs, name, m, n - 1);
    }
}

fn parse_u32(s: &String) -> (r: Option<u32>)
    ensures
        r == parsed_u32(s@),
{
    let cs = chars_of(s.as_str());
    let n = cs.len();
    let start: usize = if n > 0 && cs[0] == '+' { 1 } else { 0 };
    let ghost digits = unsigned_digits(cs@);
    assert(digits =~= cs@.subrange(start as int, n as int));
    if start == n {
        return None;
    }
    let mut v: u64 = 0;
    for i in start..n
        invariant
            start < n,
            n == cs@.len(),
            cs@ == s@,
            digits == unsigned_digits(cs@),
            digits == cs@.subrange(start as int, n as int),
            forall|j: int| 0 <= j < i - start ==> is_digit(#[trigger] digits[j]),
            v as int == decimal(digits.take(i - start)),
            v <= u32::MAX,
    {
        let c = cs[i];
        assert(digits[i - start] == c);
        if !('0' <= c && c <= '9') {
            assert(!is_digit(digits[i - start]));
            assert(!all_digits(digits));
            return None;
        }
        proof {
            assert(digits.take(i - start + 1) =~= digits.take(i - start).push(c));
            crate::natural_sort::lemma_decimal_push(digits.take(i - start), c);
        }
        let d = ((c as u32) - ('0' as u32)) as u64;
        let w = v * 10 + d;
        if w > u32::MAX as u64 {
            proof {
                if all_digits(digits) {
                    crate::natural_sort::lemma_decimal_prefix_bound(digits, i - start + 1);
                }
            }
            return None;
        }
        v = w;
    }
    assert(digits.take(n - start) =~= digits);
    Some(v as u32)
}

fn element_text_exec(nodes: &Vec<XmlNode>, tag: &str) -> (r: Option<String>)
    ensures
        opt_view(r) == element_text(node_views(nodes@), tag@),
{
    let ghost nv = node_views(nodes@);
    let tc = chars_of(tag);
    let n = nodes.len();
    for i in 0..n
        invariant
            n == nodes@.len(),
            nv == node_views(nodes@),
            tc@ == tag@,
            first_element(nv, tag@, i as int) is None,
    {
        let node = &nodes[i];
        assert(nv[i as int] == node_view(*node));
        let nt = chars_of(node.tag.as_str());
        if node.is_element && chars_eq(nt.as_slice(), tc.as_slice()) {
            proof {
                lemma_first_element_stable(nv, tag@, i + 1, n as int);
            }
            return match &node.text {
                None => None,
                Some(t) => {
                    let tt = trim_str(t.as_str());
                    if tt.as_str().is_empty() {
                        None
                    } else {
                        Some(tt)
                    }
                },
            };
        }
    }
    None
}

fn listed_people_exec(nodes: &Vec<XmlNode>, tag: &str) -> (r: Vec<String>)
    ensures
        sorted_set_of(str_views(r@), listed_people(node_views(nodes@), tag@)),
{
    let mut out: Vec<String> = Vec::new();
    let text = element_text_exec(nodes, tag);
    match text {
        None => {
            proof {
                assert forall|x: Seq<char>| str_views(out@).contains(x) <==> listed_people(node_views(nodes@), tag@).contains(x) by {}
            }
            out
        },
        Some(t) => {
            let cs = chars_of(t.as_str());
            let pieces = split_comma_space(cs.as_slice());
            let ghost ps = pieces@.map_values(|p: Vec<char>| p@);
            let mut kept: Vec<String> = Vec::new();
            let m = pieces.len();
            for i in 0..m
                invariant
                    m == pieces@.len(),
                    ps == pieces@.map_values(|p: Vec<char>| p@),
                    str_views(kept@) == nonempty_trimmed(ps, i as int),
            {
                assert(ps[i as int] == pieces@[i as int]@);
                let piece = string_from_chars(pieces[i].as_slice());
                let tp = trim_str(piece.as_str());
                if !tp.as_str().is_empty() {
                    let ghost before = str_views(kept@);
                    let ghost tv = tp@;
                    kept.push(tp);
                    assert(str_views(kept@) =~= before.push(tv));
                }
            }
            insert_all_sorted(&mut out, &kept);
            proof {
                assert forall|x: Seq<char>| str_views(out@).contains(x) <==> listed_people(node_views(nodes@), tag@).contains(x) by {}
            }
            out
        },
    }
}

fn attribute_value_exec(attrs: &Vec<XmlAttribute>, name: &str) -> (r: Option<String>)
    ensures
        opt_view(r) == attribute_value(attrs@.map_values(|a: XmlAttribute| attribute_view(a)), name@, attrs@.len() as int),
{
    let ghost av = attrs@.map_values(|a: XmlAttribute| attribute_view(a));
    let nc = chars_of(name);
    let n = attrs.len();
    for i in 0..n
        invariant
            n == attrs@.len(),
            av == attrs@.map_values(|a: XmlAttribute| attribute_view(a)),
            nc@ == name@,
            attribute_value(av, name@, i as int) is None,
    {
        let a = &attrs[i];
        assert(av[i as int] == attribute_view(*a));
        let an = chars_of(a.name.as_str());
        if a.namespace.is_none() && chars_eq(an.as_slice(), nc.as_slice()) {
            proof {
                lemma_attribute_value_stable(av, name@, i + 1, n as int);
            }
            return Some(copy_string(&a.value));
        }
    }
    None
}

fn node_bookmark_exec(node: &XmlNode) -> (r: Option<(u32, String)>)
    ensures
        match r {
            Some((i, b)) => node_bookmark(node_view(*node)) == Some((i, b@)),
            None => node_bookmark(node_view(*node)) is None,
        },
{
    let page = chars_of("Page");
    let tc = chars_of(node.tag.as_str());
    if !node.is_element || !chars_eq(tc.as_slice(), page.as_slice()) {
        return None;
    }
    let image = match attribute_value_exec(&node.attributes, "Image") {
        Some(v) => v,
        None => return None,
    };
    let index = match parse_u32(&image) {
        Some(i) => i,
        None => return None,
    };
    let bookmark = match attribute_value_exec(&node.attributes, "Bookmark") {
        Some(b) => b,
        None => return None,
    };
    if bookmark.as_str().is_empty() {
        return None;
    }
    Some((index, bookmark))
}

pub open spec fn bookmark_views(s: Seq<(u32, String)>) -> Seq<(u32, Seq<char>)> {
    s.map_values(|b: (u32, String)| (b.0, b.1@))
}

/// The fields of `ComicInfo.xml` in the document `nodes`, as
/// [`comic_info_from_nodes`] reads them.
pub open spec fn comic_info_matches(c: ComicInfo, nodes: Seq<XmlNodeView>) -> bool {
    &&& opt_view(c.series) == element_text(nodes, "Series"@)
    &&& opt_view(c.volume) == element_text(nodes, "Volume"@)
    &&& opt_view(c.number) == element_text(nodes, "Number"@)
    &&& opt_view(c.title) == element_text(nodes, "Title"@)
    &&& opt_view(c.summary) == element_text(nodes, "Summary"@)
    &&& sorted_set_of(str_views(c.writers@), listed_people(nodes, "Writer"@))
    &&& sorted_set_of(str_views(c.pencillers@), listed_people(nodes, "Penciller"@))
    &&& sorted_set_of(str_views(c.inkers@), listed_people(nodes, "Inker"@))
    &&& sorted_set_of(str_views(c.colorists@), listed_people(nodes, "Colorist"@))
    &&& bookmark_views(c.bookmarks@) == bookmarks_of(nodes, nodes.len() as int)
}

/// Reads the `ComicInfo.xml` fields from a parsed document, given as its
/// nodes in document order: `Series`, `Volume`, `Number`, `Title` and
/// `Summary` from the first element of each name (trimmed, absent when
/// empty), the people lists (split at `,`, trimmed, empty names dropped,
/// sorted and without repeats), and the page bookmarks in document order.
pub fn comic_info_from_nodes(nodes: &Vec<XmlNode>) -> (c: ComicInfo)
    ensures
        comic_info_matches(c, node_views(nodes@)),
{
    let ghost nv = node_views(nodes@);
    let mut bookmarks: Vec<(u32, String)> = Vec::new();
    let n = nodes.len();
    for i in 0..n
        invariant
            n == nodes@.len(),
            nv == node_views(nodes@),
            bookmark_views(bookmarks@) == bookmarks_of(nv, i as int),
    {
        assert(nv[i as int] == node_view(nodes@[i as int]));
        match node_bookmark_exec(&nodes[i]) {
            Some((index, b)) => {
                let ghost before = bookmark_views(bookmarks@);
                let ghost bv = b@;
                bookmarks.push((index, b));
                assert(bookmark_views(bookmarks@) =~= before.push((index, bv)));
            },
            None => {},
        }
    }
    ComicInfo {
        series: element_text_exec(nodes, "Series"),
        volume: element_text_exec(nodes, "Volume"),
        number: element_text_exec(nodes, "Number"),
        title: element_text_exec(nodes, "Title"),
        summary: element_text_exec(nodes, "Summary"),
        writers: listed_people_exec(nodes, "Writer"),
        pencillers: listed_people_exec(nodes, "Penciller"),
        inkers: listed_people_exec(nodes, "Inker"),
        colorists: listed_people_exec(nodes, "Colorist"),
        bookmarks,
    }
}

/// Reads `ComicInfo.xml`: the fields of [`comic_info_from_nodes`] over the
/// document `roxmltree` parses from `xml`. Text that is not well-formed XML
/// is refused with [`Error::ComicInfo`].
pub fn parse_comic_info_xml(xml: &str) -> (r: Result<ComicInfo, Error>)
    ensures
        r is Err <==> xml_document(xml@) is None,
        r matches Err(e) ==> e is ComicInfo,
        r matches Ok(c) ==> xml_document(xml@) matches Some(nodes) && comic_info_matches(c, nodes),
{
    let nodes = match parse_xml(xml) {
        Ok(n) => n,
        Err(message) => return Err(Error::ComicInfo(message)),
    };
    Ok(comic_info_from_nodes(&nodes))
}

} // verus!
