//! Source pages read from an archive or a folder: filtering out what is not
//! a page image, and putting entries in natural path order.

pub mod cbz;

use crate::natural_sort::{compare_paths, lemma_path_order_is_total_preorder, path_order};
use crate::paths::{components, extension, file_name, is_dot_dot, is_root, name_extension_exec, path_components};
use crate::text::{chars_eq, chars_of, has_prefix, lowercase, starts_with, string_from_chars, to_lowercase};
use std::cmp::Ordering;
use vstd::prelude::*;

verus! {

/// One source file, with its `/`-separated path relative to the archive or
/// folder root.
pub struct SourceEntry {
    pub relative_path: String,
    pub bytes: Vec<u8>,
}

/// An entry as a path and its bytes.
pub open spec fn entry_view(e: SourceEntry) -> (Seq<char>, Seq<u8>) {
    (e.relative_path@, e.bytes@)
}

pub open spec fn entry_views(s: Seq<SourceEntry>) -> Seq<(Seq<char>, Seq<u8>)> {
    s.map_values(|e: SourceEntry| entry_view(e))
}

/// The page image extensions, compared after lowercasing.
pub open spec fn is_image_extension(e: Seq<char>) -> bool {
    e == "jpg"@ || e == "jpeg"@ || e == "png"@ || e == "gif"@ || e == "bmp"@ || e == "webp"@
}

/// A sidecar that macOS adds to archives: anything under a `__MACOSX`
/// component, or a file whose name starts with `._`.
pub open spec fn is_macos_sidecar(path: Seq<char>) -> bool {
    components(path).contains("__MACOSX"@) || (file_name(path) matches Some(n) && has_prefix(n, "._"@))
}

/// A path is a page image when its extension, lowercased, is a page image
/// extension and it is not a macOS sidecar.
pub open spec fn is_page_image(path: Seq<char>) -> bool {
    &&& extension(path) matches Some(e)
    &&& is_image_extension(lowercase(e))
    &&& !is_macos_sidecar(path)
}

pub open spec fn keeps_entry(e: (Seq<char>, Seq<u8>)) -> bool {
    is_page_image(e.0)
}

fn is_image_extension_exec(e: &Vec<char>) -> (r: bool)
    ensures
        r == is_image_extension(lowercase(e@)),
{
    let s = string_from_chars(e.as_slice());
    let lower = to_lowercase(s.as_str());
    let l = chars_of(lower.as_str());
    let names = ["jpg", "jpeg", "png", "gif", "bmp", "webp"];
    let a = chars_of(names[0]);
    let b = chars_of(names[1]);
    let c = chars_of(names[2]);
    let d = chars_of(names[3]);
    let f = chars_of(names[4]);
    let g = chars_of(names[5]);
    assert(names[0]@ == "jpg"@ && names[1]@ == "jpeg"@ && names[2]@ == "png"@);
    assert(names[3]@ == "gif"@ && names[4]@ == "bmp"@ && names[5]@ == "webp"@);
    chars_eq(l.as_slice(), a.as_slice()) || chars_eq(l.as_slice(), b.as_slice()) || chars_eq(
        l.as_slice(),
        c.as_slice(),
    ) || chars_eq(l.as_slice(), d.as_slice()) || chars_eq(l.as_slice(), f.as_slice()) || chars_eq(
        l.as_slice(),
        g.as_slice(),
    )
}

/// Whether `path` names a page image (see [`is_page_image`]).
pub fn is_page_image_path(path: &str) -> (r: bool)
    ensures
        r == is_page_image(path@),
{
    let comps = path_components(path);
    let ghost cv = comps@.map_values(|p: Vec<char>| p@);
    let macosx = chars_of("__MACOSX");
    let mut under_macosx = false;
    let n = comps.len();
    for i in 0..n
        invariant
            n == comps@.len(),
            cv == comps@.map_values(|p: Vec<char>| p@),
            cv == components(path@),
            macosx@ == "__MACOSX"@,
            under_macosx == (exists|k: int| 0 <= k < i && cv[k] == "__MACOSX"@),
    {
        assert(cv[i as int] == comps@[i as int]@);
        if chars_eq(comps[i].as_slice(), macosx.as_slice()) {
            under_macosx = true;
        }
    }
    proof {
        if under_macosx {
            let k = choose|k: int| 0 <= k < n && cv[k] == "__MACOSX"@;
            assert(cv.contains("__MACOSX"@));
        } else {
            assert(!cv.contains("__MACOSX"@));
        }
    }
    if n == 0 {
        return false;
    }
    let last = &comps[n - 1];
    assert(cv[n - 1] == last@);
    if is_dot_dot(last) || is_root(last) {
        return false;
    }
    let dot_us = chars_of("._");
    let hidden = starts_with(last.as_slice(), dot_us.as_slice());
    let ext = name_extension_exec(last);
    match ext {
        None => false,
        Some(e) => {
            let image = is_image_extension_exec(&e);
            image && !under_macosx && !hidden
        },
    }
}

/// Keeps the entries that are page images (see [`is_page_image`]), in
/// order, and counts the ones dropped.
pub fn filter_image_entries(entries: Vec<SourceEntry>) -> (r: (Vec<SourceEntry>, usize))
    ensures
        entry_views(r.0@) == entry_views(entries@).filter(|e: (Seq<char>, Seq<u8>)| keeps_entry(e)),
        r.1 + r.0@.len() == entries@.len(),
{
    let ghost all = entry_views(entries@);
    let ghost pred = |e: (Seq<char>, Seq<u8>)| keeps_entry(e);
    let mut kept: Vec<SourceEntry> = Vec::new();
    let mut skipped: usize = 0;
    let n = entries.len();
    for e in it: entries.into_iter()
        invariant
            it.seq() == entries@,
            all == entry_views(entries@),
            pred == (|e: (Seq<char>, Seq<u8>)| keeps_entry(e)),
            entry_views(kept@) == all.take(it.index() as int).filter(pred),
            skipped + kept@.len() == it.index(),
            n == entries@.len(),
            it.index() <= n,
    {
        let ghost i = it.index() as int;
        let ghost before = kept@;
        proof {
            assert(all.take(i + 1).drop_last() =~= all.take(i));
            assert(all.take(i + 1).last() == entry_view(e));
            reveal(Seq::filter);
        }
        if is_page_image_path(e.relative_path.as_str()) {
            kept.push(e);
            assert(entry_views(kept@) =~= entry_views(before).push(entry_view(e)));
        } else {
            skipped = skipped + 1;
        }
    }
    assert(all.take(entries@.len() as int) =~= all);
    (kept, skipped)
}

// ---------------------------------------------------------------------------
// Natural path order

/// Inserts `x` into `sorted` just before the first entry whose path comes
/// strictly after `x`'s, so entries with equal paths keep their order.
pub open spec fn insert_by_path(sorted: Seq<(Seq<char>, Seq<u8>)>, x: (Seq<char>, Seq<u8>), n: int) -> Seq<(Seq<char>, Seq<u8>)>
    decreases n,
{
    if n <= 0 {
        seq![x] + sorted
    } else if path_order(sorted[n - 1].0, x.0) > 0 {
        insert_by_path(sorted, x, n - 1)
    } else {
        sorted.take(n) + seq![x] + sorted.skip(n)
    }
}

/// Entries stably sorted by natural path order (insertion sort).
pub open spec fn sort_by_path(s: Seq<(Seq<char>, Seq<u8>)>) -> Seq<(Seq<char>, Seq<u8>)>
    decreases s.len(),
{
    if s.len() == 0 {
        s
    } else {
        let prefix = sort_by_path(s.drop_last());
        insert_by_path(prefix, s.last(), prefix.len() as int)
    }
}

fn path_after(a: &SourceEntry, b: &SourceEntry) -> (r: bool)
    ensures
        r == (path_order(a.relative_path@, b.relative_path@) > 0),
{
    match compare_paths(a.relative_path.as_str(), b.relative_path.as_str()) {
        Ordering::Greater => true,
        _ => false,
    }
}

/// Puts entries in natural path order (see [`crate::natural_sort`]),
/// keeping entries whose paths compare equal in the order they came in.
pub fn sort_entries(entries: Vec<SourceEntry>) -> (r: Vec<SourceEntry>)
    ensures
        entry_views(r@) == sort_by_path(entry_views(entries@)),
{
    let ghost all = entry_views(entries@);
    let mut out: Vec<SourceEntry> = Vec::new();
    for e in it: entries.into_iter()
        invariant
            it.seq() == entries@,
            all == entry_views(entries@),
            entry_views(out@) == sort_by_path(all.take(it.index() as int)),
    {
        let ghost i = it.index() as int;
        let ghost sv = entry_views(out@);
        let ghost x = entry_view(e);
        proof {
            assert(all.take(i + 1).drop_last() =~= all.take(i));
            assert(all.take(i + 1).last() == x);
        }
        let mut k = out.len();
        while k > 0 && path_after(&out[k - 1], &e)
            invariant
                sv == entry_views(out@),
                x == entry_view(e),
                k <= out@.len(),
                insert_by_path(sv, x, sv.len() as int) == insert_by_path(sv, x, k as int),
            decreases k,
        {
            assert(sv[k - 1] == entry_view(out@[k - 1]));
            k = k - 1;
        }
        proof {
            if k > 0 {
                assert(sv[k - 1] == entry_view(out@[k - 1]));
            }
        }
        let ghost before = out@;
        out.insert(k, e);
        proof {
            assert(entry_views(out@) =~= sv.take(k as int) + seq![x] + sv.skip(k as int));
            if k == 0 {
                assert(sv.take(0) + seq![x] + sv.skip(0) =~= seq![x] + sv);
            }
        }
    }
    assert(all.take(all.len() as int) =~= all);
    out
}

/// Every entry's path comes no later than the paths after it.
pub open spec fn path_sorted(s: Seq<(Seq<char>, Seq<u8>)>) -> bool {
    forall|i: int, j: int| 0 <= i < j < s.len() ==> path_order(#[trigger] s[i].0, #[trigger] s[j].0) <= 0
}

proof fn lemma_path_order_le_trans(a: Seq<char>, b: Seq<char>, c: Seq<char>)
    requires
        path_order(a, b) <= 0,
        path_order(b, c) <= 0,
    ensures
        path_order(a, c) <= 0,
{
    lemma_path_order_is_total_preorder(a, b, c);
    lemma_path_order_is_total_preorder(b, c, a);
    lemma_path_order_is_total_preorder(a, c, b);
}

proof fn lemma_insert_by_path(sorted: Seq<(Seq<char>, Seq<u8>)>, x: (Seq<char>, Seq<u8>), n: int)
    requires
        path_sorted(sorted),
        0 <= n <= sorted.len(),
        forall|j: int| n <= j < sorted.len() ==> path_order(#[trigger] sorted[j].0, x.0) > 0,
    ensures
        path_sorted(insert_by_path(sorted, x, n)),
        insert_by_path(sorted, x, n).to_multiset() == sorted.to_multiset().insert(x),
    decreases n,
{
    let r = insert_by_path(sorted, x, n);
    if n <= 0 {
        assert(r =~= sorted.insert(0, x));
        vstd::seq_lib::to_multiset_insert(sorted, 0, x);
        assert forall|i: int, j: int| 0 <= i < j < r.len() implies path_order(#[trigger] r[i].0, #[trigger] r[j].0) <= 0 by {
            if i == 0 {
                lemma_path_order_is_total_preorder(sorted[j - 1].0, x.0, x.0);
            } else {
                assert(r[i] == sorted[i - 1] && r[j] == sorted[j - 1]);
            }
        }
    } else if path_order(sorted[n - 1].0, x.0) > 0 {
        lemma_insert_by_path(sorted, x, n - 1);
    } else {
        assert(r =~= sorted.insert(n, x));
        vstd::seq_lib::to_multiset_insert(sorted, n, x);
        assert forall|i: int, j: int| 0 <= i < j < r.len() implies path_order(#[trigger] r[i].0, #[trigger] r[j].0) <= 0 by {
            if j < n {
                assert(r[i] == sorted[i] && r[j] == sorted[j]);
            } else if j == n {
                assert(r[i] == sorted[i]);
                if i < n - 1 {
                    lemma_path_order_le_trans(sorted[i].0, sorted[n - 1].0, x.0);
                }
            } else if i == n {
                assert(r[j] == sorted[j - 1]);
                lemma_path_order_is_total_preorder(sorted[j - 1].0, x.0, x.0);
            } else if i < n {
                assert(r[i] == sorted[i] && r[j] == sorted[j - 1]);
            } else {
                assert(r[i] == sorted[i - 1] && r[j] == sorted[j - 1]);
            }
        }
    }
}

/// Sorting entries by path yields the same entries (as a multiset), every
/// one no later in natural path order than the ones after it.
pub proof fn lemma_sort_by_path_sorts(s: Seq<(Seq<char>, Seq<u8>)>)
    ensures
        path_sorted(sort_by_path(s)),
        sort_by_path(s).to_multiset() == s.to_multiset(),
        sort_by_path(s).len() == s.len(),
    decreases s.len(),
{
    if s.len() > 0 {
        let prefix = sort_by_path(s.drop_last());
        lemma_sort_by_path_sorts(s.drop_last());
        lemma_insert_by_path(prefix, s.last(), prefix.len() as int);
        assert(s.drop_last().push(s.last()) =~= s);
        vstd::seq_lib::to_multiset_build(s.drop_last(), s.last());
        vstd::seq_lib::to_multiset_len(sort_by_path(s));
        vstd::seq_lib::to_multiset_len(s);
    }
}

} // verus!
