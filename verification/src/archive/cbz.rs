//! `.cbz` (ZIP) reading and writing through the `zip` crate. Directory
//! entries are skipped on reading, and the files come back in natural path
//! order.

use crate::archive::{entry_views, path_sorted, sort_by_path, sort_entries, SourceEntry};
use crate::error::Error;
use std::io::Cursor;
use std::io::Write;
use vstd::prelude::*;

pub use crate::paths::path_to_entry_name;

verus! {

/// `zip`'s reader over an archive held in memory.
#[verifier::external_type_specification]
#[verifier::external_body]
#[verifier::reject_recursive_types(R)]
pub struct ExZipArchive<R>(zip::ZipArchive<R>);

/// `zip`'s writer over an in-memory buffer. Its declaration carries std's
/// `Write + Seek` bounds, which Verus does not take on a declared type, so
/// it is held here, out of Verus's sight.
#[verifier::external_body]
pub struct ZipBuffer {
    writer: zip::ZipWriter<Cursor<Vec<u8>>>,
}

/// std's in-memory cursor.
#[verifier::external_type_specification]
#[verifier::external_body]
#[verifier::reject_recursive_types(T)]
pub struct ExCursor<T>(std::io::Cursor<T>);

/// The names of the files an archive lists, in central-directory order.
pub uninterp spec fn zip_names(a: zip::ZipArchive<Cursor<Vec<u8>>>) -> Seq<Seq<char>>;

/// What reading each file an archive lists yields, decompressed, in the
/// same order as [`zip_names`]: `None` for a file that cannot be read
/// (its local header is damaged, it is encrypted, its data fails to
/// decompress or its checksum does not match).
pub uninterp spec fn zip_contents(a: zip::ZipArchive<Cursor<Vec<u8>>>) -> Seq<Option<Seq<u8>>>;

/// What `ZipArchive::new` reads from `data`: the names of the files the
/// archive lists, in central-directory order, and what reading each of them
/// yields (as in [`zip_contents`]), in the same order; `None` when `data`
/// cannot be opened as an archive.
pub uninterp spec fn zip_read(data: Seq<u8>) -> Option<(Seq<Seq<char>>, Seq<Option<Seq<u8>>>)>;

/// The files written into a [`ZipBuffer`] so far: their names, in the order
/// they were started, and the bytes written into each.
pub uninterp spec fn zip_written(w: ZipBuffer) -> (Seq<Seq<char>>, Seq<Seq<u8>>);

/// Whether a file of a [`ZipBuffer`] is open for writing: one was started
/// and nothing has closed it since.
pub uninterp spec fn zip_writing(w: ZipBuffer) -> bool;

/// Whether every file started in a [`ZipBuffer`] so far is stored
/// uncompressed.
pub uninterp spec fn zip_all_stored(w: ZipBuffer) -> bool;

/// The number of bytes of the UTF-8 encoding of `s`.
pub open spec fn utf8_len(s: Seq<char>) -> nat {
    vstd::utf8::encode_utf8(s).len()
}

/// The bytes a read gave, or nothing for a file that could not be read.
pub open spec fn file_bytes(c: Option<Seq<u8>>) -> Seq<u8> {
    match c {
        Some(b) => b,
        None => Seq::empty(),
    }
}

/// Every one of the first `n` files was read.
pub open spec fn all_read(contents: Seq<Option<Seq<u8>>>, n: int) -> bool {
    forall|i: int| 0 <= i < n ==> (#[trigger] contents[i]) is Some
}

/// Every listed file that is not a directory was read.
pub open spec fn files_read(names: Seq<Seq<char>>, contents: Seq<Option<Seq<u8>>>) -> bool {
    forall|i: int| 0 <= i < names.len() && !is_dir_name(#[trigger] names[i]) ==> contents[i] is Some
}

/// Named byte blobs as plain values.
pub open spec fn named_views(s: Seq<(String, Vec<u8>)>) -> Seq<(Seq<char>, Seq<u8>)> {
    s.map_values(|e: (String, Vec<u8>)| (e.0@, e.1@))
}

/// What reading back an archive of the named blobs `l` lists: their names
/// in order, each file read with its bytes.
pub open spec fn listing(l: Seq<(Seq<char>, Seq<u8>)>) -> (Seq<Seq<char>>, Seq<Option<Seq<u8>>>) {
    (l.map_values(|e: (Seq<char>, Seq<u8>)| e.0), l.map_values(|e: (Seq<char>, Seq<u8>)| Some(e.1)))
}

/// No two blobs of `l` share a name.
pub open spec fn distinct_names(l: Seq<(Seq<char>, Seq<u8>)>) -> bool {
    forall|i: int, j: int| 0 <= i < j < l.len() ==> (#[trigger] l[i]).0 != (#[trigger] l[j]).0
}

/// Every blob of `l` fits a ZIP entry without the large-file extension
/// (at most `u32::MAX` bytes).
pub open spec fn sizes_fit(l: Seq<(Seq<char>, Seq<u8>)>) -> bool {
    forall|i: int| 0 <= i < l.len() ==> (#[trigger] l[i]).1.len() <= u32::MAX
}

/// Every name of `l` fits a ZIP header's name field (at most `u16::MAX`
/// bytes of UTF-8).
pub open spec fn names_fit(l: Seq<(Seq<char>, Seq<u8>)>) -> bool {
    forall|i: int| 0 <= i < l.len() ==> utf8_len((#[trigger] l[i]).0) <= u16::MAX
}

/// `zip`'s test for a directory entry: the name ends in `/` or `\`.
pub open spec fn is_dir_name(name: Seq<char>) -> bool {
    name.len() > 0 && (name.last() == '/' || name.last() == '\\')
}

/// The files of an archive with `names` and `contents`, directories left
/// out, as path and bytes, in archive order.
pub open spec fn archive_files(names: Seq<Seq<char>>, contents: Seq<Option<Seq<u8>>>, n: int) -> Seq<(Seq<char>, Seq<u8>)>
    decreases n,
{
    if n <= 0 {
        Seq::empty()
    } else if is_dir_name(names[n - 1]) {
        archive_files(names, contents, n - 1)
    } else {
        archive_files(names, contents, n - 1).push((names[n - 1], file_bytes(contents[n - 1])))
    }
}

proof fn lemma_archive_files_are_files(names: Seq<Seq<char>>, contents: Seq<Option<Seq<u8>>>, n: int)
    ensures
        forall|i: int| 0 <= i < archive_files(names, contents, n).len() ==> !is_dir_name(
            #[trigger] archive_files(names, contents, n)[i].0,
        ),
    decreases n,
{
    if n > 0 {
        lemma_archive_files_are_files(names, contents, n - 1);
        let prev = archive_files(names, contents, n - 1);
        if !is_dir_name(names[n - 1]) {
            let cur = archive_files(names, contents, n);
            assert forall|i: int| 0 <= i < cur.len() implies !is_dir_name(#[trigger] cur[i].0) by {
                if i < prev.len() {
                    assert(cur[i] == prev[i]);
                }
            }
        }
    }
}

/// Reading back an archive that lists the named blobs `l`, each file
/// readable with its bytes (what [`write_zip`] writes), none of them named
/// as a directory, reads every file and gives back exactly `l`: so
/// [`extract_from_reader`] on it succeeds and yields `l` in natural path
/// order.
pub proof fn lemma_read_back_written(l: Seq<(Seq<char>, Seq<u8>)>)
    requires
        forall|i: int| 0 <= i < l.len() ==> !is_dir_name(#[trigger] l[i].0),
    ensures
        listing(l).0.len() == l.len(),
        all_read(listing(l).1, l.len() as int),
        archive_files(listing(l).0, listing(l).1, l.len() as int) == l,
{
    let names = listing(l).0;
    let contents = listing(l).1;
    assert forall|n: int| 0 <= n <= l.len() implies #[trigger] archive_files(names, contents, n) == l.take(n) by {
        lemma_read_back_prefix(l, n);
    }
    assert(l.take(l.len() as int) =~= l);
}

proof fn lemma_read_back_prefix(l: Seq<(Seq<char>, Seq<u8>)>, n: int)
    requires
        0 <= n <= l.len(),
        forall|i: int| 0 <= i < l.len() ==> !is_dir_name(#[trigger] l[i].0),
    ensures
        archive_files(listing(l).0, listing(l).1, n) == l.take(n),
    decreases n,
{
    if n > 0 {
        lemma_read_back_prefix(l, n - 1);
        assert(!is_dir_name(l[n - 1].0));
        assert(l.take(n) =~= l.take(n - 1).push(l[n - 1]));
    } else {
        assert(l.take(0) =~= Seq::<(Seq<char>, Seq<u8>)>::empty());
    }
}

/// Calls `ZipArchive::new` on a cursor over `data`, which reads the
/// archive's central directory: it opens exactly when `data` reads as an
/// archive, and the archive then lists what `data` holds.
#[verifier::external_body]
fn open_archive(data: Vec<u8>) -> (r: Result<zip::ZipArchive<Cursor<Vec<u8>>>, zip::result::ZipError>)
    ensures
        r is Ok <==> zip_read(data@) is Some,
        r matches Ok(a) ==> zip_read(data@) == Some((zip_names(a), zip_contents(a))),
{
    zip::ZipArchive::new(Cursor::new(data))
}

/// Calls `ZipArchive::len`: the number of files the archive lists.
#[verifier::external_body]
fn archive_len(a: &zip::ZipArchive<Cursor<Vec<u8>>>) -> (n: usize)
    ensures
        n == zip_names(*a).len(),
        n == zip_contents(*a).len(),
{
    a.len()
}

/// Calls `ZipArchive::by_index` and then `ZipFile::name`: the name of file
/// `i`. It fails only where `by_index` fails, and then the file cannot be
/// read either. Reading moves the cursor only; the listed files stay the
/// same.
#[verifier::external_body]
fn entry_name(a: &mut zip::ZipArchive<Cursor<Vec<u8>>>, i: usize) -> (r: Result<String, zip::result::ZipError>)
    requires
        i < zip_names(*old(a)).len(),
    ensures
        zip_names(*final(a)) == zip_names(*old(a)),
        zip_contents(*final(a)) == zip_contents(*old(a)),
        r matches Ok(n) ==> n@ == zip_names(*old(a))[i as int],
        r is Err ==> zip_contents(*old(a))[i as int] is None,
{
    let file = a.by_index(i)?;
    Ok(file.name().to_string())
}

/// Calls `ZipArchive::by_index` and then `Read::read_to_end` on the file:
/// the decompressed contents of file `i`, which it gives exactly when the
/// file can be read. Reading moves the cursor only; the listed files stay
/// the same.
#[verifier::external_body]
fn entry_bytes(a: &mut zip::ZipArchive<Cursor<Vec<u8>>>, i: usize) -> (r: Result<Vec<u8>, zip::result::ZipError>)
    requires
        i < zip_names(*old(a)).len(),
    ensures
        zip_names(*final(a)) == zip_names(*old(a)),
        zip_contents(*final(a)) == zip_contents(*old(a)),
        r is Ok <==> zip_contents(*old(a))[i as int] is Some,
        r matches Ok(b) ==> zip_contents(*old(a))[i as int] == Some(b@),
{
    let mut file = a.by_index(i)?;
    let mut bytes = Vec::new();
    std::io::Read::read_to_end(&mut file, &mut bytes).map_err(zip::result::ZipError::Io)?;
    Ok(bytes)
}

fn is_dir_entry(name: &String) -> (r: bool)
    ensures
        r == is_dir_name(name@),
{
    let chars = crate::text::chars_of(name.as_str());
    let n = chars.len();
    n > 0 && (chars[n - 1] == '/' || chars[n - 1] == '\\')
}

/// Every file of an open archive, directories skipped, in natural path
/// order. It succeeds whenever every listed file can be read, and gives
/// every file when it does; otherwise it is refused with
/// [`Error::Archive`].
pub fn extract_entries(archive: &mut zip::ZipArchive<Cursor<Vec<u8>>>) -> (r: Result<Vec<SourceEntry>, Error>)
    ensures
        zip_names(*final(archive)) == zip_names(*old(archive)),
        zip_contents(*final(archive)) == zip_contents(*old(archive)),
        zip_contents(*old(archive)).len() == zip_names(*old(archive)).len(),
        r matches Ok(v) ==> files_read(zip_names(*old(archive)), zip_contents(*old(archive))) && entry_views(v@)
            == sort_by_path(
            archive_files(zip_names(*old(archive)), zip_contents(*old(archive)), zip_names(*old(archive)).len() as int),
        ),
        all_read(zip_contents(*old(archive)), zip_names(*old(archive)).len() as int) ==> r is Ok,
        r matches Err(e) ==> e is Archive,
        zip_names(*old(archive)).len() == 0 ==> (r matches Ok(v) && v@.len() == 0),
{
    let ghost names = zip_names(*archive);
    let ghost contents = zip_contents(*archive);
    let n = archive_len(archive);
    let mut entries: Vec<SourceEntry> = Vec::new();
    for i in 0..n
        invariant
            n == names.len(),
            n == contents.len(),
            names == zip_names(*old(archive)),
            contents == zip_contents(*old(archive)),
            zip_names(*archive) == names,
            zip_contents(*archive) == contents,
            entry_views(entries@) == archive_files(names, contents, i as int),
            forall|k: int| 0 <= k < i && !is_dir_name(#[trigger] names[k]) ==> contents[k] is Some,
    {
        let name = match entry_name(archive, i) {
            Ok(name) => name,
            Err(e) => return Err(Error::Archive(e)),
        };
        if !is_dir_entry(&name) {
            let bytes = match entry_bytes(archive, i) {
                Ok(b) => b,
                Err(e) => return Err(Error::Archive(e)),
            };
            let ghost before = entry_views(entries@);
            entries.push(SourceEntry { relative_path: name, bytes });
            assert(entry_views(entries@) =~= before.push((names[i as int], file_bytes(contents[i as int]))));
        }
    }
    let sorted = sort_entries(entries);
    proof {
        if n == 0 {
            assert(entry_views(sorted@).len() == sorted@.len());
        }
    }
    Ok(sorted)
}

/// Every file of the `.cbz` held in `data`, directories skipped, in natural
/// path order (see [`zip_read`] for what `zip` reads from `data`). It
/// succeeds whenever `data` opens as an archive whose every listed file can
/// be read. Data that does not open as an archive, or a file that cannot be
/// read, is refused with [`Error::Archive`]; an archive that lists nothing
/// gives no entries.
pub fn extract_from_reader(data: Vec<u8>) -> (r: Result<Vec<SourceEntry>, Error>)
    ensures
        r matches Ok(v) ==> zip_read(data@) matches Some(z) && files_read(z.0, z.1) && entry_views(v@)
            == sort_by_path(archive_files(z.0, z.1, z.0.len() as int)),
        (zip_read(data@) matches Some(z) && all_read(z.1, z.0.len() as int)) ==> r is Ok,
        zip_read(data@) is None ==> r is Err,
        r matches Err(e) ==> e is Archive,
        (zip_read(data@) matches Some(z) && z.0.len() == 0) ==> (r matches Ok(v) && v@.len() == 0),
        r matches Ok(v) ==> path_sorted(entry_views(v@)),
        r matches Ok(v) ==> forall|i: int| 0 <= i < v@.len() ==> !is_dir_name(#[trigger] v@[i].relative_path@),
{
    let mut archive = match open_archive(data) {
        Ok(a) => a,
        Err(e) => return Err(Error::Archive(e)),
    };
    let ghost names = zip_names(archive);
    let ghost contents = zip_contents(archive);
    let r = extract_entries(&mut archive);
    proof {
        let files = archive_files(names, contents, names.len() as int);
        crate::archive::lemma_sort_by_path_sorts(files);
        lemma_archive_files_are_files(names, contents, names.len() as int);
        if let Ok(v) = &r {
            let sorted = sort_by_path(files);
            assert forall|i: int| 0 <= i < v@.len() implies !is_dir_name(#[trigger] v@[i].relative_path@) by {
                let e = sorted[i];
                assert(entry_views(v@)[i] == e);
                assert(sorted.contains(e));
                vstd::seq_lib::to_multiset_contains(sorted, e);
                vstd::seq_lib::to_multiset_contains(files, e);
                assert(files.contains(e));
                let k = choose|k: int| 0 <= k < files.len() && files[k] == e;
                assert(!is_dir_name(files[k].0));
            }
        }
    }
    r
}

/// Calls `ZipWriter::new` over an empty in-memory cursor: nothing is
/// written yet and no file is open.
#[verifier::external_body]
fn new_writer() -> (w: ZipBuffer)
    ensures
        zip_written(w) == (Seq::<Seq<char>>::empty(), Seq::<Seq<u8>>::empty()),
        !zip_writing(w),
        zip_all_stored(w),
{
    ZipBuffer { writer: zip::ZipWriter::new(Cursor::new(Vec::new())) }
}

/// Calls `ZipWriter::start_file` with default options and the `Stored`
/// method when `stored`, `Deflated` otherwise: on success a new, empty file
/// named `name` follows the ones already written and is open for writing.
/// In memory it is refused only for a name already written, or when
/// closing the previous file finds its compressed size past the 4 GiB
/// limit, which cannot happen while every file is stored (writing refuses
/// more bytes than that). A name longer than a header's 16-bit length
/// field makes `zip` panic, so it is left out.
#[verifier::external_body]
fn start_file(w: &mut ZipBuffer, name: &str, stored: bool) -> (r: Result<(), zip::result::ZipError>)
    requires
        utf8_len(name@) <= u16::MAX,
    ensures
        r is Ok ==> zip_written(*final(w)) == (zip_written(*old(w)).0.push(name@), zip_written(*old(w)).1.push(
            Seq::<u8>::empty(),
        )),
        r is Ok ==> zip_writing(*final(w)),
        r is Ok ==> zip_all_stored(*final(w)) == (zip_all_stored(*old(w)) && stored),
        (zip_all_stored(*old(w)) && !zip_written(*old(w)).0.contains(name@)) ==> r is Ok,
{
    let method = if stored {
        zip::CompressionMethod::Stored
    } else {
        zip::CompressionMethod::Deflated
    };
    let options = zip::write::SimpleFileOptions::default().compression_method(method);
    w.writer.start_file(name, options)
}

/// Calls `Write::write_all` on the writer: on success `bytes` follow what
/// was already written into the file last started. In memory it is refused
/// only when no file is open, or when the open file would pass 4 GiB
/// (`u32::MAX` bytes) without the large-file option.
#[verifier::external_body]
fn write_bytes(w: &mut ZipBuffer, bytes: &[u8]) -> (r: Result<(), std::io::Error>)
    requires
        zip_written(*old(w)).1.len() > 0,
    ensures
        r is Ok ==> zip_written(*final(w)) == (zip_written(*old(w)).0, zip_written(*old(w)).1.update(
            zip_written(*old(w)).1.len() - 1,
            zip_written(*old(w)).1.last() + bytes@,
        )),
        r is Ok ==> zip_writing(*final(w)) == zip_writing(*old(w)),
        r is Ok ==> zip_all_stored(*final(w)) == zip_all_stored(*old(w)),
        (zip_writing(*old(w)) && zip_written(*old(w)).1.last().len() + bytes@.len() <= u32::MAX) ==> r is Ok,
{
    w.writer.write_all(bytes)
}

/// Calls `ZipWriter::finish` and takes the written buffer out of its cursor:
/// reading the finished archive back gives the files written, in order,
/// each readable with its bytes. In memory it is refused only when closing
/// the last file finds its compressed size past the 4 GiB limit, which
/// cannot happen while every file is stored.
#[verifier::external_body]
fn finish_writer(w: ZipBuffer) -> (r: Result<Vec<u8>, zip::result::ZipError>)
    ensures
        r matches Ok(b) ==> zip_read(b@) == Some(
            (zip_written(w).0, zip_written(w).1.map_values(|c: Seq<u8>| Some(c))),
        ),
        zip_all_stored(w) ==> r is Ok,
{
    let cursor = w.writer.finish()?;
    Ok(cursor.into_inner())
}

spec fn written_names(s: Seq<(String, Vec<u8>)>) -> Seq<Seq<char>> {
    s.map_values(|e: (String, Vec<u8>)| e.0@)
}

spec fn written_contents(s: Seq<(String, Vec<u8>)>) -> Seq<Seq<u8>> {
    s.map_values(|e: (String, Vec<u8>)| e.1@)
}

/// Packages named byte blobs into a ZIP archive, in the given order, stored
/// uncompressed when `store_uncompressed` and deflated otherwise. Names must
/// already be `/`-separated, and each must fit a header's 16-bit name
/// length. The archive's bytes carry the time of writing; what is stated of
/// them is that reading them back lists exactly these files, in this order,
/// with these bytes. Stored, it succeeds whenever no two names are equal
/// and no blob passes 4 GiB; a failure is `zip`'s or the writer's.
pub fn write_zip(entries: &Vec<(String, Vec<u8>)>, store_uncompressed: bool) -> (r: Result<Vec<u8>, Error>)
    requires
        names_fit(named_views(entries@)),
    ensures
        r matches Ok(b) ==> zip_read(b@) == Some(listing(named_views(entries@))),
        (store_uncompressed && distinct_names(named_views(entries@)) && sizes_fit(named_views(entries@))) ==> r is Ok,
        r matches Err(e) ==> (e is Archive || e is Io),
{
    let ghost views = named_views(entries@);
    let ghost good = store_uncompressed && distinct_names(views) && sizes_fit(views);
    let mut writer = new_writer();
    let n = entries.len();
    for i in 0..n
        invariant
            n == entries@.len(),
            views == named_views(entries@),
            good == (store_uncompressed && distinct_names(views) && sizes_fit(views)),
            names_fit(views),
            store_uncompressed ==> zip_all_stored(writer),
            zip_written(writer) == (written_names(entries@.take(i as int)), written_contents(entries@.take(i as int))),
    {
        let (name, bytes) = &entries[i];
        let ghost before = zip_written(writer);
        assert(views[i as int] == (name@, bytes@));
        assert(utf8_len(name@) <= u16::MAX);
        match start_file(&mut writer, name.as_str(), store_uncompressed) {
            Ok(()) => {},
            Err(e) => {
                proof {
                    if good {
                        assert(before.0.contains(name@));
                        let k = choose|k: int| 0 <= k < before.0.len() && before.0[k] == name@;
                        assert(views[k] == (entries@[k].0@, entries@[k].1@));
                        assert(views[k].0 == views[i as int].0);
                    }
                }
                return Err(Error::Archive(e));
            },
        }
        let ghost started = zip_written(writer);
        assert(started.1.len() == before.1.len() + 1);
        assert(started.1.last() == Seq::<u8>::empty());
        match write_bytes(&mut writer, bytes.as_slice()) {
            Ok(()) => {},
            Err(e) => {
                proof {
                    if good {
                        assert(views[i as int].1.len() <= u32::MAX);
                    }
                }
                return Err(Error::Io(e));
            },
        }
        proof {
            let t = entries@.take(i + 1);
            assert(t =~= entries@.take(i as int).push(entries@[i as int]));
            assert(written_names(t) =~= written_names(entries@.take(i as int)).push(name@));
            assert(Seq::<u8>::empty() + bytes@ =~= bytes@);
            assert(written_contents(t) =~= written_contents(entries@.take(i as int)).push(bytes@));
            assert(zip_written(writer).1 =~= written_contents(t));
        }
    }
    assert(entries@.take(n as int) =~= entries@);
    let ghost done = zip_written(writer);
    assert(listing(views).0 =~= done.0);
    assert(listing(views).1 =~= done.1.map_values(|c: Seq<u8>| Some(c)));
    match finish_writer(writer) {
        Ok(b) => Ok(b),
        Err(e) => Err(Error::Archive(e)),
    }
}

} // verus!
