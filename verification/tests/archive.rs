use mangapress::archive::cbz::{extract_from_reader, path_to_entry_name, write_zip};
use mangapress::archive::{filter_image_entries, is_page_image_path, sort_entries, SourceEntry};
use std::io::{Cursor, Write};
use std::path::PathBuf;

fn entry(path: &str) -> SourceEntry {
    SourceEntry { relative_path: path.to_string(), bytes: Vec::new() }
}

fn sample_cbz() -> Vec<u8> {
    write_zip(
        &vec![
            ("c002 - Chapter Two/page001.jpg".to_string(), b"ch2-p1".to_vec()),
            ("c001 - Chapter One/page002.jpg".to_string(), b"ch1-p2".to_vec()),
            ("c001 - Chapter One/page010.jpg".to_string(), b"ch1-p10".to_vec()),
            ("c001 - Chapter One/page001.jpg".to_string(), b"ch1-p1".to_vec()),
        ],
        false,
    )
    .expect("building the sample cbz should succeed")
}

#[test]
fn keeps_recognized_image_extensions_case_insensitively() {
    let (kept, skipped) = filter_image_entries(vec![
        entry("c001/p0001.jpg"),
        entry("c001/p0002.JPEG"),
        entry("c001/p0003.png"),
    ]);
    assert_eq!(kept.len(), 3);
    assert_eq!(skipped, 0);
}

#[test]
fn drops_non_image_files() {
    let (kept, skipped) = filter_image_entries(vec![
        entry("c001/p0001.jpg"),
        entry("notes.txt"),
        entry("c001/ComicInfo.xml"),
        entry("Thumbs.db"),
    ]);
    assert_eq!(kept.len(), 1);
    assert_eq!(skipped, 3);
}

#[test]
fn drops_macos_resource_fork_sidecars() {
    let (kept, skipped) = filter_image_entries(vec![
        entry("c001/p0001.jpg"),
        entry("__MACOSX/c001/._p0001.jpg"),
        entry("c001/._p0002.jpg"),
    ]);
    assert_eq!(kept.len(), 1);
    assert_eq!(skipped, 2);
}

#[test]
fn extracts_every_file_with_correct_bytes() {
    let entries = extract_from_reader(sample_cbz()).unwrap();
    assert_eq!(entries.len(), 4);
    let by_name: std::collections::HashMap<_, _> =
        entries.iter().map(|e| (e.relative_path.replace('\\', "/"), &e.bytes)).collect();
    assert_eq!(by_name["c001 - Chapter One/page001.jpg"].as_slice(), b"ch1-p1");
    assert_eq!(by_name["c002 - Chapter Two/page001.jpg"].as_slice(), b"ch2-p1");
}

#[test]
fn extracted_entries_are_naturally_sorted() {
    let entries = extract_from_reader(sample_cbz()).unwrap();
    let names: Vec<String> = entries.iter().map(|e| e.relative_path.replace('\\', "/")).collect();
    assert_eq!(
        names,
        vec![
            "c001 - Chapter One/page001.jpg",
            "c001 - Chapter One/page002.jpg",
            "c001 - Chapter One/page010.jpg",
            "c002 - Chapter Two/page001.jpg",
        ]
    );
}

#[test]
fn directory_entries_are_skipped() {
    let mut buffer = Cursor::new(Vec::new());
    {
        let mut writer = zip::ZipWriter::new(&mut buffer);
        writer.add_directory("c001 - Chapter One/", zip::write::SimpleFileOptions::default()).unwrap();
        writer
            .start_file("c001 - Chapter One/page001.jpg", zip::write::SimpleFileOptions::default())
            .unwrap();
        writer.write_all(b"hello").unwrap();
        writer.finish().unwrap();
    }
    let entries = extract_from_reader(buffer.into_inner()).unwrap();
    assert_eq!(entries.len(), 1);
    assert_eq!(entries[0].bytes, b"hello");
}

#[test]
fn write_then_extract_round_trips_uncompressed() {
    let bytes = write_zip(&vec![("only.txt".to_string(), b"payload".to_vec())], true).unwrap();
    let entries = extract_from_reader(bytes).unwrap();
    assert_eq!(entries.len(), 1);
    assert_eq!(entries[0].bytes, b"payload");
}

#[test]
fn path_to_entry_name_uses_forward_slashes() {
    let path = PathBuf::from("c001 - Title").join("page001.jpg");
    assert_eq!(path_to_entry_name(path.to_str().unwrap()), "c001 - Title/page001.jpg");
}

#[test]
fn path_to_entry_name_drops_empty_and_inner_dot_segments() {
    assert_eq!(path_to_entry_name("a//b/./c.jpg/"), "a/b/c.jpg");
    assert_eq!(path_to_entry_name("./a/./b"), "./a/b");
}

#[test]
fn garbage_is_not_an_archive() {
    assert!(matches!(
        extract_from_reader(b"not a zip".to_vec()),
        Err(mangapress::error::Error::Archive(_))
    ));
}

#[test]
fn sorting_is_stable_for_paths_that_compare_equal() {
    let entries = vec![
        SourceEntry { relative_path: "c10/p1.jpg".to_string(), bytes: b"a".to_vec() },
        SourceEntry { relative_path: "c2/p01.jpg".to_string(), bytes: b"b".to_vec() },
        SourceEntry { relative_path: "c2/p1.jpg".to_string(), bytes: b"c".to_vec() },
        SourceEntry { relative_path: "c2/p1.jpg".to_string(), bytes: b"d".to_vec() },
    ];
    let sorted = sort_entries(entries);
    let bytes: Vec<&[u8]> = sorted.iter().map(|e| e.bytes.as_slice()).collect();
    assert_eq!(bytes, vec![&b"b"[..], &b"c"[..], &b"d"[..], &b"a"[..]]);
}

#[test]
fn page_image_test_needs_an_extension_outside_sidecars() {
    assert!(is_page_image_path("a/b.WebP"));
    assert!(!is_page_image_path("a/.png"));
    assert!(!is_page_image_path("a/png"));
    assert!(!is_page_image_path("x/__MACOSX/y.png"));
    assert!(is_page_image_path("x/__MACOSXY/y.gif"));
}

#[test]
fn write_zip_refuses_a_repeated_name() {
    let entries = vec![("a.txt".to_string(), b"one".to_vec()), ("a.txt".to_string(), b"two".to_vec())];
    assert!(write_zip(&entries, true).is_err());
}

#[test]
fn write_zip_reads_back_every_entry_in_order() {
    let entries = vec![
        ("z/p0002.jpg".to_string(), b"second".to_vec()),
        ("a.txt".to_string(), Vec::new()),
        ("z/p0001.jpg".to_string(), b"first".to_vec()),
    ];
    let bytes = write_zip(&entries, false).unwrap();
    let mut archive = zip::ZipArchive::new(Cursor::new(bytes)).unwrap();
    let names: Vec<String> = (0..archive.len()).map(|i| archive.by_index(i).unwrap().name().to_string()).collect();
    assert_eq!(names, vec!["z/p0002.jpg", "a.txt", "z/p0001.jpg"]);
    let mut contents = Vec::new();
    std::io::Read::read_to_end(&mut archive.by_index(0).unwrap(), &mut contents).unwrap();
    assert_eq!(contents, b"second".to_vec());
}

#[test]
fn extracting_what_write_zip_wrote_gives_it_back_in_path_order() {
    let entries = vec![
        ("b/p10.jpg".to_string(), b"ten".to_vec()),
        ("b/p2.jpg".to_string(), b"two".to_vec()),
        ("a.txt".to_string(), b"text".to_vec()),
    ];
    let bytes = write_zip(&entries, true).unwrap();
    let back = extract_from_reader(bytes).unwrap();
    let pairs: Vec<(String, Vec<u8>)> = back.into_iter().map(|e| (e.relative_path, e.bytes)).collect();
    assert_eq!(
        pairs,
        vec![
            ("a.txt".to_string(), b"text".to_vec()),
            ("b/p2.jpg".to_string(), b"two".to_vec()),
            ("b/p10.jpg".to_string(), b"ten".to_vec()),
        ]
    );
}

#[test]
fn path_to_entry_name_keeps_the_root() {
    assert_eq!(path_to_entry_name("/x"), "//x");
    assert_eq!(path_to_entry_name("a/./b//c"), "a/b/c");
}
