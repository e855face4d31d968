use mangapress::archive::SourceEntry;
use mangapress::ebook::cbz_out::{build_cbz, cbz_entries};
use mangapress::codec::encode_page;
use mangapress::ebook::epub::{build_epub, EpubOptions};
use mangapress::ebook::pdf::{book_page_images, pdf_page_order};
use mangapress::gray::GrayImage;
use mangapress::ebook::{group_into_chapters, Chapter, Page};
use mangapress::error::Error;
use mangapress::manga::ReadingDirection;

fn entry(path: &str, bytes: &[u8]) -> SourceEntry {
    SourceEntry { relative_path: path.to_string(), bytes: bytes.to_vec() }
}

fn chapter(title: &str, pages: usize) -> Chapter {
    Chapter {
        relative_path: title.to_string(),
        title: title.to_string(),
        pages: (0..pages).map(|_| Page { extension: "jpg".to_string(), bytes: b"fake-jpeg".to_vec() }).collect(),
    }
}

#[test]
fn groups_entries_by_parent_directory() {
    let entries = vec![
        entry("c001 - Title One/p0001.jpg", b"a"),
        entry("c001 - Title One/p0002.png", b"b"),
        entry("c002 - Title Two/p0001.jpg", b"c"),
    ];
    let chapters = group_into_chapters(entries);
    assert_eq!(chapters.len(), 2);
    assert_eq!(chapters[0].title, "c001 - Title One");
    assert_eq!(chapters[0].pages.len(), 2);
    assert_eq!(chapters[0].pages[0].extension, "jpg");
    assert_eq!(chapters[0].pages[1].extension, "png");
    assert_eq!(chapters[1].title, "c002 - Title Two");
    assert_eq!(chapters[1].pages.len(), 1);
}

#[test]
fn distinguishes_same_named_directories_at_different_paths() {
    let entries = vec![entry("VolumeA/Extras/p0001.jpg", b"a"), entry("VolumeB/Extras/p0001.jpg", b"b")];
    let chapters = group_into_chapters(entries);
    assert_eq!(chapters.len(), 2);
    assert_ne!(chapters[0].relative_path, chapters[1].relative_path);
}

#[test]
fn root_level_pages_form_an_untitled_chapter_with_lowercased_extensions() {
    let chapters = group_into_chapters(vec![entry("P1.JPG", b"a"), entry("p2", b"b")]);
    assert_eq!(chapters.len(), 1);
    assert_eq!(chapters[0].title, "Untitled");
    assert_eq!(chapters[0].relative_path, "");
    assert_eq!(chapters[0].pages[0].extension, "jpg");
    assert_eq!(chapters[0].pages[1].extension, "");
}

#[test]
fn a_leading_dot_directory_is_its_own_untitled_chapter() {
    let chapters = group_into_chapters(vec![entry("./p1.jpg", b"a"), entry("p2.jpg", b"b")]);
    assert_eq!(chapters.len(), 2);
    assert_eq!(chapters[0].relative_path, ".");
    assert_eq!(chapters[0].title, "Untitled");
    assert_eq!(chapters[1].relative_path, "");
}

#[test]
fn returning_to_an_earlier_directory_starts_a_new_chapter() {
    let chapters =
        group_into_chapters(vec![entry("a/1.jpg", b"1"), entry("b/1.jpg", b"2"), entry("a/2.jpg", b"3")]);
    assert_eq!(chapters.len(), 3);
    assert_eq!(chapters[2].title, "a");
    assert_eq!(chapters[2].pages[0].bytes, b"3");
}

#[test]
fn empty_chapters_are_rejected() {
    assert!(matches!(build_cbz(&[], None), Err(Error::EmptyBook)));
}

#[test]
fn empty_chapters_with_comicinfo_are_still_rejected() {
    assert!(matches!(build_cbz(&[], Some(b"<ComicInfo/>")), Err(Error::EmptyBook)));
}

#[test]
fn builds_one_folder_per_chapter() {
    let chapters = vec![chapter("c001 - One", 2), chapter("c002 - Two", 1)];
    let bytes = build_cbz(&chapters, None).unwrap();
    let mut archive = zip::ZipArchive::new(std::io::Cursor::new(bytes)).unwrap();
    let names: Vec<String> = (0..archive.len()).map(|i| archive.by_index(i).unwrap().name().to_string()).collect();
    assert_eq!(names, vec!["c001 - One/p0001.jpg", "c001 - One/p0002.jpg", "c002 - Two/p0001.jpg"]);
}

#[test]
fn slashes_in_titles_are_sanitized() {
    let chapters = vec![chapter("c001 - A/B", 1)];
    let bytes = build_cbz(&chapters, None).unwrap();
    let mut archive = zip::ZipArchive::new(std::io::Cursor::new(bytes)).unwrap();
    assert_eq!(archive.by_index(0).unwrap().name(), "c001 - A-B/p0001.jpg");
}

#[test]
fn keepcomicinfo_embeds_the_original_bytes_at_the_root() {
    let chapters = vec![chapter("c001 - One", 1)];
    let bytes = build_cbz(&chapters, Some(b"<ComicInfo><Series>Test</Series></ComicInfo>")).unwrap();
    let mut archive = zip::ZipArchive::new(std::io::Cursor::new(bytes)).unwrap();
    assert_eq!(archive.by_index(0).unwrap().name(), "ComicInfo.xml");
    let mut contents = String::new();
    std::io::Read::read_to_string(&mut archive.by_name("ComicInfo.xml").unwrap(), &mut contents).unwrap();
    assert_eq!(contents, "<ComicInfo><Series>Test</Series></ComicInfo>");
}

#[test]
fn entry_names_pad_page_numbers_to_four_digits_and_keep_longer_ones() {
    let entries = cbz_entries(&[chapter("x\\y", 10)], None);
    assert_eq!(entries[0].0, "x-y/p0001.jpg");
    assert_eq!(entries[9].0, "x-y/p0010.jpg");
    let many = cbz_entries(&[chapter("big", 10000)], None);
    assert_eq!(many[9999].0, "big/p10000.jpg");
    assert_eq!(many[9999].1, b"fake-jpeg");
}

#[test]
fn pdf_pages_run_chapter_after_chapter() {
    let chapters = vec![chapter("a", 2), chapter("empty", 0), chapter("b", 1)];
    assert_eq!(pdf_page_order(&chapters).unwrap(), vec![(0, 0), (0, 1), (2, 0)]);
    assert!(matches!(pdf_page_order(&[chapter("empty", 0)]), Err(Error::EmptyBook)));
}

#[test]
fn epub_page_progression_follows_reading_direction() {
    assert_eq!(ReadingDirection { right_to_left: true }.epub_page_progression(), "rtl");
    assert_eq!(ReadingDirection { right_to_left: false }.epub_page_progression(), "ltr");
}

fn png_chapter(sizes: &[(u32, u32)]) -> Chapter {
    Chapter {
        relative_path: "c001".to_string(),
        title: "c001".to_string(),
        pages: sizes
            .iter()
            .map(|&(w, h)| Page { extension: "png".to_string(), bytes: encode_page(&GrayImage::from_pixel(w, h, 128), true, 90).unwrap().1 })
            .collect(),
    }
}

#[test]
fn book_page_images_refuse_an_empty_book() {
    assert!(matches!(book_page_images(&[]), Err(Error::EmptyBook)));
    assert!(matches!(book_page_images(&[chapter("c001", 0)]), Err(Error::EmptyBook)));
}

#[test]
fn book_page_images_decode_every_page_in_order() {
    let chapters = vec![png_chapter(&[(300, 150), (80, 200)]), png_chapter(&[(10, 20)])];
    let images = book_page_images(&chapters).unwrap();
    let dims: Vec<(u32, u32)> = images.iter().map(|i| i.dimensions()).collect();
    assert_eq!(dims, vec![(300, 150), (80, 200), (10, 20)]);
    assert_eq!(images[2].get_pixel(5, 5), 128);
}

#[test]
fn book_page_images_stop_at_a_page_that_does_not_decode() {
    assert!(matches!(book_page_images(&[chapter("c001", 1)]), Err(Error::Image(_))));
}

#[test]
fn chapters_under_the_root_keep_it_in_their_path() {
    let chapters = group_into_chapters(vec![entry("/c1/p1.jpg", b"1"), entry("/p2.JPG", b"2")]);
    assert_eq!(chapters.len(), 2);
    assert_eq!(chapters[0].relative_path, "/c1");
    assert_eq!(chapters[0].title, "c1");
    assert_eq!(chapters[1].relative_path, "/");
    assert_eq!(chapters[1].title, "Untitled");
    assert_eq!(chapters[1].pages[0].extension, "jpg");
}

fn epub_options() -> EpubOptions {
    EpubOptions {
        title: "Tom & Jerry's".to_string(),
        author: "Someone".to_string(),
        language: "en".to_string(),
        reading_direction: ReadingDirection { right_to_left: true },
    }
}

fn read_entry(archive: &mut zip::ZipArchive<std::io::Cursor<Vec<u8>>>, name: &str) -> String {
    let mut text = String::new();
    std::io::Read::read_to_string(&mut archive.by_name(name).unwrap(), &mut text).unwrap();
    text
}

#[test]
fn epub_starts_with_mimetype_and_lists_every_page() {
    let mut first = png_chapter(&[(30, 40), (50, 60)]);
    first.title = "c001 - It's".to_string();
    let mut second = png_chapter(&[(70, 80)]);
    second.title = "c002 - <Two>".to_string();
    let bytes = build_epub(&[first, chapter("empty", 0), second], &epub_options()).unwrap();
    let mut archive = zip::ZipArchive::new(std::io::Cursor::new(bytes)).unwrap();
    let names: Vec<String> = (0..archive.len()).map(|i| archive.by_index(i).unwrap().name().to_string()).collect();
    assert_eq!(
        names,
        vec![
            "mimetype",
            "META-INF/container.xml",
            "OEBPS/content.opf",
            "OEBPS/toc.ncx",
            "OEBPS/nav.xhtml",
            "OEBPS/Text/p0001.xhtml",
            "OEBPS/Images/p0001.png",
            "OEBPS/Text/p0002.xhtml",
            "OEBPS/Images/p0002.png",
            "OEBPS/Text/p0003.xhtml",
            "OEBPS/Images/p0003.png",
        ]
    );
    assert_eq!(archive.by_index(0).unwrap().compression(), zip::CompressionMethod::Stored);
    assert_eq!(read_entry(&mut archive, "mimetype"), "application/epub+zip");
    let ncx = read_entry(&mut archive, "OEBPS/toc.ncx");
    assert_eq!(ncx.matches("<navPoint").count(), 2);
    assert!(ncx.contains("<text>c001 - It&apos;s</text></navLabel><content src=\"Text/p0001.xhtml\"/>"));
    assert!(ncx.contains("<text>c002 - &lt;Two&gt;</text></navLabel><content src=\"Text/p0003.xhtml\"/>"));
    assert!(ncx.contains("<docTitle><text>Tom &amp; Jerry&apos;s</text></docTitle>"));
    let opf = read_entry(&mut archive, "OEBPS/content.opf");
    assert!(opf.contains("page-progression-direction=\"rtl\""));
    assert!(opf.contains("<item id=\"img0001\" href=\"Images/p0001.png\" media-type=\"image/png\" properties=\"cover-image\"/>"));
    assert!(opf.contains("<dc:creator>Someone</dc:creator>"));
    let page = read_entry(&mut archive, "OEBPS/Text/p0002.xhtml");
    assert!(page.contains("content=\"width=50, height=60\""));
    assert!(page.contains("<img src=\"../Images/p0002.png\""));
    let nav = read_entry(&mut archive, "OEBPS/nav.xhtml");
    assert!(nav.contains("<li><a href=\"Text/p0003.xhtml\">c002 - &lt;Two&gt;</a></li>"));
}

#[test]
fn epub_refuses_a_book_without_pages() {
    assert!(matches!(build_epub(&[chapter("c001", 0)], &epub_options()), Err(Error::EmptyBook)));
}

#[test]
fn epub_refuses_a_page_that_does_not_decode() {
    assert!(matches!(build_epub(&[chapter("c001", 1)], &epub_options()), Err(Error::Image(_))));
}
