use mangapress::archive::SourceEntry;
use mangapress::error::Error;
use mangapress::metadata::{comic_info_from_nodes, extract_comic_info_entry, parse_comic_info_xml, resolve, ComicInfo, MetadataTitleMode, XmlAttribute, XmlNode};
use mangapress::text::trim_str;

const SAMPLE_XML: &str = r#"<?xml version="1.0" encoding="utf-8"?>
<ComicInfo xmlns:xsd="http://www.w3.org/2001/XMLSchema" xmlns:xsi="http://www.w3.org/2001/XMLSchema-instance">
  <Series>Chainsaw Man</Series>
  <Volume>1</Volume>
  <Number>001</Number>
  <Title>A Dog and a Chainsaw</Title>
  <Summary>Denji fights devils.</Summary>
  <Writer>Tatsuki Fujimoto</Writer>
  <Penciller>Tatsuki Fujimoto, Someone Else</Penciller>
  <Pages>
    <Page Image="0" />
    <Page Image="5" Bookmark="Chapter 2" />
    <Page Image="12" Bookmark="Chapter 3" />
  </Pages>
</ComicInfo>"#;

#[test]
fn parses_scalar_fields() {
    let info = parse_comic_info_xml(SAMPLE_XML).unwrap();
    assert_eq!(info.series.as_deref(), Some("Chainsaw Man"));
    assert_eq!(info.volume.as_deref(), Some("1"));
    assert_eq!(info.number.as_deref(), Some("001"));
    assert_eq!(info.title.as_deref(), Some("A Dog and a Chainsaw"));
    assert_eq!(info.summary.as_deref(), Some("Denji fights devils."));
}

#[test]
fn dedupes_and_sorts_people_lists() {
    let info = parse_comic_info_xml(SAMPLE_XML).unwrap();
    assert_eq!(info.writers, vec!["Tatsuki Fujimoto".to_string()]);
    assert_eq!(info.pencillers, vec!["Someone Else".to_string(), "Tatsuki Fujimoto".to_string()]);
}

#[test]
fn missing_fields_are_none_not_empty_string() {
    let info = parse_comic_info_xml("<ComicInfo></ComicInfo>").unwrap();
    assert_eq!(info.series, None);
    assert!(info.writers.is_empty());
}

#[test]
fn parses_only_pages_with_both_image_and_bookmark() {
    let info = parse_comic_info_xml(SAMPLE_XML).unwrap();
    assert_eq!(info.bookmarks, vec![(5, "Chapter 2".to_string()), (12, "Chapter 3".to_string())]);
}

#[test]
fn resolve_falls_back_to_provided_title_and_unknown_author_with_no_comicinfo() {
    let resolved = resolve(None, None, None, "My Folder Name", MetadataTitleMode::SeriesOnly);
    assert_eq!(resolved.title, "My Folder Name");
    assert_eq!(resolved.authors, vec!["Unknown".to_string()]);
}

#[test]
fn resolve_series_only_mode_builds_series_plus_volume_and_number() {
    let info = parse_comic_info_xml(SAMPLE_XML).unwrap();
    let resolved = resolve(Some(&info), None, None, "fallback", MetadataTitleMode::SeriesOnly);
    assert_eq!(resolved.title, "Chainsaw Man Vol. 01 #001");
}

#[test]
fn resolve_combine_mode_appends_the_xml_title() {
    let info = parse_comic_info_xml(SAMPLE_XML).unwrap();
    let resolved = resolve(Some(&info), None, None, "fallback", MetadataTitleMode::Combine);
    assert_eq!(resolved.title, "Chainsaw Man Vol. 01 #001: A Dog and a Chainsaw");
}

#[test]
fn resolve_title_only_mode_overrides_even_an_explicit_user_title() {
    let info = parse_comic_info_xml(SAMPLE_XML).unwrap();
    let resolved =
        resolve(Some(&info), Some("User Provided Title"), None, "fallback", MetadataTitleMode::TitleOnly);
    assert_eq!(resolved.title, "A Dog and a Chainsaw");
}

#[test]
fn resolve_never_touches_an_explicit_user_title_outside_title_only_mode() {
    let info = parse_comic_info_xml(SAMPLE_XML).unwrap();
    let resolved =
        resolve(Some(&info), Some("User Provided Title"), None, "fallback", MetadataTitleMode::Combine);
    assert_eq!(resolved.title, "User Provided Title");
}

#[test]
fn resolve_never_touches_an_explicit_user_author() {
    let info = parse_comic_info_xml(SAMPLE_XML).unwrap();
    let resolved = resolve(Some(&info), None, Some("Explicit Author"), "fallback", MetadataTitleMode::SeriesOnly);
    assert_eq!(resolved.authors, vec!["Explicit Author".to_string()]);
}

#[test]
fn resolve_builds_author_list_from_all_role_fields_when_not_overridden() {
    let info = parse_comic_info_xml(SAMPLE_XML).unwrap();
    let resolved = resolve(Some(&info), None, None, "fallback", MetadataTitleMode::SeriesOnly);
    assert_eq!(resolved.authors, vec!["Someone Else".to_string(), "Tatsuki Fujimoto".to_string()]);
}

#[test]
fn extract_comic_info_entry_removes_only_the_root_level_file() {
    let mut entries = vec![
        SourceEntry { relative_path: "ComicInfo.xml".to_string(), bytes: b"root".to_vec() },
        SourceEntry { relative_path: "c001/ComicInfo.xml".to_string(), bytes: b"nested".to_vec() },
        SourceEntry { relative_path: "c001/p0001.jpg".to_string(), bytes: b"page".to_vec() },
    ];
    let extracted = extract_comic_info_entry(&mut entries);
    assert_eq!(extracted, Some(b"root".to_vec()));
    assert_eq!(entries.len(), 2);
    assert!(entries.iter().any(|e| e.relative_path == "c001/ComicInfo.xml"));
}

#[test]
fn extract_comic_info_entry_returns_none_when_absent() {
    let mut entries: Vec<SourceEntry> = Vec::new();
    assert_eq!(extract_comic_info_entry(&mut entries), None);
}

#[test]
fn malformed_xml_is_a_comic_info_error() {
    assert!(matches!(parse_comic_info_xml("<ComicInfo>"), Err(Error::ComicInfo(_))));
}

#[test]
fn people_lists_are_split_trimmed_and_empty_pieces_dropped() {
    let info = parse_comic_info_xml("<ComicInfo><Inker> b ,  a, , b</Inker><Colorist>   </Colorist></ComicInfo>").unwrap();
    assert_eq!(info.inkers, vec!["a".to_string(), "b".to_string()]);
    assert!(info.colorists.is_empty());
}

#[test]
fn bookmark_needs_a_valid_page_number_and_a_name() {
    let xml = r#"<ComicInfo><Pages><Page Image="+7" Bookmark="A"/><Page Image="x" Bookmark="B"/><Page Image="4294967296" Bookmark="C"/><Page Image="3" Bookmark=""/><Page Image="4294967295" Bookmark="D"/></Pages></ComicInfo>"#;
    let info = parse_comic_info_xml(xml).unwrap();
    assert_eq!(info.bookmarks, vec![(7, "A".to_string()), (u32::MAX, "D".to_string())]);
}

#[test]
fn series_title_pads_volume_and_number_and_uses_fallback_without_series() {
    let mut info = ComicInfo::empty();
    info.volume = Some("123".to_string());
    info.number = Some("7".to_string());
    let resolved = resolve(Some(&info), None, None, "Folder", MetadataTitleMode::Combine);
    assert_eq!(resolved.title, "Folder Vol. 123 #007");
    assert_eq!(resolved.authors, vec!["Unknown".to_string()]);
    assert_eq!(resolved.summary, None);
}

#[test]
fn root_file_is_matched_by_path_components() {
    let mut entries = vec![
        SourceEntry { relative_path: "./ComicInfo.xml".to_string(), bytes: b"dot".to_vec() },
        SourceEntry { relative_path: "ComicInfo.xml/".to_string(), bytes: b"x".to_vec() },
        SourceEntry { relative_path: "ComicInfo.xml".to_string(), bytes: b"y".to_vec() },
    ];
    assert_eq!(extract_comic_info_entry(&mut entries), Some(b"x".to_vec()));
    assert_eq!(entries.len(), 2);
    assert_eq!(entries[0].bytes, b"dot");
}

fn element(tag: &str, text: Option<&str>, attributes: Vec<XmlAttribute>) -> XmlNode {
    XmlNode { is_element: true, tag: tag.to_string(), text: text.map(|t| t.to_string()), attributes }
}

fn attribute(name: &str, value: &str) -> XmlAttribute {
    XmlAttribute { namespace: None, name: name.to_string(), value: value.to_string() }
}

#[test]
fn comic_info_from_nodes_reads_the_first_element_of_each_name() {
    let nodes = vec![
        element("ComicInfo", None, Vec::new()),
        element("Series", Some("  Dorohedoro \n"), Vec::new()),
        element("Series", Some("Second"), Vec::new()),
        element("Title", Some("   "), Vec::new()),
        element("Writer", Some("Q Hayashida, , A Person"), Vec::new()),
        element("Page", None, vec![attribute("Image", "3"), attribute("Bookmark", "Chapter 2")]),
    ];
    let info = comic_info_from_nodes(&nodes);
    assert_eq!(info.series.as_deref(), Some("Dorohedoro"));
    assert_eq!(info.title, None);
    assert_eq!(info.volume, None);
    assert_eq!(info.writers, vec!["A Person".to_string(), "Q Hayashida".to_string()]);
    assert_eq!(info.bookmarks, vec![(3, "Chapter 2".to_string())]);
}

#[test]
fn trim_str_drops_unicode_white_space_at_both_ends() {
    assert_eq!(trim_str("\u{3000} a b\t\n"), "a b");
    assert_eq!(trim_str(" \u{a0} "), "");
    assert_eq!(trim_str("x"), "x");
}

#[test]
fn extract_comic_info_entry_leaves_an_absolute_path_alone() {
    let mut entries = vec![SourceEntry { relative_path: "/ComicInfo.xml".to_string(), bytes: b"abs".to_vec() }];
    assert_eq!(extract_comic_info_entry(&mut entries), None);
    assert_eq!(entries.len(), 1);
}
