use mangapress::cli::{Cropping, Format, Splitter};
use mangapress::pipeline::{default_jpeg_quality, CroppingMode, OutputFormat, SplitterMode};
use mangapress::profile::Profile;
use mangapress::protocol::{event_header_fields, event_write_failure, event_write_failure_from_text, failure_fields, EventSink, EventValue, RunFailure};
use mangapress::text::to_lowercase;
use mangapress::resize::{choose_filter, ResizeFilter};

#[test]
fn scribe_and_colorsoft_profiles_default_to_90() {
    assert_eq!(default_jpeg_quality(&Profile::by_code("KS").unwrap()), 90);
    assert_eq!(default_jpeg_quality(&Profile::by_code("KCS").unwrap()), 90);
    assert_eq!(default_jpeg_quality(&Profile::by_code("KS3").unwrap()), 90);
}

#[test]
fn other_profiles_default_to_85() {
    assert_eq!(default_jpeg_quality(&Profile::by_code("KV").unwrap()), 85);
}

#[test]
fn downscale_uses_lanczos() {
    assert_eq!(choose_filter((2000, 3000), (1072, 1448)), ResizeFilter::Lanczos3);
}

#[test]
fn same_size_uses_bicubic_equivalent() {
    assert_eq!(choose_filter((1072, 1448), (1072, 1448)), ResizeFilter::CatmullRom);
}

#[test]
fn one_axis_too_large_still_uses_lanczos() {
    assert_eq!(choose_filter((1000, 1449), (1072, 1448)), ResizeFilter::Lanczos3);
}

#[test]
fn event_sequence_counts_up_from_one_when_enabled() {
    let mut sink = EventSink::new(true);
    assert!(sink.enabled());
    assert_eq!(sink.accept(true), Some(1));
    assert_eq!(sink.accept(true), Some(2));
    assert_eq!(sink.sequence(), 2);
    let mut off = EventSink::new(false);
    assert_eq!(off.accept(true), None);
    assert_eq!(off.sequence(), 0);
}

#[test]
fn refused_event_leaves_no_gap_in_the_sequence() {
    let mut sink = EventSink::new(true);
    assert_eq!(sink.accept(true), Some(1));
    assert_eq!(sink.accept(false), None);
    assert_eq!(sink.sequence(), 1);
    assert_eq!(sink.accept(true), Some(2));
}

#[test]
fn failure_fields_list_only_known_context() {
    let failure = RunFailure::new("page_failed", "process", true, "msg".to_string(), "diag".to_string())
        .with_chapter("c1".to_string())
        .with_page(3);
    let fields = failure_fields(&failure);
    let keys: Vec<&str> = fields.iter().map(|(k, _)| k.as_str()).collect();
    assert_eq!(keys, vec!["severity", "code", "stage", "recoverable", "message", "diagnostic", "chapter", "page"]);
    assert!(matches!(&fields[0].1, EventValue::Text(t) if t == "error"));
    assert!(matches!(&fields[3].1, EventValue::Flag(true)));
    assert!(matches!(&fields[7].1, EventValue::Count(3)));
    let full = failure.with_manga("m".to_string()).with_path("p".to_string());
    assert_eq!(failure_fields(&full).len(), 10);
}

#[test]
fn event_write_failure_reports_the_io_error() {
    let f = event_write_failure(std::io::Error::other("disk full"));
    assert_eq!(f.code, "event_write_failed");
    assert_eq!(f.stage, "protocol");
    assert!(!f.recoverable);
    assert_eq!(f.diagnostic, "writing JSON event: disk full");
}

#[test]
fn command_line_options_select_matching_modes() {
    assert_eq!(Cropping::MarginsAndPageNumbers.mode(), CroppingMode::MarginsAndPageNumbers);
    assert_eq!(Cropping::Disabled.mode(), CroppingMode::Disabled);
    assert_eq!(Splitter::Both.mode(), SplitterMode::Both);
    assert_eq!(Format::Pdf.output_format(), OutputFormat::Pdf);
    assert_eq!(Format::Cbz.extension(), "cbz");
}

#[test]
fn event_write_failure_from_text_appends_the_error_text() {
    let f = event_write_failure_from_text("boom");
    assert_eq!(f.code, "event_write_failed");
    assert_eq!(f.stage, "protocol");
    assert!(!f.recoverable);
    assert_eq!(f.message, "Couldn't write the machine-readable event stream.");
    assert_eq!(f.diagnostic, "writing JSON event: boom");
    assert!(f.manga.is_none() && f.volume.is_none() && f.chapter.is_none() && f.page.is_none() && f.path.is_none());
    assert_eq!(event_write_failure(std::io::Error::other("boom")).diagnostic, "writing JSON event: boom");
}

#[test]
fn every_event_carries_version_tool_sequence_and_type() {
    let fields = event_header_fields("page", 7, "1.2.3");
    let keys: Vec<&str> = fields.iter().map(|(k, _)| k.as_str()).collect();
    assert_eq!(keys, vec!["protocol_version", "tool", "tool_version", "sequence", "type"]);
    assert!(matches!(&fields[0].1, EventValue::Count(1)));
    assert!(matches!(&fields[1].1, EventValue::Text(t) if t == "mangapress"));
    assert!(matches!(&fields[2].1, EventValue::Text(t) if t == "1.2.3"));
    assert!(matches!(&fields[3].1, EventValue::Count(7)));
    assert!(matches!(&fields[4].1, EventValue::Text(t) if t == "page"));
}

#[test]
fn lowercasing_ascii_maps_only_capitals() {
    assert_eq!(to_lowercase("JPG"), "jpg");
    assert_eq!(to_lowercase("a-Z_9"), "a-z_9");
}
