use mangapress::crop::Background;
use mangapress::fill_check::{bbox_area, fill_check};
use mangapress::crop::Bbox;
use mangapress::gray::GrayImage;

fn from_fn(w: u32, h: u32, f: impl Fn(u32, u32) -> u8) -> GrayImage {
    let mut data = Vec::new();
    for y in 0..h {
        for x in 0..w {
            data.push(f(x, y));
        }
    }
    GrayImage::from_raw(w, h, data).unwrap()
}

fn page_with_rect(size: (u32, u32), background: u8, foreground: u8, rect: (u32, u32, u32, u32)) -> GrayImage {
    let (w, h) = size;
    let (l, t, r, b) = rect;
    from_fn(w, h, |x, y| if x >= l && x < r && y >= t && y < b { foreground } else { background })
}

#[test]
fn a_dark_blob_on_a_white_page_reads_as_white_background() {
    let img = page_with_rect((800, 1200), 255, 0, (100, 100, 700, 1100));
    assert_eq!(fill_check(&img), Background::White);
}

#[test]
fn a_light_blob_on_a_dark_page_reads_as_dark_background() {
    let img = page_with_rect((800, 1200), 0, 255, (100, 100, 700, 1100));
    assert_eq!(fill_check(&img), Background::Dark);
}

#[test]
fn a_uniformly_white_page_reads_as_white_background() {
    let img = GrayImage::from_pixel(400, 600, 255);
    assert_eq!(fill_check(&img), Background::White);
}

#[test]
fn a_uniformly_black_page_reads_as_dark_background() {
    let img = GrayImage::from_pixel(400, 600, 0);
    assert_eq!(fill_check(&img), Background::Dark);
}

#[test]
fn a_bbox_tie_falls_back_to_which_color_dominates_overall() {
    let (w, h) = (400u32, 400u32);
    let corners = [(0, 0), (w - 1, 0), (0, h - 1), (w - 1, h - 1)];
    let img = from_fn(w, h, |x, y| if corners.contains(&(x, y)) { 255 } else { 0 });
    assert_eq!(fill_check(&img), Background::Dark);
}

#[test]
fn bbox_area_is_width_times_height() {
    assert_eq!(bbox_area(Bbox { left: 3, top: 5, right: 8, bottom: 10 }), 25);
}
