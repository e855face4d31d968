use mangapress::contrast::{autolevel, cutoff_bounds, extrema, should_autocontrast};
use mangapress::gray::GrayImage;

fn from_fn(w: u32, h: u32, f: impl Fn(u32, u32) -> u8) -> GrayImage {
    let mut data = Vec::new();
    for y in 0..h {
        for x in 0..w {
            data.push(f(x, y));
        }
    }
    GrayImage::from_raw(w, h, data).unwrap()
}

#[test]
fn autolevel_clamps_pixels_below_the_common_dark_floor() {
    let mut img = GrayImage::from_pixel(10, 10, 20);
    img.put_pixel(0, 0, 5);
    img.put_pixel(1, 0, 200);
    let out = autolevel(&img);
    assert_eq!(out.get_pixel(0, 0), 20, "pixel darker than the floor should be lifted");
    assert_eq!(out.get_pixel(1, 0), 200, "pixel brighter than the floor is untouched");
    assert_eq!(out.get_pixel(5, 5), 20, "pixels at the floor are untouched");
}

#[test]
fn autolevel_breaks_ties_by_taking_the_first_index() {
    let img = from_fn(5, 1, |x, _| match x {
        0 | 1 => 3,
        2 | 3 => 40,
        _ => 1,
    });
    let out = autolevel(&img);
    assert_eq!(out.get_pixel(4, 0), 3, "black point should resolve to the first tied bin (3), not 40");
}

#[test]
fn low_contrast_images_are_not_stretched() {
    let narrow = from_fn(2, 1, |x, _| if x == 0 { 100 } else { 150 });
    assert_eq!(extrema(&narrow), (100, 150));
    assert!(!should_autocontrast(&narrow));
    let wide = from_fn(2, 1, |x, _| if x == 0 { 50 } else { 220 });
    assert!(should_autocontrast(&wide));
}

#[test]
fn cutoff_bounds_trim_outliers() {
    let mut img = GrayImage::from_pixel(10, 10, 128);
    img.put_pixel(0, 0, 0);
    img.put_pixel(1, 0, 255);
    assert_eq!(cutoff_bounds(&img, 0), Some((0, 255)));
    assert_eq!(cutoff_bounds(&img, 5), None);
}
