use mangapress::codec::{decode_page, encode_page, prepare_page};
use mangapress::gray::GrayImage;
use mangapress::pipeline::spread::{decide, execute, rotate, split, Decision};
use mangapress::pipeline::SplitterMode;

const PORTRAIT_DEVICE: (u32, u32) = (1072, 1448);

fn from_fn(w: u32, h: u32, f: impl Fn(u32, u32) -> u8) -> GrayImage {
    let mut data = Vec::new();
    for y in 0..h {
        for x in 0..w {
            data.push(f(x, y));
        }
    }
    GrayImage::from_raw(w, h, data).unwrap()
}

fn landscape_page_with_left_right_halves() -> GrayImage {
    from_fn(200, 100, |x, _y| if x < 100 { 10 } else { 200 })
}

#[test]
fn narrow_landscape_page_is_not_a_spread() {
    assert_eq!(decide((1200, 1100), PORTRAIT_DEVICE, SplitterMode::Split), Decision::Normal);
}

#[test]
fn typical_two_page_spread_splits_by_default() {
    assert_eq!(decide((2000, 1448), PORTRAIT_DEVICE, SplitterMode::Split), Decision::Split);
}

#[test]
fn very_wide_spread_rotates_even_in_split_mode() {
    assert_eq!(decide((3000, 1448), PORTRAIT_DEVICE, SplitterMode::Split), Decision::Rotate);
}

#[test]
fn portrait_page_on_portrait_device_is_never_a_spread() {
    assert_eq!(decide((1072, 1448), PORTRAIT_DEVICE, SplitterMode::Split), Decision::Normal);
}

#[test]
fn split_of_landscape_image_is_vertical() {
    let img = landscape_page_with_left_right_halves();
    let (first, second) = split(&img, false);
    assert_eq!(first.dimensions(), (100, 100));
    assert_eq!(second.dimensions(), (100, 100));
    assert_eq!(first.get_pixel(0, 0), 10);
    assert_eq!(second.get_pixel(0, 0), 200);
}

#[test]
fn split_order_flips_for_manga_style() {
    let img = landscape_page_with_left_right_halves();
    let (first, _second) = split(&img, true);
    assert_eq!(first.get_pixel(0, 0), 200);
}

#[test]
fn split_of_portrait_image_is_horizontal() {
    let img = from_fn(100, 200, |_x, y| if y < 100 { 10 } else { 200 });
    let (first, second) = split(&img, false);
    assert_eq!(first.dimensions(), (100, 100));
    assert_eq!(first.get_pixel(0, 0), 10);
    assert_eq!(second.get_pixel(0, 0), 200);
}

#[test]
fn rotate_swaps_dimensions() {
    let img = GrayImage::from_pixel(200, 100, 0);
    assert_eq!(rotate(&img, false).dimensions(), (100, 200));
    assert_eq!(rotate(&img, true).dimensions(), (100, 200));
}

#[test]
fn rotate_direction_differs_between_default_and_rotateright() {
    let mut img = GrayImage::from_pixel(4, 2, 0);
    img.put_pixel(0, 0, 255);
    let default_rotated = rotate(&img, false);
    let right_rotated = rotate(&img, true);
    assert_ne!(default_rotated, right_rotated);
}

#[test]
fn execute_normal_produces_one_unchanged_page() {
    let img = GrayImage::from_pixel(10, 10, 42);
    let out = execute(&img, Decision::Normal, false, false);
    assert_eq!(out.len(), 1);
    assert_eq!(out[0].dimensions(), (10, 10));
}

#[test]
fn execute_split_produces_two_pages() {
    let img = landscape_page_with_left_right_halves();
    let out = execute(&img, Decision::Split, false, false);
    assert_eq!(out.len(), 2);
}

#[test]
fn execute_rotate_produces_one_rotated_page() {
    let img = GrayImage::from_pixel(200, 100, 0);
    let out = execute(&img, Decision::Rotate, false, false);
    assert_eq!(out.len(), 1);
    assert_eq!(out[0].dimensions(), (100, 200));
}

#[test]
fn execute_both_produces_three_pages() {
    let img = landscape_page_with_left_right_halves();
    let out = execute(&img, Decision::Both, false, false);
    assert_eq!(out.len(), 3);
}

#[test]
fn rotating_right_moves_the_top_left_corner_to_the_top_right() {
    let mut img = GrayImage::from_pixel(4, 2, 0);
    img.put_pixel(0, 0, 255);
    let right = rotate(&img, true);
    assert_eq!(right.get_pixel(1, 0), 255);
    let left = rotate(&img, false);
    assert_eq!(left.get_pixel(0, 3), 255);
    // A quarter turn each way gives back the starting image.
    assert_eq!(rotate(&right, false), img);
}

#[test]
fn spread_thresholds_are_exact() {
    // 116 x 100 is exactly 1.16: not a spread; 117 x 100 is.
    assert_eq!(decide((116, 100), PORTRAIT_DEVICE, SplitterMode::Split), Decision::Normal);
    assert_eq!(decide((117, 100), PORTRAIT_DEVICE, SplitterMode::Split), Decision::Split);
    // 180 x 100 is exactly 1.8: rotated.
    assert_eq!(decide((180, 100), PORTRAIT_DEVICE, SplitterMode::Split), Decision::Rotate);
    assert_eq!(decide((179, 100), PORTRAIT_DEVICE, SplitterMode::Both), Decision::Both);
    assert_eq!(decide((179, 100), PORTRAIT_DEVICE, SplitterMode::Rotate), Decision::Rotate);
    // A landscape page on a landscape device is never a spread.
    assert_eq!(decide((3000, 1000), (1448, 1072), SplitterMode::Split), Decision::Normal);
}

#[test]
fn prepared_pages_follow_the_spread_decision() {
    let img = image::GrayImage::from_fn(300, 100, |x, _| image::Luma([if x < 150 { 10 } else { 200 }]));
    let mut png = Vec::new();
    image::DynamicImage::ImageLuma8(img)
        .write_to(&mut std::io::Cursor::new(&mut png), image::ImageFormat::Png)
        .unwrap();
    let decoded = decode_page(&png).unwrap();
    assert_eq!(decoded.dimensions(), (300, 100));
    assert_eq!(decoded.get_pixel(200, 50), 200);
    // 3:1 is too wide to split: rotated.
    let pages = prepare_page(&png, PORTRAIT_DEVICE, SplitterMode::Split, false, false).unwrap();
    assert_eq!(pages.len(), 1);
    assert_eq!(pages[0].dimensions(), (100, 300));
    let (ext, bytes) = encode_page(&pages[0], false, 85).unwrap();
    assert_eq!(ext, "jpg");
    assert_eq!(image::load_from_memory(&bytes).unwrap().to_luma8().dimensions(), (100, 300));
    let (ext, bytes) = encode_page(&decoded, true, 85).unwrap();
    assert_eq!(ext, "png");
    assert_eq!(image::load_from_memory(&bytes).unwrap().to_luma8().get_pixel(200, 50)[0], 200);
    assert!(matches!(decode_page(b"not an image"), Err(mangapress::error::Error::Image(_))));
}
