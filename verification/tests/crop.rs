use mangapress::crop::page_number::{group_close_values, Tolerance};
use mangapress::crop::{apply_crop, apply_policy, apply_preserve_margin, get_bbox, ignore_pixels_near_edge, Bbox, CropBox, CropPolicy};
use mangapress::gray::GrayImage;

const EDGE_TEST_DIM: u32 = 1000;

fn five() -> Tolerance {
    Tolerance { num: 5, den: 1 }
}

#[test]
fn mod_group_close_values_merges_within_tolerance_and_splits_beyond_it() {
    assert_eq!(group_close_values(&[1, 2, 3, 100, 101], five()), vec![(1, 3), (101, 101)]);
}

#[test]
fn mod_group_close_values_of_empty_input_is_empty() {
    assert_eq!(group_close_values(&[], five()), vec![]);
}

#[test]
fn page_number_group_close_values_merges_within_tolerance_and_splits_beyond_it() {
    assert_eq!(group_close_values(&[1, 2, 3, 100, 101], five()), vec![(1, 3), (101, 101)]);
}

#[test]
fn page_number_group_close_values_of_empty_input_is_empty() {
    assert_eq!(group_close_values(&[], five()), vec![]);
}

#[test]
fn default_power_matches_kcc_default() {
    assert_eq!(CropPolicy::default().threshold, 176);
}

#[test]
fn get_bbox_of_blank_image_is_none() {
    let img = GrayImage::from_pixel(20, 20, 0);
    assert_eq!(get_bbox(&img), None);
}

#[test]
fn get_bbox_finds_tight_rectangle() {
    let mut img = GrayImage::from_pixel(20, 20, 0);
    for y in 5..10 {
        for x in 3..8 {
            img.put_pixel(x, y, 255);
        }
    }
    assert_eq!(get_bbox(&img), Some(Bbox { left: 3, top: 5, right: 8, bottom: 10 }));
}

#[test]
fn ignore_pixels_near_edge_clears_sparse_border_noise() {
    let mut img = GrayImage::from_pixel(EDGE_TEST_DIM, EDGE_TEST_DIM, 0);
    img.put_pixel(500, 0, 255);
    ignore_pixels_near_edge(&mut img);
    assert_eq!(img.get_pixel(500, 0), 0);
}

#[test]
fn ignore_pixels_near_edge_keeps_dense_border_content() {
    let mut img = GrayImage::from_pixel(EDGE_TEST_DIM, EDGE_TEST_DIM, 0);
    for y in 0..30 {
        for x in 0..EDGE_TEST_DIM {
            img.put_pixel(x, y, 255);
        }
    }
    ignore_pixels_near_edge(&mut img);
    assert_eq!(img.get_pixel(500, 0), 255);
}

#[test]
fn mod_large_margin_is_capped_to_ten_percent() {
    let bbox = Bbox { left: 60, top: 90, right: 140, bottom: 210 };
    let crop = apply_policy(bbox, (200, 300), &CropPolicy::default()).expect("a crop should be produced");
    assert_eq!(crop, CropBox { left: 20, top: 30, right: 180, bottom: 270 });
}

#[test]
fn mod_minimum_area_ratio_suppresses_crop_when_too_aggressive() {
    let bbox = Bbox { left: 60, top: 90, right: 140, bottom: 210 };
    let crop = apply_policy(bbox, (200, 300), &CropPolicy { minimum_area_percent: 90, ..CropPolicy::default() });
    assert_eq!(crop, None);
}

#[test]
fn preserve_margin_backs_off_the_crop() {
    let full = CropBox { left: 20, top: 30, right: 180, bottom: 270 };
    let backed_off = apply_preserve_margin(full, (200, 300), 50);
    assert_eq!(backed_off, CropBox { left: 10, top: 15, right: 190, bottom: 285 });
}

#[test]
fn preserve_margin_zero_is_identity() {
    let full = CropBox { left: 20, top: 30, right: 180, bottom: 270 };
    assert_eq!(apply_preserve_margin(full, (200, 300), 0), full);
}

#[test]
fn apply_crop_produces_expected_dimensions() {
    let img = GrayImage::from_pixel(200, 300, 255);
    let cropped = apply_crop(&img, CropBox { left: 20, top: 30, right: 180, bottom: 270 });
    assert_eq!(cropped.dimensions(), (160, 240));
}

#[test]
fn small_bbox_within_the_cap_is_kept_and_minimum_exactly_met_passes() {
    let bbox = Bbox { left: 5, top: 5, right: 195, bottom: 295 };
    let crop = apply_policy(bbox, (200, 300), &CropPolicy::default()).unwrap();
    assert_eq!(crop, CropBox { left: 5, top: 5, right: 195, bottom: 295 });
    // (190 * 290) / 60000 = 91.83%: 91 passes, 92 does not.
    let p91 = CropPolicy { minimum_area_percent: 91, ..CropPolicy::default() };
    let p92 = CropPolicy { minimum_area_percent: 92, ..CropPolicy::default() };
    assert!(apply_policy(bbox, (200, 300), &p91).is_some());
    assert!(apply_policy(bbox, (200, 300), &p92).is_none());
}

#[test]
fn preserve_margin_above_one_hundred_acts_as_one_hundred() {
    let full = CropBox { left: 20, top: 30, right: 180, bottom: 270 };
    let all = CropBox { left: 0, top: 0, right: 200, bottom: 300 };
    assert_eq!(apply_preserve_margin(full, (200, 300), 100), all);
    assert_eq!(apply_preserve_margin(full, (200, 300), 250), all);
}

#[test]
fn apply_crop_clamps_a_box_reaching_past_the_edges() {
    let mut img = GrayImage::from_pixel(10, 8, 255);
    img.put_pixel(9, 7, 3);
    let cropped = apply_crop(&img, CropBox { left: 6, top: 5, right: 20, bottom: 30 });
    assert_eq!(cropped.dimensions(), (4, 3));
    assert_eq!(cropped.get_pixel(3, 2), 3);
    let outside = apply_crop(&img, CropBox { left: 12, top: 2, right: 15, bottom: 4 });
    assert_eq!(outside.dimensions(), (0, 2));
}
