//! Decoding source pages and encoding processed ones, through the `image`
//! crate's codecs, and the preparation of a decoded page into the pages a
//! spread decision turns it into.

use crate::error::Error;
use crate::gray::{GrayImage, GrayView};
use crate::pipeline::spread::{decide, decision_for, execute, execute_views};
use crate::pipeline::SplitterMode;
use image::ImageEncoder;
use vstd::prelude::*;

verus! {

/// What `image` decodes from encoded bytes (in whatever format it detects),
/// converted to 8-bit grayscale; `None` when it cannot decode them.
pub uninterp spec fn decoded_gray(bytes: Seq<u8>) -> Option<GrayView>;

/// What `image`'s JPEG encoder writes for an 8-bit grayscale image at a
/// quality; `None` when it refuses the image.
pub uninterp spec fn jpeg_encoding(data: Seq<u8>, width: u32, height: u32, quality: u8) -> Option<Seq<u8>>;

/// What `image`'s PNG encoder writes for an 8-bit grayscale image; `None`
/// when it refuses the image.
pub uninterp spec fn png_encoding(data: Seq<u8>, width: u32, height: u32) -> Option<Seq<u8>>;

/// Calls `image::load_from_memory` and `DynamicImage::to_luma8`, and takes
/// the grayscale buffer apart into its width, height and row-major pixels
/// (one byte per pixel).
#[verifier::external_body]
fn decode_luma(bytes: &[u8]) -> (r: Result<(u32, u32, Vec<u8>), image::ImageError>)
    ensures
        match r {
            Ok((w, h, d)) => d@.len() == w * h && decoded_gray(bytes@) == Some(
                GrayView { width: w as nat, height: h as nat, data: d@ },
            ),
            Err(_) => decoded_gray(bytes@) is None,
        },
{
    let img = image::load_from_memory(bytes)?.to_luma8();
    let (w, h) = img.dimensions();
    Ok((w, h, img.into_raw()))
}

/// Calls `JpegEncoder::new_with_quality` over an in-memory buffer and
/// `ImageEncoder::write_image` with 8-bit grayscale pixels.
#[verifier::external_body]
fn encode_jpeg(data: &[u8], width: u32, height: u32, quality: u8) -> (r: Result<Vec<u8>, image::ImageError>)
    requires
        data@.len() == width * height,
    ensures
        match r {
            Ok(b) => jpeg_encoding(data@, width, height, quality) == Some(b@),
            Err(_) => jpeg_encoding(data@, width, height, quality) is None,
        },
{
    let mut bytes = Vec::new();
    image::codecs::jpeg::JpegEncoder::new_with_quality(&mut std::io::Cursor::new(&mut bytes), quality)
        .write_image(data, width, height, image::ExtendedColorType::L8)?;
    Ok(bytes)
}

/// Calls `PngEncoder::new` over an in-memory buffer and
/// `ImageEncoder::write_image` with 8-bit grayscale pixels.
#[verifier::external_body]
fn encode_png(data: &[u8], width: u32, height: u32) -> (r: Result<Vec<u8>, image::ImageError>)
    requires
        data@.len() == width * height,
    ensures
        match r {
            Ok(b) => png_encoding(data@, width, height) == Some(b@),
            Err(_) => png_encoding(data@, width, height) is None,
        },
{
    let mut bytes = Vec::new();
    image::codecs::png::PngEncoder::new(&mut std::io::Cursor::new(&mut bytes))
        .write_image(data, width, height, image::ExtendedColorType::L8)?;
    Ok(bytes)
}

/// Decodes a source page to grayscale.
pub fn decode_page(bytes: &[u8]) -> (r: Result<GrayImage, Error>)
    ensures
        match r {
            Ok(img) => img@.wf() && decoded_gray(bytes@) == Some(img@),
            Err(e) => e is Image && decoded_gray(bytes@) is None,
        },
{
    match decode_luma(bytes) {
        Ok((w, h, data)) => Ok(GrayImage::from_view_parts(w, h, data)),
        Err(e) => Err(Error::Image(e)),
    }
}

/// Decodes a source page and turns it into the pages its spread decision
/// calls for (the page itself, its halves, the page rotated, or halves and
/// rotated page), in order.
pub fn prepare_page(
    bytes: &[u8],
    target: (u32, u32),
    splitter: SplitterMode,
    manga_style: bool,
    rotate_right: bool,
) -> (r: Result<Vec<GrayImage>, Error>)
    ensures
        match r {
            Ok(pages) => decoded_gray(bytes@) matches Some(g) && pages@.map_values(|p: GrayImage| p@)
                == execute_views(
                g,
                decision_for((g.width as u32, g.height as u32), target, splitter),
                manga_style,
                rotate_right,
            ),
            Err(e) => e is Image && decoded_gray(bytes@) is None,
        },
{
    let page = match decode_page(bytes) {
        Ok(p) => p,
        Err(e) => return Err(e),
    };
    let decision = decide(page.dimensions(), target, splitter);
    Ok(execute(&page, decision, manga_style, rotate_right))
}

/// Encodes a processed page: PNG when `png` (for palette-quantized pages),
/// JPEG at `quality` otherwise; returns the file extension (`png` or
/// `jpg`) with the bytes.
pub fn encode_page(page: &GrayImage, png: bool, quality: u8) -> (r: Result<(String, Vec<u8>), Error>)
    requires
        page@.wf(),
    ensures
        match r {
            Ok((ext, b)) => if png {
                ext@ == "png"@ && png_encoding(page@.data, page@.width as u32, page@.height as u32) == Some(b@)
            } else {
                ext@ == "jpg"@ && jpeg_encoding(page@.data, page@.width as u32, page@.height as u32, quality) == Some(b@)
            },
            Err(e) => e is Image && if png {
                png_encoding(page@.data, page@.width as u32, page@.height as u32) is None
            } else {
                jpeg_encoding(page@.data, page@.width as u32, page@.height as u32, quality) is None
            },
        },
{
    let (w, h) = page.dimensions();
    let data = page.as_raw();
    if png {
        match encode_png(data.as_slice(), w, h) {
            Ok(b) => Ok((String::from_str("png"), b)),
            Err(e) => Err(Error::Image(e)),
        }
    } else {
        match encode_jpeg(data.as_slice(), w, h, quality) {
            Ok(b) => Ok((String::from_str("jpg"), b)),
            Err(e) => Err(Error::Image(e)),
        }
    }
}

} // verus!
