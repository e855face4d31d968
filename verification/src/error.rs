//! The library's error type.

use vstd::prelude::*;

verus! {

/// The error of `zip`'s archive reading and writing.
#[verifier::external_type_specification]
#[verifier::external_body]
pub struct ExZipError(zip::result::ZipError);

/// The error of `image`'s decoding and encoding.
#[verifier::external_type_specification]
#[verifier::external_body]
pub struct ExImageError(image::ImageError);

/// std's I/O error.
#[verifier::external_type_specification]
#[verifier::external_body]
pub struct ExIoError(std::io::Error);

#[derive(Debug)]
pub enum Error {
    /// Decoding or encoding an image failed.
    Image(image::ImageError),
    /// Reading or writing a ZIP archive failed.
    Archive(zip::result::ZipError),
    /// An I/O operation failed.
    Io(std::io::Error),
    /// No device profile has the given code.
    UnknownProfile(String),
    /// There are no pages to build a book from.
    EmptyBook,
    /// Building a PDF failed.
    Pdf(String),
    /// `ComicInfo.xml` is not well-formed XML.
    ComicInfo(String),
}

} // verus!
