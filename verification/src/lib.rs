//! Page-processing and packaging logic for converting manga/comic archives
//! into e-reader books.

pub mod gray;
pub mod crop;
pub mod contrast;
pub mod fill_check;
pub mod text;
pub mod paths;
pub mod natural_sort;
pub mod profile;
pub mod pipeline;
pub mod error;
pub mod archive;
pub mod manga;
pub mod ebook;
pub mod metadata;
pub mod resize;
pub mod cli;
pub mod protocol;
pub mod codec;
