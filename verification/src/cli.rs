//! The command line's options as plain values, and the processing modes
//! they select.

use crate::pipeline::{CroppingMode, OutputFormat, SplitterMode};
use vstd::prelude::*;

verus! {

/// The command line: input path, device profile, processing switches,
/// output format and metadata overrides.
pub struct Cli {
    /// A `.cbz` file or a folder of chapter folders and images.
    pub input: String,
    /// Device profile code (default `KV`).
    pub profile: String,
    /// Right-to-left reading order and spread-split order.
    pub manga_style: bool,
    pub cropping: Cropping,
    pub splitter: Splitter,
    /// Resize pages smaller than the device's resolution.
    pub upscale: bool,
    /// Stretch pages to the device's resolution, ignoring aspect ratio.
    pub stretch: bool,
    /// Crop to fill the screen.
    pub wallpaper: bool,
    /// Pad with white instead of the detected background (CBZ/PDF only).
    pub whiteborders: bool,
    pub format: Format,
    pub output: Option<String>,
    pub title: Option<String>,
    pub author: Option<String>,
    /// EPUB language code (default `en-US`).
    pub language: String,
    /// Replaces the profile's screen width.
    pub customwidth: Option<u32>,
    /// Replaces the profile's screen height.
    pub customheight: Option<u32>,
}

#[derive(Clone, Copy, Debug, PartialEq, Eq, Structural)]
pub enum Cropping {
    Disabled,
    Margins,
    MarginsAndPageNumbers,
}

#[derive(Clone, Copy, Debug, PartialEq, Eq, Structural)]
pub enum Splitter {
    Split,
    Rotate,
    Both,
}

#[derive(Clone, Copy, Debug, PartialEq, Eq, Structural)]
pub enum Format {
    Epub,
    Cbz,
    Pdf,
}

impl Cropping {
    /// The cropping mode this option selects, variant for variant.
    pub fn mode(self) -> (m: CroppingMode)
        ensures
            m == (match self {
                Cropping::Disabled => CroppingMode::Disabled,
                Cropping::Margins => CroppingMode::Margins,
                Cropping::MarginsAndPageNumbers => CroppingMode::MarginsAndPageNumbers,
            }),
    {
        match self {
            Cropping::Disabled => CroppingMode::Disabled,
            Cropping::Margins => CroppingMode::Margins,
            Cropping::MarginsAndPageNumbers => CroppingMode::MarginsAndPageNumbers,
        }
    }
}

impl Splitter {
    /// The spread mode this option selects, variant for variant.
    pub fn mode(self) -> (m: SplitterMode)
        ensures
            m == (match self {
                Splitter::Split => SplitterMode::Split,
                Splitter::Rotate => SplitterMode::Rotate,
                Splitter::Both => SplitterMode::Both,
            }),
    {
        match self {
            Splitter::Split => SplitterMode::Split,
            Splitter::Rotate => SplitterMode::Rotate,
            Splitter::Both => SplitterMode::Both,
        }
    }
}

impl Format {
    /// The output format this option selects, variant for variant.
    pub fn output_format(self) -> (f: OutputFormat)
        ensures
            f == (match self {
                Format::Epub => OutputFormat::Epub,
                Format::Cbz => OutputFormat::Cbz,
                Format::Pdf => OutputFormat::Pdf,
            }),
    {
        match self {
            Format::Epub => OutputFormat::Epub,
            Format::Cbz => OutputFormat::Cbz,
            Format::Pdf => OutputFormat::Pdf,
        }
    }

    /// The output file's extension: `epub`, `cbz` or `pdf`.
    pub fn extension(self) -> (e: &'static str)
        ensures
            e@ == (match self {
                Format::Epub => "epub"@,
                Format::Cbz => "cbz"@,
                Format::Pdf => "pdf"@,
            }),
    {
        match self {
            Format::Epub => "epub",
            Format::Cbz => "cbz",
            Format::Pdf => "pdf",
        }
    }
}

} // verus!
