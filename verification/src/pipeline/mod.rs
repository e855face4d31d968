//! The per-page processing choices that the library decides on its own:
//! cropping, spread handling and output format modes, and the default JPEG
//! quality of a device.

pub mod spread;

use crate::profile::Profile;
use crate::text::{str_eq, str_starts_with};
use vstd::prelude::*;

verus! {

#[derive(Debug, Clone, Copy, PartialEq, Eq, Structural)]
pub enum CroppingMode {
    Disabled,
    Margins,
    MarginsAndPageNumbers,
}

#[derive(Debug, Clone, Copy, PartialEq, Eq, Structural)]
pub enum SplitterMode {
    Split,
    Rotate,
    Both,
}

/// The kind of book being produced; it only affects processing decisions
/// here (such as padding versus containing on resize).
#[derive(Debug, Clone, Copy, PartialEq, Eq, Structural)]
pub enum OutputFormat {
    Epub,
    Cbz,
    Pdf,
}

/// One output page: a source page can become one, two (a split spread) or
/// three (split and rotated) of these.
pub struct ComicPage {
    pub image: crate::gray::GrayImage,
}

/// The default JPEG quality for a device code: 90 for the Kindle Scribe
/// family (codes starting `KS`) and the Kindle Colorsoft (`KCS`), 85 for
/// every other device.
pub open spec fn default_quality_for(code: Seq<char>) -> u8 {
    if (2 <= code.len() && code.take(2) == "KS"@) || code == "KCS"@ {
        90
    } else {
        85
    }
}

/// The JPEG quality used for `profile` when none is given.
pub fn default_jpeg_quality(profile: &Profile) -> (q: u8)
    ensures
        q == default_quality_for(profile.code@),
{
    proof {
        reveal_strlit("KS");
    }
    if str_starts_with(profile.code, "KS") || str_eq(profile.code, "KCS") {
        90
    } else {
        85
    }
}

} // verus!
