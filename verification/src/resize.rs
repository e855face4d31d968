//! Resize filter and fit mode choices. A page that already fits the target
//! on both axes is resized with a bicubic (Catmull-Rom) filter, anything
//! larger with Lanczos3.

use vstd::prelude::*;

verus! {

#[derive(Debug, Clone, Copy, PartialEq, Eq, Structural)]
pub enum FitMode {
    /// Aspect ratio close enough to the device's: crop to fill exactly.
    Fill,
    /// Fit within the target and pad the rest with the background.
    Pad,
    /// Ignore the aspect ratio.
    Stretch,
}

/// The resampling filters the resize step chooses between (`image`'s
/// `FilterType::CatmullRom` and `FilterType::Lanczos3`).
#[derive(Debug, Clone, Copy, PartialEq, Eq, Structural)]
pub enum ResizeFilter {
    CatmullRom,
    Lanczos3,
}

/// Bicubic when the source fits within the target on both axes, Lanczos3
/// otherwise.
pub fn choose_filter(src: (u32, u32), target: (u32, u32)) -> (f: ResizeFilter)
    ensures
        f == (if src.0 <= target.0 && src.1 <= target.1 {
            ResizeFilter::CatmullRom
        } else {
            ResizeFilter::Lanczos3
        }),
{
    if src.0 <= target.0 && src.1 <= target.1 {
        ResizeFilter::CatmullRom
    } else {
        ResizeFilter::Lanczos3
    }
}

} // verus!
