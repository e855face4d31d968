//! Right-to-left ("manga style") reading order. It does not reorder pages;
//! it sets the EPUB page progression and which half of a split spread
//! comes first.

use vstd::prelude::*;

verus! {

#[derive(Debug, Clone, Copy, PartialEq, Eq, Structural)]
pub struct ReadingDirection {
    pub right_to_left: bool,
}

impl ReadingDirection {
    /// The EPUB spine's `page-progression-direction`: `rtl` or `ltr`.
    pub fn epub_page_progression(self) -> (s: &'static str)
        ensures
            s@ == (if self.right_to_left { "rtl"@ } else { "ltr"@ }),
    {
        if self.right_to_left {
            "rtl"
        } else {
            "ltr"
        }
    }
}

} // verus!
