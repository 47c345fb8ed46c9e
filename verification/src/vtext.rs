//! The description of a text.

use vstd::prelude::*;

verus! {

/// A virtual text: what a live text node should say.
pub struct VText {
    pub text: String,
}

impl VText {
    /// A text with this content.
    pub fn new(text: String) -> (vtext: VText)
        ensures
            vtext.text == text,
    {
        VText { text }
    }
}

} // verus!
