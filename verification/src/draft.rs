//! The autosaved draft: the text the editor restores at startup.

use vstd::prelude::*;

verus! {

/// A saved copy of the document text.
#[derive(Debug)]
pub struct Draft {
    /// The document text at the time of the save.
    pub text: String,
}

impl Default for Draft {
    /// A fresh draft is empty.
    fn default() -> (d: Draft)
        ensures
            d.text@.len() == 0,
    {
        Draft { text: String::new() }
    }
}

} // verus!
