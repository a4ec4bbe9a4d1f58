//! The retired web front end: no file is embedded any more.

use vstd::prelude::*;

verus! {

/// The content of an embedded file.
#[derive(Debug)]
pub struct EmbeddedFile {
    pub data: Vec<u8>,
}

#[derive(Debug)]
pub struct WebAssets;

impl WebAssets {
    /// Every lookup finds nothing.
    pub fn get(_path: &str) -> (r: Option<EmbeddedFile>)
        ensures
            r is None,
    {
        None
    }
}

} // verus!
