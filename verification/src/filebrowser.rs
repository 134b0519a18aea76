//! A stub of the file browser: it only remembers the directory it was
//! opened in.

use std::path::PathBuf;
use vstd::prelude::*;

verus! {

/// `std::path::PathBuf`, declared so that it can be held and passed through;
/// the library does not look inside it.
#[verifier::external_type_specification]
#[verifier::external_body]
pub struct ExPathBuf(PathBuf);

pub struct FileBrowser {
    current_directory: PathBuf,
}

impl FileBrowser {
    /// The directory the browser is positioned at.
    pub closed spec fn directory(&self) -> PathBuf {
        self.current_directory
    }

    /// A browser positioned at `dir`.
    pub fn new(dir: PathBuf) -> (r: FileBrowser)
        ensures
            r.directory() == dir,
    {
        FileBrowser { current_directory: dir }
    }

    #[allow(non_snake_case)]
    pub fn listDirectoryEntries(&self) {
    }
}

} // verus!
