//! `META-INF/container.xml`: where the package document lies.
use vstd::prelude::*;

verus! {

/// The container file.
pub struct Container {
    pub rootfiles: RootFiles,
}

/// The list of package documents (EPUB readers take the one given).
pub struct RootFiles {
    pub rootfile: RootFile,
}

/// A package document: its path in the archive, media type and version.
pub struct RootFile {
    pub full_path: String,
    pub media_type: String,
    pub version: Option<String>,
}

} // verus!
