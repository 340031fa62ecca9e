//! The navigation control file of EPUB 2.
use vstd::prelude::*;

verus! {

/// The navigation control file: its table of contents and page list.
pub struct Ncx {
    pub map: NavMap,
    pub page_list: Option<PageList>,
}

/// The table of contents.
pub struct NavMap {
    pub points: Vec<NavPoint>,
}

/// An entry of the table of contents, with its sub-entries.
pub struct NavPoint {
    pub id: String,
    pub play_order: Option<u32>,
    pub nav_label: NavLabel,
    pub content: Content,
    pub nav_points: Vec<NavPoint>,
}

/// The label of an entry.
pub struct NavLabel {
    pub text: String,
}

/// What an entry points at.
pub struct Content {
    pub src: String,
}

/// The list of pages.
pub struct PageList {
    pub id: Option<String>,
    pub class: Option<String>,
    pub page_targets: Vec<PageTarget>,
}

/// A page of the page list.
pub struct PageTarget {
    pub id: Option<String>,
    pub play_order: Option<u32>,
    pub value: Option<String>,
    pub typ: String,
    pub nav_label: NavLabel,
    pub content: Content,
}

impl Ncx {
    /// The file with no entry and no page list.
    pub fn default() -> (r: Self)
        ensures
            r.map.points@.len() == 0,
            r.page_list is None,
    {
        Ncx { map: NavMap { points: Vec::new() }, page_list: None }
    }
}

} // verus!
