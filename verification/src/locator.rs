//! Locators: where in a publication something is, as a resource and CSS
//! selectors into it, a DOM range, or the text around it.
use vstd::prelude::*;

verus! {

/// A span of a resource between two CSS selectors.
pub struct SimplifiedLocator {
    pub href: String,
    pub media_type: String,
    pub from_css_selector: String,
    pub to_css_selector: String,
}

impl SimplifiedLocator {
    /// The locator with every text empty.
    pub fn default() -> (r: Self)
        ensures
            r.href@ == Seq::<char>::empty(),
            r.media_type@ == Seq::<char>::empty(),
            r.from_css_selector@ == Seq::<char>::empty(),
            r.to_css_selector@ == Seq::<char>::empty(),
    {
        SimplifiedLocator {
            href: String::new(),
            media_type: String::new(),
            from_css_selector: String::new(),
            to_css_selector: String::new(),
        }
    }
}

/// A point of a document: the element a CSS selector picks, a text node
/// below it and an offset in that text.
pub struct DOMIndex {
    pub css_selector: String,
    pub text_node_index: Option<u32>,
    pub offset: Option<u32>,
}

impl DOMIndex {
    /// The point with an empty selector and no text node or offset.
    pub fn default() -> (r: Self)
        ensures
            r.css_selector@ == Seq::<char>::empty(),
            r.text_node_index is None,
            r.offset is None,
    {
        DOMIndex { css_selector: String::new(), text_node_index: None, offset: None }
    }
}

/// A range of a document between two points.
pub struct DOMRange {
    pub start: DOMIndex,
    pub end: DOMIndex,
}

impl DOMRange {
    /// The range between two default points.
    pub fn default() -> (r: Self)
        ensures
            r.start.css_selector@ == Seq::<char>::empty(),
            r.start.text_node_index is None,
            r.start.offset is None,
            r.end.css_selector@ == Seq::<char>::empty(),
            r.end.text_node_index is None,
            r.end.offset is None,
    {
        DOMRange { start: DOMIndex::default(), end: DOMIndex::default() }
    }
}

/// The text after, before and at a location.
pub struct TextContext {
    after: Option<String>,
    before: Option<String>,
    highlight: Option<String>,
}

impl TextContext {
    /// Whether no text of the context is set.
    pub closed spec fn is_empty(&self) -> bool {
        self.after is None && self.before is None && self.highlight is None
    }

    /// The context with no text.
    pub fn default() -> (r: Self)
        ensures
            r.is_empty(),
    {
        TextContext { after: None, before: None, highlight: None }
    }
}

} // verus!
