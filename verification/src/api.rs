//! The answers the library gives about a publication: a resource with its
//! media type, and the errors when there is none.
use vstd::prelude::*;
use crate::xmldoc::Document as XmlDocument;
use vstd::utf8::{decode_utf8, encode_utf8, valid_utf8};
use crate::epubarchive::utf8_text;
use crate::pairs::{lemma_pairs_map_found, lemma_pairs_map_suffix};
use crate::publication::{raw_resources_view, Link, Publication, RawResource};
use crate::strings::{bytes_eq, copy_str, str_eq};
use crate::element::{fragment_meets_zero, fragment_text, ElementRef};
use crate::cfi::Fragment;
use crate::locator::{DOMIndex, DOMRange, SimplifiedLocator};
use crate::selection::{path_answers, path_nodes, range_text, start_of, unquoted_pieces};

verus! {

/// An answer.
pub enum ApiResponse {
    Void,
    String(String),
    Vec(Vec<u8>),
    VecAndString(Vec<u8>, Option<String>),
    VecOfStrings(Vec<String>),
}

/// An error answer, with its message.
pub enum ApiError {
    String(String),
}

impl ApiError {
    /// The error with the empty message.
    pub fn default() -> (r: Self)
        ensures
            r matches ApiError::String(s) && s@ == Seq::<char>::empty(),
    {
        ApiError::String(String::new())
    }
}

impl ApiResponse {
    /// The empty answer.
    pub fn default() -> (r: Self)
        ensures
            r is Void,
    {
        ApiResponse::Void
    }

    /// The empty answer, for a computation that gives nothing.
    pub fn from_unit(response: ()) -> (r: Self)
        ensures
            r is Void,
    {
        ApiResponse::Void
    }

    /// The answer holding the text.
    pub fn from_string(response: String) -> (r: Self)
        ensures
            r matches ApiResponse::String(s) && s@ == response@,
    {
        ApiResponse::String(response)
    }

    /// The answer holding a copy of the text.
    pub fn from_string_ref(response: &String) -> (r: Self)
        ensures
            r matches ApiResponse::String(s) && s@ == response@,
    {
        ApiResponse::String(copy_str(response.as_str()))
    }
}

/// The media type of the first link of `links` with the href `name` that
/// has one.
pub open spec fn mime_in(links: Seq<Link>, name: Seq<char>) -> Option<Seq<char>>
    decreases links.len(),
{
    if links.len() == 0 {
        None
    } else if links[0].href@ == name && links[0].type_link is Some {
        Some(links[0].type_link->Some_0@)
    } else {
        mime_in(links.drop_first(), name)
    }
}

/// The media type of the resource `name`: from the reading order, else from
/// the resources; none where the name is not UTF-8.
pub open spec fn mime_type_of(p: Publication, name: Seq<u8>) -> Option<Seq<char>> {
    if valid_utf8(name) {
        let n = decode_utf8(name);
        match mime_in(p.reading_order@, n) {
            Some(t) => Some(t),
            None => mime_in(p.resources@, n),
        }
    } else {
        None
    }
}

/// The answer to a request for the raw resource `name`: its bytes and the
/// media type of the resource (see `mime_type_of`), or the error with the
/// empty message where there is no such resource.
pub open spec fn resource_answers(p: Publication, name: Seq<u8>, r: Result<ApiResponse, ApiError>) -> bool {
    let raws = raw_resources_view(p.raw_resources@);
    if raws.dom().contains(name) {
        r matches Ok(ApiResponse::VecAndString(d, m)) && d@ == raws[name].0 && match mime_type_of(p, name) {
            Some(t) => m matches Some(s) && s@ == t,
            None => m is None,
        }
    } else {
        r matches Err(ApiError::String(e)) && e@ == Seq::<char>::empty()
    }
}

/// The answer to a locator (see `Api::locate`): the walk in the document
/// kept with the resource `href` between the nodes the paths of its two
/// selectors lead to, where its media type is HTML or XML and such a
/// document is kept; else the error "No results".
pub open spec fn locate_answers<F: Fn(usize, usize) -> bool, G: Fn(usize, usize) -> bool>(
    p: Publication,
    locator: SimplifiedLocator,
    start_matches: F,
    end_matches: G,
    r: Result<ApiResponse, ApiError>,
) -> bool {
    let raws = raw_resources_view(p.raw_resources@);
    let key = encode_utf8(locator.href@);
    if locatable_type(locator.media_type@) && raws.dom().contains(key) && raws[key].2 is Some {
        let d = raws[key].2->Some_0;
        r matches Ok(ApiResponse::String(s)) && exists|b1: Seq<Seq<bool>>, b2: Seq<Seq<bool>>|
            path_answers(
                start_matches,
                d.tree,
                start_of(d.root),
                unquoted_pieces(locator.from_css_selector@).len(),
                b1,
            ) && path_answers(
                end_matches,
                d.tree,
                start_of(d.root),
                unquoted_pieces(locator.to_css_selector@).len(),
                b2,
            ) && s@ == range_text(
                d.tree,
                d.root,
                path_nodes(d.tree, start_of(d.root), b1),
                path_nodes(d.tree, start_of(d.root), b2),
            )
    } else {
        r matches Err(ApiError::String(m)) && m@ == "No results"@
    }
}

/// Whether a CFI fragment can be walked in the document kept with the
/// resource the locator names: none of its steps is a zero the walk meets.
pub open spec fn cfi_walkable(p: Publication, locator: SimplifiedLocator, f: Fragment) -> bool {
    let raws = raw_resources_view(p.raw_resources@);
    let key = encode_utf8(locator.href@);
    raws.dom().contains(key) && raws[key].2 is Some ==> !fragment_meets_zero(
        raws[key].2->Some_0.tree,
        raws[key].2->Some_0.root,
        f,
    )
}

/// The answer to a locator with a CFI fragment (see `Api::locate_with_cfi`):
/// the text of the fragment in the document kept with the resource `href`,
/// where the media type is HTML or XML and such a document is kept; else
/// the error "No results".
pub open spec fn locate_cfi_answers(
    p: Publication,
    locator: SimplifiedLocator,
    f: Fragment,
    r: Result<ApiResponse, ApiError>,
) -> bool {
    let raws = raw_resources_view(p.raw_resources@);
    let key = encode_utf8(locator.href@);
    if locatable_type(locator.media_type@) && raws.dom().contains(key) && raws[key].2 is Some {
        let d = raws[key].2->Some_0;
        r matches Ok(ApiResponse::String(s)) && s@ == fragment_text(d.tree, d.root, f)
    } else {
        r matches Err(ApiError::String(m)) && m@ == "No results"@
    }
}

/// The texts of a list of strings.
pub open spec fn strings_view(v: Seq<String>) -> Seq<Seq<char>> {
    v.map_values(|s: String| s@)
}

/// Whether two answers say the same: the same variant with the same bytes
/// and texts.
pub open spec fn same_response(a: ApiResponse, b: ApiResponse) -> bool {
    match (a, b) {
        (ApiResponse::Void, ApiResponse::Void) => true,
        (ApiResponse::String(x), ApiResponse::String(y)) => x@ == y@,
        (ApiResponse::Vec(x), ApiResponse::Vec(y)) => x@ == y@,
        (ApiResponse::VecAndString(x, m), ApiResponse::VecAndString(y, n)) => x@ == y@ && match (m, n) {
            (None, None) => true,
            (Some(s), Some(t)) => s@ == t@,
            _ => false,
        },
        (ApiResponse::VecOfStrings(x), ApiResponse::VecOfStrings(y)) => strings_view(x@) == strings_view(y@),
        _ => false,
    }
}

/// Whether two results say the same (see `same_response`).
pub open spec fn same_answer(a: Result<ApiResponse, ApiError>, b: Result<ApiResponse, ApiError>) -> bool {
    match (a, b) {
        (Ok(x), Ok(y)) => same_response(x, y),
        (Err(ApiError::String(s)), Err(ApiError::String(t))) => s@ == t@,
        _ => false,
    }
}

/// The answer to a resource request is determined by the publication and
/// the name: two answers to the same request say the same.
pub proof fn lemma_resource_answer_unique(
    p: Publication,
    name: Seq<u8>,
    a: Result<ApiResponse, ApiError>,
    b: Result<ApiResponse, ApiError>,
)
    requires
        resource_answers(p, name, a),
        resource_answers(p, name, b),
    ensures
        same_answer(a, b),
{
}

/// The entry points of the library's answers.
pub struct Api {}

fn mime_in_links(links: &Vec<Link>, name: &str) -> (r: Option<String>)
    ensures
        match mime_in(links@, name@) {
            Some(t) => r matches Some(s) && s@ == t,
            None => r is None,
        },
{
    let mut i: usize = 0;
    assert(links@.skip(0) =~= links@);
    while i < links.len()
        invariant
            0 <= i <= links.len(),
            mime_in(links@, name@) == mime_in(links@.skip(i as int), name@),
        decreases links.len() - i,
    {
        assert(links@.skip(i as int)[0] == links@[i as int]);
        assert(links@.skip(i as int).drop_first() =~= links@.skip(i + 1));
        if str_eq(links[i].href.as_str(), name) {
            if let Some(t) = &links[i].type_link {
                return Some(copy_str(t.as_str()));
            }
        }
        i = i + 1;
    }
    None
}

impl Api {
    /// The media type of the resource `resource_name` (see
    /// `mime_type_of`).
    pub fn find_mime_type(publication: &Publication, resource_name: &Vec<u8>) -> (r: Option<String>)
        ensures
            match mime_type_of(*publication, resource_name@) {
                Some(t) => r matches Some(s) && s@ == t,
                None => r is None,
            },
    {
        match utf8_text(resource_name.as_slice()) {
            Err(_) => None,
            Ok(name) => match mime_in_links(&publication.reading_order, name) {
                Some(t) => Some(t),
                None => mime_in_links(&publication.resources, name),
            },
        }
    }

    /// The bytes of the raw resource `resource_name` with its media type, or
    /// the error with the empty message where there is no such resource.
    pub fn resource(publication: &Publication, resource_name: Vec<u8>) -> (r: Result<
        ApiResponse,
        ApiError,
    >)
        ensures
            resource_answers(*publication, resource_name@, r),
    {
        let mime_type = Self::find_mime_type(publication, &resource_name);
        let raws = &publication.raw_resources;
        let ghost s = raws@.map_values(|r: RawResource| (r.name@, (r.data@, r.is_document, r.document)));
        let mut i: usize = raws.len();
        while i > 0
            invariant
                i <= raws.len(),
                s == raws@.map_values(|r: RawResource| (r.name@, (r.data@, r.is_document, r.document))),
                forall|j: int| i <= j < s.len() ==> (#[trigger] s[j]).0 != resource_name@,
                match mime_type_of(*publication, resource_name@) {
                    Some(t) => mime_type matches Some(x) && x@ == t,
                    None => mime_type is None,
                },
                raws == &publication.raw_resources,
            decreases i,
        {
            i = i - 1;
            if bytes_eq(raws[i].name.as_slice(), resource_name.as_slice()) {
                proof {
                    lemma_pairs_map_found(s, i as int, resource_name@);
                }
                let data = raws[i].data.clone();
                assert(data@ == raws@[i as int].data@);
                assert(s[i as int] == (raws@[i as int].name@, (raws@[i as int].data@, raws@[i as int].is_document, raws@[i as int].document)));
                return Ok(ApiResponse::VecAndString(data, mime_type));
            }
        }
        proof {
            lemma_pairs_map_suffix(s, 0, resource_name@);
            assert(s.take(0) =~= Seq::<(Seq<u8>, (Seq<u8>, bool, Option<XmlDocument>))>::empty());
        }
        Err(ApiError::String(String::new()))
    }
}

/// Whether a locator's media type names a document the library can look
/// into.
pub open spec fn locatable_type(t: Seq<char>) -> bool {
    t == "text/html"@ || t == "text/xml"@
}

/// Where the raw resource `name` stands: the index of the last resource of
/// that name, which is the one the raw resources give for it.
fn find_raw(publication: &Publication, name: &[u8]) -> (r: Option<usize>)
    ensures
        match r {
            Some(i) => i < publication.raw_resources@.len() && raw_resources_view(
                publication.raw_resources@,
            ).dom().contains(name@) && raw_resources_view(publication.raw_resources@)[name@] == (
                publication.raw_resources@[i as int].data@,
                publication.raw_resources@[i as int].is_document,
                publication.raw_resources@[i as int].document,
            ),
            None => !raw_resources_view(publication.raw_resources@).dom().contains(name@),
        },
{
    let raws = &publication.raw_resources;
    let ghost s = raws@.map_values(|r: RawResource| (r.name@, (r.data@, r.is_document, r.document)));
    let mut i: usize = raws.len();
    while i > 0
        invariant
            i <= raws.len(),
            s == raws@.map_values(|r: RawResource| (r.name@, (r.data@, r.is_document, r.document))),
            forall|j: int| i <= j < s.len() ==> (#[trigger] s[j]).0 != name@,
            raws == &publication.raw_resources,
        decreases i,
    {
        i = i - 1;
        if bytes_eq(raws[i].name.as_slice(), name) {
            proof {
                lemma_pairs_map_found(s, i as int, name@);
            }
            assert(s[i as int] == (
                raws@[i as int].name@,
                (raws@[i as int].data@, raws@[i as int].is_document, raws@[i as int].document),
            ));
            return Some(i);
        }
    }
    proof {
        lemma_pairs_map_suffix(s, 0, name@);
        assert(s.take(0) =~= Seq::<(Seq<u8>, (Seq<u8>, bool, Option<XmlDocument>))>::empty());
    }
    None
}

/// Whether every document kept with a raw resource is well formed.
pub open spec fn documents_wf(p: Publication) -> bool {
    forall|i: int|
        0 <= i < p.raw_resources@.len() ==> ((#[trigger] p.raw_resources@[i]).document matches Some(d)
            ==> d.wf())
}

impl Api {
    /// The part of the resource a locator points to, written out: where the
    /// locator's media type is HTML or XML and the resource `href` keeps a
    /// parsed document, the walk in that document from the first node the
    /// path of the locator's first selector leads to, to the first one the
    /// path of its last selector leads to; `start_matches` and
    /// `end_matches` answer for the selectors of each path. Else the error
    /// "No results".
    pub fn locate<F, G>(
        publication: &Publication,
        locator: &SimplifiedLocator,
        start_matches: F,
        end_matches: G,
    ) -> (r: Result<ApiResponse, ApiError>) where
        F: Fn(usize, usize) -> bool,
        G: Fn(usize, usize) -> bool,
        requires
            documents_wf(*publication),
            forall|j: usize, c: usize| #[trigger] start_matches.requires((j, c)),
            forall|j: usize, c: usize| #[trigger] end_matches.requires((j, c)),
        ensures
            locate_answers(*publication, *locator, start_matches, end_matches, r),
    {
        if str_eq(locator.media_type.as_str(), "text/html") || str_eq(locator.media_type.as_str(), "text/xml") {
            match find_raw(publication, locator.href.as_str().as_bytes()) {
                Some(i) => {
                    match &publication.raw_resources[i].document {
                        Some(d) => {
                            assert(publication.raw_resources@[i as int].document == Some(*d));
                            let element = ElementRef { id: d.root, doc: &d.tree };
                            let range = DOMRange {
                                start: DOMIndex {
                                    css_selector: copy_str(locator.from_css_selector.as_str()),
                                    text_node_index: None,
                                    offset: None,
                                },
                                end: DOMIndex {
                                    css_selector: copy_str(locator.to_css_selector.as_str()),
                                    text_node_index: None,
                                    offset: None,
                                },
                            };
                            let text = element.select_nodes_with_range_fmt(&range, start_matches, end_matches);
                            return Ok(ApiResponse::String(text));
                        },
                        None => {},
                    }
                },
                None => {},
            }
        }
        Err(ApiError::String(copy_str("No results")))
    }
    /// The text a CFI fragment points to in the resource a locator names:
    /// where the locator's media type is HTML or XML and the resource keeps
    /// a parsed document, the text of the fragment in it (see
    /// `fragment_text`); else the error "No results".
    pub fn locate_with_cfi(publication: &Publication, locator: &SimplifiedLocator, fragment: &Fragment) -> (r:
        Result<ApiResponse, ApiError>)
        requires
            documents_wf(*publication),
            cfi_walkable(*publication, *locator, *fragment),
        ensures
            locate_cfi_answers(*publication, *locator, *fragment, r),
    {
        if str_eq(locator.media_type.as_str(), "text/html") || str_eq(locator.media_type.as_str(), "text/xml") {
            match find_raw(publication, locator.href.as_str().as_bytes()) {
                Some(i) => {
                    match &publication.raw_resources[i].document {
                        Some(d) => {
                            assert(publication.raw_resources@[i as int].document == Some(*d));
                            let element = ElementRef { id: d.root, doc: &d.tree };
                            let text = element.select_cfi_fragment_fmt(fragment);
                            return Ok(ApiResponse::String(text));
                        },
                        None => {},
                    }
                },
                None => {},
            }
        }
        Err(ApiError::String(copy_str("No results")))
    }
}

} // verus!
