//! Unix path operations used to resolve the links of a publication.
use vstd::prelude::*;

verus! {

/// The parent of `path`, as the unix_path crate computes it, in text form;
/// `None` when the path has no parent.
pub uninterp spec fn unix_parent(path: Seq<char>) -> Option<Seq<char>>;

/// `path` joined onto `base`, in text form: an absolute `path` (one that
/// starts with '/') replaces the base; otherwise the base, then '/' where the
/// base is not empty and does not end with one, then `path`. (The text is
/// always valid, being made of two texts and '/'.)
pub open spec fn unix_join(base: Seq<char>, path: Seq<char>) -> Option<Seq<char>> {
    if path.len() > 0 && path[0] == '/' {
        Some(path)
    } else if base.len() > 0 && base.last() != '/' {
        Some(base + seq!['/'] + path)
    } else {
        Some(base + path)
    }
}

/// The parent directory of `path`.
///
/// Calls `unix_path::Path::parent` and turns the parent into text; the
/// contract claims only that the result is the crate's parent of `path`.
#[verifier::external_body]
pub(crate) fn path_parent(path: &str) -> (r: Option<String>)
    ensures
        r matches Some(s) ==> unix_parent(path@) == Some(s@),
        r is None ==> unix_parent(path@) is None,
{
    unix_path::Path::new(path).parent().and_then(|p| p.to_str()).map(String::from)
}

/// `path` joined onto `base`.
///
/// Calls `unix_path::Path::join`, whose `push` replaces the base with an
/// absolute path and otherwise puts a '/' between a base that does not end
/// with one and the path, and turns the joined path into text (which
/// succeeds, the bytes being valid UTF-8); the contract claims that.
#[verifier::external_body]
pub(crate) fn path_join(base: &str, path: &str) -> (r: Option<String>)
    ensures
        r is Some,
        r matches Some(s) ==> unix_join(base@, path@) == Some(s@),
{
    unix_path::Path::new(base).join(path).to_str().map(String::from)
}

/// The path of `href` taken relative to the directory of `basefile`, when
/// `basefile` has a parent directory.
pub open spec fn resolve_href(href: Seq<char>, basefile: Seq<char>) -> Option<Seq<char>> {
    match unix_parent(basefile) {
        Some(dir) => unix_join(dir, href),
        None => None,
    }
}

} // verus!
