//! The package document (OPF): metadata, manifest, spine and guide.
use vstd::prelude::*;

verus! {

/// The package document.
pub struct Opf {
    pub metadata: Metadata,
    pub manifest: Manifest,
    pub spine: Spine,
    pub guide: Option<Guide>,
    pub dir: Option<String>,
    pub version: Option<String>,
    pub unique_identifier: String,
}

/// The Dublin Core metadata and the `meta` elements of the package.
pub struct Metadata {
    pub title: Vec<Title>,
    pub language: Vec<String>,
    pub identifier: Vec<Identifier>,
    pub creator: Vec<Author>,
    pub contributor: Vec<Contributor>,
    pub subject: Vec<Subject>,
    pub date: Vec<Date>,
    pub meta: Vec<Metafield>,
    pub description: Vec<String>,
    pub publisher: Vec<String>,
    pub types: Vec<Typefield>,
    pub format: Vec<String>,
    pub source: Vec<String>,
    pub relation: Vec<String>,
    pub coverage: Vec<String>,
    pub rights: Vec<String>,
}

/// A `dc:subject`.
pub struct Subject {
    pub content: String,
    pub term: Option<String>,
    pub authority: Option<String>,
    pub lang: Option<String>,
}

/// A `dc:identifier`.
pub struct Identifier {
    pub content: String,
    pub id: Option<String>,
    pub scheme: Option<String>,
}

/// A `dc:title`.
pub struct Title {
    pub content: String,
    pub id: Option<String>,
    pub dir: Option<String>,
    pub lang: Option<String>,
}

impl Title {
    /// The empty title with no attribute.
    pub fn default() -> (r: Self)
        ensures
            r.content@ == Seq::<char>::empty(),
            r.id is None,
            r.dir is None,
            r.lang is None,
    {
        Title { content: String::new(), id: None, dir: None, lang: None }
    }
}

/// An optional borrowed text, by its characters.
pub open spec fn opt_str_view(o: Option<&str>) -> Option<Seq<char>> {
    match o {
        Some(s) => Some(s@),
        None => None,
    }
}

/// What a creator or a contributor of the package tells of a person.
pub trait AsAuthor {
    spec fn content_view(&self) -> Seq<char>;

    spec fn file_as_view(&self) -> Option<Seq<char>>;

    spec fn role_view(&self) -> Option<Seq<char>>;

    spec fn id_view(&self) -> Option<Seq<char>>;

    fn content(&self) -> (r: &str)
        ensures
            r@ == self.content_view(),
    ;

    fn file_as(&self) -> (r: Option<&str>)
        ensures
            opt_str_view(r) == self.file_as_view(),
    ;

    fn role(&self) -> (r: Option<&str>)
        ensures
            opt_str_view(r) == self.role_view(),
    ;

    fn id(&self) -> (r: Option<&str>)
        ensures
            opt_str_view(r) == self.id_view(),
    ;
}

/// An optional text, by its characters.
pub open spec fn opt_string_view(o: Option<String>) -> Option<Seq<char>> {
    match o {
        Some(s) => Some(s@),
        None => None,
    }
}

fn opt_as_str(o: &Option<String>) -> (r: Option<&str>)
    ensures
        opt_str_view(r) == opt_string_view(*o),
{
    match o {
        Some(s) => Some(s.as_str()),
        None => None,
    }
}

/// A `dc:creator`.
pub struct Author {
    pub content: String,
    pub file_as: Option<String>,
    pub role: Option<String>,
    pub id: Option<String>,
}

impl AsAuthor for Author {
    open spec fn content_view(&self) -> Seq<char> {
        self.content@
    }

    open spec fn file_as_view(&self) -> Option<Seq<char>> {
        opt_string_view(self.file_as)
    }

    open spec fn role_view(&self) -> Option<Seq<char>> {
        opt_string_view(self.role)
    }

    open spec fn id_view(&self) -> Option<Seq<char>> {
        opt_string_view(self.id)
    }

    fn content(&self) -> (r: &str) {
        self.content.as_str()
    }

    fn file_as(&self) -> (r: Option<&str>) {
        opt_as_str(&self.file_as)
    }

    fn role(&self) -> (r: Option<&str>) {
        opt_as_str(&self.role)
    }

    fn id(&self) -> (r: Option<&str>) {
        opt_as_str(&self.id)
    }
}

/// A `dc:contributor`.
pub struct Contributor {
    pub content: String,
    pub file_as: Option<String>,
    pub role: Option<String>,
    pub id: Option<String>,
}

impl AsAuthor for Contributor {
    open spec fn content_view(&self) -> Seq<char> {
        self.content@
    }

    open spec fn file_as_view(&self) -> Option<Seq<char>> {
        opt_string_view(self.file_as)
    }

    open spec fn role_view(&self) -> Option<Seq<char>> {
        opt_string_view(self.role)
    }

    open spec fn id_view(&self) -> Option<Seq<char>> {
        opt_string_view(self.id)
    }

    fn content(&self) -> (r: &str) {
        self.content.as_str()
    }

    fn file_as(&self) -> (r: Option<&str>) {
        opt_as_str(&self.file_as)
    }

    fn role(&self) -> (r: Option<&str>) {
        opt_as_str(&self.role)
    }

    fn id(&self) -> (r: Option<&str>) {
        opt_as_str(&self.id)
    }
}

/// A `dc:date`.
pub struct Date {
    pub content: String,
    pub event: Option<String>,
}

/// A `meta` element, in its EPUB 3 form (`property`, `refines`) or its
/// legacy form (`name`, `content`).
pub struct Metafield {
    pub content: String,
    pub dir: Option<String>,
    pub refines: Option<String>,
    pub property: Option<String>,
    pub id: Option<String>,
    pub lang: Option<String>,
    pub scheme: Option<String>,
    pub name_legacy: Option<String>,
    pub content_legacy: Option<String>,
}

/// A `type` element.
pub struct Typefield {
    pub content: String,
    pub dir: Option<String>,
    pub refines: Option<String>,
    pub property: String,
    pub id: Option<String>,
    pub lang: Option<String>,
    pub scheme: Option<String>,
}

/// The resources of the package.
pub struct Manifest {
    pub items: Vec<ManifestItem>,
}

/// A resource of the package.
pub struct ManifestItem {
    pub id: String,
    pub href: String,
    pub mediatype: String,
    pub fallback: Option<String>,
    pub properties: Option<String>,
    pub mediaoverlay: Option<String>,
}

/// The reading order of the package.
pub struct Spine {
    pub id: Option<String>,
    pub toc: Option<String>,
    pub page_progression: Option<String>,
    pub items: Vec<SpineItem>,
}

/// An entry of the reading order.
pub struct SpineItem {
    pub id: Option<String>,
    pub idref: String,
    pub properties: Option<String>,
    pub linear: Option<String>,
}

/// The guide of EPUB 2: landmarks of the publication.
pub struct Guide {
    pub references: Vec<Reference>,
}

/// A landmark.
pub struct Reference {
    pub href: String,
    pub title: Option<String>,
    pub typ: String,
}

} // verus!
