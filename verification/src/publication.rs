//! The Readium web publication model that an EPUB is turned into.
use vstd::prelude::*;
use crate::xmldoc::Document as XmlDocument;
use crate::strings::{
    concat_str, contains_seq, copy_str, debug_str, str_contains, str_debug, str_eq,
};
use crate::paths::{path_join, path_parent, resolve_href};
use crate::pairs::{lookup_str, pairs_map, string_pairs_view};

verus! {

/// An optional text, by its characters.
pub open spec fn opt_view(o: Option<String>) -> Option<Seq<char>> {
    match o {
        Some(s) => Some(s@),
        None => None,
    }
}

/// An optional list of texts, by their characters.
pub open spec fn opt_strings_view(o: Option<Vec<String>>) -> Option<Seq<Seq<char>>> {
    match o {
        Some(v) => Some(v.deep_view()),
        None => None,
    }
}

/// The index of the first element of `s` that satisfies `p`.
pub open spec fn first_index<T>(s: Seq<T>, p: spec_fn(T) -> bool) -> Option<int>
    decreases s.len(),
{
    if s.len() == 0 {
        None
    } else if p(s[0]) {
        Some(0)
    } else {
        match first_index(s.drop_first(), p) {
            Some(i) => Some(i + 1),
            None => None,
        }
    }
}

/// The elements of `s` that satisfy `p`, in order.
pub open spec fn keep<T>(s: Seq<T>, p: spec_fn(T) -> bool) -> Seq<T>
    decreases s.len(),
{
    if s.len() == 0 {
        Seq::empty()
    } else if p(s.last()) {
        keep(s.drop_last(), p).push(s.last())
    } else {
        keep(s.drop_last(), p)
    }
}

/// The elements of `s` whose flag in `bs` is set, in order.
pub open spec fn select<T>(s: Seq<T>, bs: Seq<bool>) -> Seq<T>
    decreases s.len(),
{
    if s.len() == 0 || bs.len() == 0 {
        Seq::empty()
    } else if bs.last() {
        select(s.drop_last(), bs.drop_last()).push(s.last())
    } else {
        select(s.drop_last(), bs.drop_last())
    }
}

/// What `select` keeps is among the elements of `s`.
pub proof fn lemma_select_members<T>(s: Seq<T>, bs: Seq<bool>)
    ensures
        forall|j: int| 0 <= j < select(s, bs).len() ==> s.contains(#[trigger] select(s, bs)[j]),
    decreases s.len(),
{
    if s.len() > 0 && bs.len() > 0 {
        let t = s.drop_last();
        lemma_select_members(t, bs.drop_last());
        assert forall|j: int| 0 <= j < select(s, bs).len() implies s.contains(#[trigger] select(s, bs)[j]) by {
            let r = select(t, bs.drop_last());
            if j < r.len() {
                assert(select(s, bs)[j] == r[j]);
                let w = choose|w: int| 0 <= w < t.len() && t[w] == r[j];
                assert(s[w] == t[w]);
            } else {
                assert(select(s, bs)[j] == s.last());
                assert(s[s.len() - 1] == s.last());
            }
        }
    }
}

/// What `keep` selects is among the elements of `s` and satisfies `p`.
pub proof fn lemma_keep_members<T>(s: Seq<T>, p: spec_fn(T) -> bool)
    ensures
        forall|j: int| 0 <= j < keep(s, p).len() ==> s.contains(#[trigger] keep(s, p)[j]) && p(
            keep(s, p)[j],
        ),
    decreases s.len(),
{
    if s.len() > 0 {
        lemma_keep_members(s.drop_last(), p);
        let t = s.drop_last();
        assert forall|j: int| 0 <= j < keep(s, p).len() implies s.contains(#[trigger] keep(s, p)[j])
            && p(keep(s, p)[j]) by {
            if j < keep(t, p).len() {
                assert(keep(s, p)[j] == keep(t, p)[j]);
                let w = choose|w: int| 0 <= w < t.len() && t[w] == keep(t, p)[j];
                assert(s[w] == t[w]);
            } else {
                assert(keep(s, p)[j] == s.last());
                assert(s[s.len() - 1] == s.last());
            }
        }
    }
}

/// `first_index` found by a left-to-right scan.
pub proof fn lemma_first_index<T>(s: Seq<T>, p: spec_fn(T) -> bool, i: int)
    requires
        0 <= i <= s.len(),
        forall|j: int| 0 <= j < i ==> !p(#[trigger] s[j]),
    ensures
        i < s.len() && p(s[i]) ==> first_index(s, p) == Some(i),
        i == s.len() ==> first_index(s, p) is None,
    decreases s.len(),
{
    if s.len() > 0 && i > 0 {
        assert forall|j: int| 0 <= j < i - 1 implies !p(#[trigger] s.drop_first()[j]) by {
            assert(s.drop_first()[j] == s[j + 1]);
        }
        lemma_first_index(s.drop_first(), p, i - 1);
        assert(!p(s[0]));
    }
}

/// A text in one language, or in several languages: (language, text) pairs,
/// where a later pair for a language replaces an earlier one.
pub enum MultiLanguage {
    SingleString(String),
    MultiString(Vec<(String, String)>),
}

pub ghost enum MultiLanguageV {
    Single(Seq<char>),
    Multi(Map<Seq<char>, Seq<char>>),
}

impl View for MultiLanguage {
    type V = MultiLanguageV;

    open spec fn view(&self) -> MultiLanguageV {
        match self {
            MultiLanguage::SingleString(s) => MultiLanguageV::Single(s@),
            MultiLanguage::MultiString(v) => MultiLanguageV::Multi(
                pairs_map(string_pairs_view(v@)),
            ),
        }
    }
}

impl MultiLanguage {
    /// The empty single text.
    pub fn default() -> (r: Self)
        ensures
            r@ == MultiLanguageV::Single(Seq::empty()),
    {
        MultiLanguage::SingleString(String::new())
    }
}

/// A contributor (author, translator, publisher, ...) of a publication.
pub struct Contributor {
    pub name: MultiLanguage,
    pub sort_as: Option<String>,
    pub identifier: Option<String>,
    pub role: Option<String>,
}

pub ghost struct ContributorV {
    pub name: MultiLanguageV,
    pub sort_as: Option<Seq<char>>,
    pub identifier: Option<Seq<char>>,
    pub role: Option<Seq<char>>,
}

impl View for Contributor {
    type V = ContributorV;

    open spec fn view(&self) -> ContributorV {
        ContributorV {
            name: self.name@,
            sort_as: opt_view(self.sort_as),
            identifier: opt_view(self.identifier),
            role: opt_view(self.role),
        }
    }
}

impl Contributor {
    /// A contributor with an empty name and nothing else.
    pub fn default() -> (r: Self)
        ensures
            r@ == (ContributorV {
                name: MultiLanguageV::Single(Seq::empty()),
                sort_as: None,
                identifier: None,
                role: None,
            }),
    {
        Contributor { name: MultiLanguage::default(), sort_as: None, identifier: None, role: None }
    }
}

/// Rendering properties of a publication or of a resource.
pub struct Properties {
    pub contains: Option<Vec<String>>,
    pub layout: Option<String>,
    pub mediaoverlay: Option<String>,
    pub orientation: Option<String>,
    pub overflow: Option<String>,
    pub page: Option<String>,
    pub spread: Option<String>,
}

pub ghost struct PropertiesV {
    pub contains: Option<Seq<Seq<char>>>,
    pub layout: Option<Seq<char>>,
    pub mediaoverlay: Option<Seq<char>>,
    pub orientation: Option<Seq<char>>,
    pub overflow: Option<Seq<char>>,
    pub page: Option<Seq<char>>,
    pub spread: Option<Seq<char>>,
}

impl View for Properties {
    type V = PropertiesV;

    open spec fn view(&self) -> PropertiesV {
        PropertiesV {
            contains: opt_strings_view(self.contains),
            layout: opt_view(self.layout),
            mediaoverlay: opt_view(self.mediaoverlay),
            orientation: opt_view(self.orientation),
            overflow: opt_view(self.overflow),
            page: opt_view(self.page),
            spread: opt_view(self.spread),
        }
    }
}

/// The properties with nothing set.
pub open spec fn empty_properties() -> PropertiesV {
    PropertiesV {
        contains: None,
        layout: None,
        mediaoverlay: None,
        orientation: None,
        overflow: None,
        page: None,
        spread: None,
    }
}

impl Properties {
    /// The properties with nothing set.
    pub fn default() -> (r: Self)
        ensures
            r@ == empty_properties(),
    {
        Properties {
            contains: None,
            layout: None,
            mediaoverlay: None,
            orientation: None,
            overflow: None,
            page: None,
            spread: None,
        }
    }
}

/// A subject of a publication.
pub struct Subject {
    pub name: String,
    pub sort_as: Option<String>,
    pub scheme: Option<String>,
    pub code: Option<String>,
}

pub ghost struct SubjectV {
    pub name: Seq<char>,
    pub sort_as: Option<Seq<char>>,
    pub scheme: Option<Seq<char>>,
    pub code: Option<Seq<char>>,
}

impl View for Subject {
    type V = SubjectV;

    open spec fn view(&self) -> SubjectV {
        SubjectV {
            name: self.name@,
            sort_as: opt_view(self.sort_as),
            scheme: opt_view(self.scheme),
            code: opt_view(self.code),
        }
    }
}

/// A metadata entry that has no field of its own.
pub struct Meta {
    pub property: String,
    pub value: String,
    pub children: Vec<Meta>,
}

/// A node of a media overlay (synchronised text and audio).
pub struct MediaOverlayNode {
    pub text: String,
    pub audio: String,
    pub role: Vec<String>,
    pub children: Vec<MediaOverlayNode>,
}

/// A link to a resource of the publication.
pub struct Link {
    pub href: String,
    pub type_link: Option<String>,
    pub rel: Vec<String>,
    pub height: Option<u32>,
    pub width: Option<u32>,
    pub title: Option<String>,
    pub properties: Option<Properties>,
    pub duration: Option<String>,
    pub templated: Option<bool>,
    pub children: Option<Vec<Link>>,
    pub bitrate: Option<u32>,
    pub mediaoverlays: Option<Vec<MediaOverlayNode>>,
}

pub ghost struct LinkV {
    pub href: Seq<char>,
    pub type_link: Option<Seq<char>>,
    pub rel: Seq<Seq<char>>,
    pub height: Option<u32>,
    pub width: Option<u32>,
    pub title: Option<Seq<char>>,
    pub properties: Option<PropertiesV>,
    pub duration: Option<Seq<char>>,
    pub templated: Option<bool>,
    pub children: Option<Vec<Link>>,
    pub bitrate: Option<u32>,
    pub mediaoverlays: Option<Vec<MediaOverlayNode>>,
}

/// Optional properties, by their view.
pub open spec fn opt_properties_view(o: Option<Properties>) -> Option<PropertiesV> {
    match o {
        Some(p) => Some(p@),
        None => None,
    }
}

impl View for Link {
    type V = LinkV;

    open spec fn view(&self) -> LinkV {
        LinkV {
            href: self.href@,
            type_link: opt_view(self.type_link),
            rel: self.rel.deep_view(),
            height: self.height,
            width: self.width,
            title: opt_view(self.title),
            properties: opt_properties_view(self.properties),
            duration: opt_view(self.duration),
            templated: self.templated,
            children: self.children,
            bitrate: self.bitrate,
            mediaoverlays: self.mediaoverlays,
        }
    }
}

/// The link with an empty href and nothing else.
pub open spec fn empty_link() -> LinkV {
    LinkV {
        href: Seq::empty(),
        type_link: None,
        rel: Seq::empty(),
        height: None,
        width: None,
        title: None,
        properties: None,
        duration: None,
        templated: None,
        children: None,
        bitrate: None,
        mediaoverlays: None,
    }
}

/// A list of links, by their views.
pub open spec fn links_view(v: Seq<Link>) -> Seq<LinkV> {
    v.map_values(|l: Link| l@)
}

/// Whether a link has the relation `rel`.
pub open spec fn has_rel(l: LinkV, rel: Seq<char>) -> bool {
    l.rel.contains(rel)
}

/// The link `l` with the relation `rel` added at the end, unless it has it
/// already.
pub open spec fn with_rel(l: LinkV, rel: Seq<char>) -> LinkV {
    LinkV { rel: if has_rel(l, rel) { l.rel } else { l.rel.push(rel) }, ..l }
}

/// Adding a relation: the link then has it, adding it again changes
/// nothing, every other relation is kept as it was, and a link whose
/// relations were all different keeps them all different.
pub proof fn lemma_with_rel(l: LinkV, rel: Seq<char>, other: Seq<char>)
    ensures
        has_rel(with_rel(l, rel), rel),
        with_rel(with_rel(l, rel), rel) == with_rel(l, rel),
        other != rel ==> (has_rel(with_rel(l, rel), other) == has_rel(l, other)),
        l.rel.no_duplicates() ==> with_rel(l, rel).rel.no_duplicates(),
{
    if !has_rel(l, rel) {
        let r = l.rel.push(rel);
        assert(r[l.rel.len() as int] == rel);
        assert(r.contains(rel));
        if r.contains(other) {
            let j = choose|j: int| 0 <= j < r.len() && r[j] == other;
            if other != rel {
                assert(j < l.rel.len());
                assert(l.rel[j] == other);
            }
        }
        if l.rel.contains(other) {
            let j = choose|j: int| 0 <= j < l.rel.len() && l.rel[j] == other;
            assert(r[j] == other);
        }
        if l.rel.no_duplicates() {
            assert forall|i: int, j: int| 0 <= i < r.len() && 0 <= j < r.len() && i != j
                implies r[i] != r[j] by {
                if i < l.rel.len() && j < l.rel.len() {
                } else if i < l.rel.len() {
                    assert(l.rel[i] == r[i]);
                } else if j < l.rel.len() {
                    assert(l.rel[j] == r[j]);
                }
            }
        }
    }
}

/// The index of the first link of `v` with the relation `rel`.
pub fn find_link_with_rel(v: &Vec<Link>, rel: &str) -> (r: Option<usize>)
    ensures
        r matches Some(i) ==> first_index(links_view(v@), |l: LinkV| has_rel(l, rel@)) == Some(
            i as int,
        ) && i < v.len(),
        r is None ==> first_index(links_view(v@), |l: LinkV| has_rel(l, rel@)) is None,
{
    let ghost p = |l: LinkV| has_rel(l, rel@);
    let ghost lv = links_view(v@);
    let mut i: usize = 0;
    while i < v.len()
        invariant
            0 <= i <= v.len(),
            lv == links_view(v@),
            p == (|l: LinkV| has_rel(l, rel@)),
            forall|j: int| 0 <= j < i ==> !p(#[trigger] lv[j]),
        decreases v.len() - i,
    {
        if v[i].has_rel(rel) {
            proof {
                lemma_first_index(lv, p, i as int);
            }
            return Some(i);
        }
        i = i + 1;
    }
    proof {
        lemma_first_index(lv, p, i as int);
    }
    None
}

/// The index of the first link of `v` whose href is `href`.
pub fn find_link_with_href(v: &Vec<Link>, href: &str) -> (r: Option<usize>)
    ensures
        r matches Some(i) ==> first_index(links_view(v@), |l: LinkV| l.href == href@) == Some(
            i as int,
        ) && i < v.len(),
        r is None ==> first_index(links_view(v@), |l: LinkV| l.href == href@) is None,
{
    let ghost p = |l: LinkV| l.href == href@;
    let ghost lv = links_view(v@);
    let mut i: usize = 0;
    while i < v.len()
        invariant
            0 <= i <= v.len(),
            lv == links_view(v@),
            p == (|l: LinkV| l.href == href@),
            forall|j: int| 0 <= j < i ==> !p(#[trigger] lv[j]),
        decreases v.len() - i,
    {
        if str_eq(v[i].href.as_str(), href) {
            proof {
                lemma_first_index(lv, p, i as int);
            }
            return Some(i);
        }
        i = i + 1;
    }
    proof {
        lemma_first_index(lv, p, i as int);
    }
    None
}

impl Link {
    /// The link with an empty href and nothing else.
    pub fn default() -> (r: Self)
        ensures
            r@ == empty_link(),
    {
        let r = Link {
            href: String::new(),
            type_link: None,
            rel: Vec::new(),
            height: None,
            width: None,
            title: None,
            properties: None,
            duration: None,
            templated: None,
            children: None,
            bitrate: None,
            mediaoverlays: None,
        };
        assert(r@.rel =~= Seq::<Seq<char>>::empty());
        r
    }

    /// Whether the link has the relation `rel`.
    pub fn has_rel(&self, rel: &str) -> (r: bool)
        ensures
            r == has_rel(self@, rel@),
    {
        let mut i: usize = 0;
        while i < self.rel.len()
            invariant
                0 <= i <= self.rel.len(),
                forall|j: int| 0 <= j < i ==> self.rel.deep_view()[j] != rel@,
            decreases self.rel.len() - i,
        {
            if str_eq(self.rel[i].as_str(), rel) {
                assert(self.rel.deep_view()[i as int] == rel@);
                return true;
            }
            i = i + 1;
        }
        false
    }

    /// Adds the relation `s`, unless the link has it already.
    pub fn add_rel(&mut self, s: &str)
        ensures
            final(self)@ == with_rel(old(self)@, s@),
    {
        if !self.has_rel(s) {
            let ghost before = self.rel.deep_view();
            self.rel.push(copy_str(s));
            assert(self.rel.deep_view() =~= before.push(s@));
        }
    }

    /// Sets the href to `href` taken relative to the directory of
    /// `basefile`; nothing changes when that path cannot be formed.
    pub fn add_href_absolute(&mut self, href: &str, basefile: &str)
        ensures
            final(self)@ == (LinkV {
                href: match resolve_href(href@, basefile@) {
                    Some(h) => h,
                    None => old(self)@.href,
                },
                ..old(self)@
            }),
    {
        if let Some(dir) = path_parent(basefile) {
            if let Some(s) = path_join(dir.as_str(), href) {
                self.href = s;
            }
        }
    }
}

/// Errors when looking something up in a publication.
pub enum Error {
    NotFound(String),
    Unknown,
}

impl Error {
    /// The unknown error (the default).
    pub fn default() -> (r: Self)
        ensures
            r is Unknown,
    {
        Error::Unknown
    }
}

/// The message of a failed lookup of `what`.
pub open spec fn not_found_message(what: Seq<char>) -> Seq<char> {
    "Can't find "@ + str_debug(what) + " in publication"@
}

fn not_found(what: &str) -> (r: Error)
    ensures
        r matches Error::NotFound(m) && m@ == not_found_message(what@),
{
    let d = debug_str(what);
    let a = concat_str("Can't find ", d.as_str());
    let m = concat_str(a.as_str(), " in publication");
    Error::NotFound(m)
}

/// A collection of links and metadata inside a publication.
pub struct PublicationCollection {
    pub role: String,
    pub metadata: Vec<Meta>,
    pub links: Vec<Link>,
    pub children: Vec<PublicationCollection>,
}

/// Contributors, by their views.
pub open spec fn contributors_view(s: Seq<Contributor>) -> Seq<ContributorV> {
    s.map_values(|c: Contributor| c@)
}

/// Optional contributors, by their views.
pub open spec fn opt_contributors_view(o: Option<Vec<Contributor>>) -> Option<Seq<ContributorV>> {
    match o {
        Some(v) => Some(contributors_view(v@)),
        None => None,
    }
}

/// Optional subjects, by their views.
pub open spec fn opt_subjects_view(o: Option<Vec<Subject>>) -> Option<Seq<SubjectV>> {
    match o {
        Some(v) => Some(v@.map_values(|c: Subject| c@)),
        None => None,
    }
}

/// The metadata of a publication.
pub struct Metadata {
    pub rdftype: String,
    pub title: MultiLanguage,
    pub identifier: Option<String>,
    pub author: Option<Vec<Contributor>>,
    pub translator: Option<Vec<Contributor>>,
    pub editor: Option<Vec<Contributor>>,
    pub artist: Option<Vec<Contributor>>,
    pub illustrator: Option<Vec<Contributor>>,
    pub letterer: Option<Vec<Contributor>>,
    pub penciler: Option<Vec<Contributor>>,
    pub colorist: Option<Vec<Contributor>>,
    pub inker: Option<Vec<Contributor>>,
    pub narrator: Option<Vec<Contributor>>,
    pub contributor: Option<Vec<Contributor>>,
    pub publisher: Option<Vec<Contributor>>,
    pub imprint: Option<Vec<Contributor>>,
    pub language: Option<Vec<String>>,
    pub modified: Option<String>,
    pub publication_date: Option<String>,
    pub description: Option<String>,
    pub direction: Option<String>,
    pub presentation: Option<Properties>,
    pub source: Option<String>,
    pub epub_type: Option<Vec<String>>,
    pub rights: Option<String>,
    pub subject: Option<Vec<Subject>>,
    pub duration: Option<u32>,
    pub other_metadata: Option<Vec<Meta>>,
}

pub ghost struct MetadataV {
    pub rdftype: Seq<char>,
    pub title: MultiLanguageV,
    pub identifier: Option<Seq<char>>,
    pub author: Option<Seq<ContributorV>>,
    pub translator: Option<Seq<ContributorV>>,
    pub editor: Option<Seq<ContributorV>>,
    pub artist: Option<Seq<ContributorV>>,
    pub illustrator: Option<Seq<ContributorV>>,
    pub letterer: Option<Seq<ContributorV>>,
    pub penciler: Option<Seq<ContributorV>>,
    pub colorist: Option<Seq<ContributorV>>,
    pub inker: Option<Seq<ContributorV>>,
    pub narrator: Option<Seq<ContributorV>>,
    pub contributor: Option<Seq<ContributorV>>,
    pub publisher: Option<Seq<ContributorV>>,
    pub imprint: Option<Seq<ContributorV>>,
    pub language: Option<Seq<Seq<char>>>,
    pub modified: Option<Seq<char>>,
    pub publication_date: Option<Seq<char>>,
    pub description: Option<Seq<char>>,
    pub direction: Option<Seq<char>>,
    pub presentation: Option<PropertiesV>,
    pub source: Option<Seq<char>>,
    pub epub_type: Option<Seq<Seq<char>>>,
    pub rights: Option<Seq<char>>,
    pub subject: Option<Seq<SubjectV>>,
    pub duration: Option<u32>,
    pub other_metadata: Option<Vec<Meta>>,
}

impl View for Metadata {
    type V = MetadataV;

    open spec fn view(&self) -> MetadataV {
        MetadataV {
            rdftype: self.rdftype@,
            title: self.title@,
            identifier: opt_view(self.identifier),
            author: opt_contributors_view(self.author),
            translator: opt_contributors_view(self.translator),
            editor: opt_contributors_view(self.editor),
            artist: opt_contributors_view(self.artist),
            illustrator: opt_contributors_view(self.illustrator),
            letterer: opt_contributors_view(self.letterer),
            penciler: opt_contributors_view(self.penciler),
            colorist: opt_contributors_view(self.colorist),
            inker: opt_contributors_view(self.inker),
            narrator: opt_contributors_view(self.narrator),
            contributor: opt_contributors_view(self.contributor),
            publisher: opt_contributors_view(self.publisher),
            imprint: opt_contributors_view(self.imprint),
            language: opt_strings_view(self.language),
            modified: opt_view(self.modified),
            publication_date: opt_view(self.publication_date),
            description: opt_view(self.description),
            direction: opt_view(self.direction),
            presentation: opt_properties_view(self.presentation),
            source: opt_view(self.source),
            epub_type: opt_strings_view(self.epub_type),
            rights: opt_view(self.rights),
            subject: opt_subjects_view(self.subject),
            duration: self.duration,
            other_metadata: self.other_metadata,
        }
    }
}

/// The metadata with an empty type and title and nothing else.
pub open spec fn empty_metadata() -> MetadataV {
    MetadataV {
        rdftype: Seq::empty(),
        title: MultiLanguageV::Single(Seq::empty()),
        identifier: None,
        author: None,
        translator: None,
        editor: None,
        artist: None,
        illustrator: None,
        letterer: None,
        penciler: None,
        colorist: None,
        inker: None,
        narrator: None,
        contributor: None,
        publisher: None,
        imprint: None,
        language: None,
        modified: None,
        publication_date: None,
        description: None,
        direction: None,
        presentation: None,
        source: None,
        epub_type: None,
        rights: None,
        subject: None,
        duration: None,
        other_metadata: None,
    }
}

impl Metadata {
    /// The metadata with an empty type and title and nothing else.
    pub fn default() -> (r: Self)
        ensures
            r@ == empty_metadata(),
    {
        Metadata {
            rdftype: String::new(),
            title: MultiLanguage::default(),
            identifier: None,
            author: None,
            translator: None,
            editor: None,
            artist: None,
            illustrator: None,
            letterer: None,
            penciler: None,
            colorist: None,
            inker: None,
            narrator: None,
            contributor: None,
            publisher: None,
            imprint: None,
            language: None,
            modified: None,
            publication_date: None,
            description: None,
            direction: None,
            presentation: None,
            source: None,
            epub_type: None,
            rights: None,
            subject: None,
            duration: None,
            other_metadata: None,
        }
    }
}

/// A publication: its metadata and the lists of links to its resources.
pub struct Publication {
    pub context: Vec<String>,
    pub metadata: Metadata,
    pub links: Vec<Link>,
    pub reading_order: Vec<Link>,
    pub resources: Vec<Link>,
    pub toc: Vec<Link>,
    pub page_list: Vec<Link>,
    pub landmarks: Vec<Link>,
    pub loi: Option<Vec<Link>>,
    pub loa: Option<Vec<Link>>,
    pub lov: Option<Vec<Link>>,
    pub lot: Option<Vec<Link>>,
    pub other_links: Option<Vec<Link>>,
    pub other_collections: Option<Vec<PublicationCollection>>,
    pub raw_resources: Vec<RawResource>,
}

/// The media types of the resources worth fetching ahead.
pub open spec fn prefetch_media_type(t: Seq<char>) -> bool {
    t == "text/css"@ || t == "application/vnd.ms-opentype"@ || t == "text/javascript"@
}

/// The overlays of the links of `links` that satisfy `keep`, in order.
pub open spec fn overlays_of(links: Seq<Link>, keep: spec_fn(Link) -> bool) -> Seq<MediaOverlayNode>
    decreases links.len(),
{
    if links.len() == 0 {
        Seq::empty()
    } else {
        let l = links.last();
        overlays_of(links.drop_last(), keep) + if keep(l) && l.mediaoverlays is Some {
            l.mediaoverlays->Some_0@
        } else {
            Seq::empty()
        }
    }
}

/// The nodes that a sequence of references points to.
pub open spec fn derefs(s: Seq<&MediaOverlayNode>) -> Seq<MediaOverlayNode> {
    Seq::new(s.len(), |i: int| *s[i])
}

/// Where a lookup over resources, reading order and links finds its link:
/// the list (0, 1 or 2) and the index in it.
pub open spec fn lookup_in_order(
    p: &Publication,
    pred: spec_fn(LinkV) -> bool,
) -> Option<(int, int)> {
    match first_index(links_view(p.resources@), pred) {
        Some(i) => Some((0, i)),
        None => match first_index(links_view(p.reading_order@), pred) {
            Some(i) => Some((1, i)),
            None => match first_index(links_view(p.links@), pred) {
                Some(i) => Some((2, i)),
                None => None,
            },
        },
    }
}

/// Where `first_index` finds an element, it is in range and satisfies `p`.
pub proof fn lemma_first_index_found<T>(s: Seq<T>, p: spec_fn(T) -> bool)
    ensures
        first_index(s, p) matches Some(i) ==> 0 <= i < s.len() && p(s[i]),
    decreases s.len(),
{
    if s.len() > 0 {
        lemma_first_index_found(s.drop_first(), p);
        if let Some(i) = first_index(s.drop_first(), p) {
            assert(s.drop_first()[i] == s[i + 1]);
        }
    }
}

/// A link appended to a list that had none satisfying `p` is the first
/// that satisfies it; one that had such a link keeps it first.
pub proof fn lemma_first_index_push<T>(s: Seq<T>, x: T, p: spec_fn(T) -> bool)
    ensures
        first_index(s, p) matches Some(i) ==> first_index(s.push(x), p) == Some(i),
        first_index(s, p) is None && p(x) ==> first_index(s.push(x), p) == Some(s.len() as int),
        first_index(s, p) is None && !p(x) ==> first_index(s.push(x), p) is None,
    decreases s.len(),
{
    if s.len() > 0 {
        assert(s.push(x).drop_first() =~= s.drop_first().push(x));
        lemma_first_index_push(s.drop_first(), x, p);
        assert(s.push(x)[0] == s[0]);
    } else {
        assert(s.push(x)[0] == x);
        assert(s.push(x).drop_first() =~= Seq::<T>::empty());
        assert(first_index(s.push(x).drop_first(), p) is None);
    }
}

/// What a lookup over resources, reading order and links finds after a
/// link `l` is appended to the links: the same link as before, if one was
/// found before; else `l` itself, if it satisfies `pred`.
pub proof fn lemma_lookup_after_added_link(
    before: Publication,
    after: Publication,
    l: LinkV,
    pred: spec_fn(LinkV) -> bool,
)
    requires
        after.resources == before.resources,
        after.reading_order == before.reading_order,
        links_view(after.links@) == links_view(before.links@).push(l),
    ensures
        lookup_in_order(&before, pred) matches Some(at) ==> lookup_in_order(&after, pred) == Some(at)
            && looked_up(&after, at)@ == looked_up(&before, at)@,
        lookup_in_order(&before, pred) is None && pred(l) ==> lookup_in_order(&after, pred) == Some(
            (2int, before.links@.len() as int),
        ) && looked_up(&after, (2int, before.links@.len() as int))@ == l,
        lookup_in_order(&before, pred) is None && !pred(l) ==> lookup_in_order(&after, pred) is None,
{
    lemma_first_index_push(links_view(before.links@), l, pred);
    lemma_first_index_found(links_view(before.links@), pred);
    let n = before.links@.len() as int;
    assert(links_view(after.links@)[n] == l);
    assert(after.links@.len() == n + 1);
    if let Some(at) = lookup_in_order(&before, pred) {
        if at.0 == 2 {
            assert(links_view(after.links@)[at.1] == links_view(before.links@)[at.1]);
        }
    }
}

/// The link a lookup found.
pub open spec fn looked_up(p: &Publication, at: (int, int)) -> Link {
    if at.0 == 0 {
        p.resources@[at.1]
    } else if at.0 == 1 {
        p.reading_order@[at.1]
    } else {
        p.links@[at.1]
    }
}

impl Publication {
    /// The first link with the relation `rel`, looking in the resources, then
    /// the reading order, then the links.
    pub fn search_link_by_rel2(&self, rel: &str) -> (r: Result<&Link, Error>)
        ensures
            match lookup_in_order(self, |l: LinkV| has_rel(l, rel@)) {
                Some(at) => r matches Ok(l) && *l == looked_up(self, at),
                None => r matches Err(Error::NotFound(m)) && m@ == not_found_message(rel@),
            },
    {
        if let Some(i) = find_link_with_rel(&self.resources, rel) {
            return Ok(&self.resources[i]);
        }
        if let Some(i) = find_link_with_rel(&self.reading_order, rel) {
            return Ok(&self.reading_order[i]);
        }
        if let Some(i) = find_link_with_rel(&self.links, rel) {
            return Ok(&self.links[i]);
        }
        Err(not_found(rel))
    }

    /// The cover: the first link with the relation "cover".
    pub fn get_cover(&self) -> (r: Result<&Link, Error>)
        ensures
            match lookup_in_order(self, |l: LinkV| has_rel(l, "cover"@)) {
                Some(at) => r matches Ok(l) && *l == looked_up(self, at),
                None => r matches Err(Error::NotFound(m)) && m@ == not_found_message("cover"@),
            },
    {
        self.search_link_by_rel2("cover")
    }

    /// The navigation document: the first link with the relation "contents".
    pub fn get_nav_doc(&self) -> (r: Result<&Link, Error>)
        ensures
            match lookup_in_order(self, |l: LinkV| has_rel(l, "contents"@)) {
                Some(at) => r matches Ok(l) && *l == looked_up(self, at),
                None => r matches Err(Error::NotFound(m)) && m@ == not_found_message("contents"@),
            },
    {
        self.search_link_by_rel("contents")
    }

    /// The first link with the relation `rel`, looking in the resources, then
    /// the reading order, then the links (as `search_link_by_rel2`).
    pub fn search_link_by_rel(&self, rel: &str) -> (r: Result<&Link, Error>)
        ensures
            match lookup_in_order(self, |l: LinkV| has_rel(l, rel@)) {
                Some(at) => r matches Ok(l) && *l == looked_up(self, at),
                None => r matches Err(Error::NotFound(m)) && m@ == not_found_message(rel@),
            },
    {
        self.search_link_by_rel2(rel)
    }

    /// The first link whose href is `href`, looking in the resources, then the
    /// reading order, then the links.
    pub fn search_link_by_href(&self, href: &str) -> (r: Result<&Link, Error>)
        ensures
            match lookup_in_order(self, |l: LinkV| l.href == href@) {
                Some(at) => r matches Ok(l) && *l == looked_up(self, at),
                None => r matches Err(Error::NotFound(m)) && m@ == not_found_message(href@),
            },
    {
        if let Some(i) = find_link_with_href(&self.resources, href) {
            return Ok(&self.resources[i]);
        }
        if let Some(i) = find_link_with_href(&self.reading_order, href) {
            return Ok(&self.reading_order[i]);
        }
        if let Some(i) = find_link_with_href(&self.links, href) {
            return Ok(&self.links[i]);
        }
        Err(not_found(href))
    }

    /// Adds a link to `url` of type `type_link`, with the relations `rel`.
    pub fn add_link2(&mut self, type_link: String, rel: &Vec<String>, url: String, templated: bool)
        ensures
            links_view(final(self).links@) == links_view(old(self).links@).push(
                LinkV {
                    href: url@,
                    type_link: Some(type_link@),
                    rel: rel.deep_view(),
                    templated: Some(templated),
                    ..empty_link()
                },
            ),
            final(self).resources == old(self).resources,
            final(self).reading_order == old(self).reading_order,
            final(self).metadata == old(self).metadata,
    {
        let mut link = Link::default();
        link.href = url;
        link.type_link = Some(type_link);
        link.templated = Some(templated);
        let mut rels: Vec<String> = Vec::new();
        let mut i: usize = 0;
        while i < rel.len()
            invariant
                0 <= i <= rel.len(),
                rels.deep_view() == rel.deep_view().subrange(0, i as int),
            decreases rel.len() - i,
        {
            let r = copy_str(rel[i].as_str());
            assert(r@ == rel@[i as int]@);
            let ghost prev = rels.deep_view();
            rels.push(r);
            assert(rels.deep_view() =~= prev.push(r@));
            i = i + 1;
            assert(rels.deep_view() =~= rel.deep_view().subrange(0, i as int));
        }
        assert(rel.deep_view().subrange(0, rel.len() as int) =~= rel.deep_view());
        link.rel = rels;
        let ghost before = links_view(self.links@);
        self.links.push(link);
        assert(links_view(self.links@) =~= before.push(link@));
    }

    /// Adds a link to `url` of type `type_link`, with the relations `rel`,
    /// which it takes over.
    pub fn add_link(&mut self, type_link: String, rel: Vec<String>, url: String, templated: bool)
        ensures
            links_view(final(self).links@) == links_view(old(self).links@).push(
                LinkV {
                    href: url@,
                    type_link: Some(type_link@),
                    rel: rel.deep_view(),
                    templated: Some(templated),
                    ..empty_link()
                },
            ),
            final(self).resources == old(self).resources,
            final(self).reading_order == old(self).reading_order,
            final(self).metadata == old(self).metadata,
    {
        let mut link = Link::default();
        link.href = url;
        link.type_link = Some(type_link);
        link.templated = Some(templated);
        if rel.len() > 0 {
            link.rel = rel;
        }
        proof {
            if rel.len() == 0 {
                assert(rel.deep_view() =~= Seq::<Seq<char>>::empty());
            }
        }
        let ghost before = links_view(self.links@);
        self.links.push(link);
        assert(links_view(self.links@) =~= before.push(link@));
    }

    /// The media overlays of the links of the reading order, in order.
    pub fn find_all_mediaoverlay(&self) -> (r: Vec<&MediaOverlayNode>)
        ensures
            derefs(r@) == overlays_of(self.reading_order@, |l: Link| true),
    {
        let mut overlay: Vec<&MediaOverlayNode> = Vec::new();
        let mut i: usize = 0;
        while i < self.reading_order.len()
            invariant
                0 <= i <= self.reading_order.len(),
                derefs(overlay@) == overlays_of(self.reading_order@.subrange(0, i as int), |l: Link| true),
            decreases self.reading_order.len() - i,
        {
            let ghost before = derefs(overlay@);
            let link = &self.reading_order[i];
            if let Some(ovs) = &link.mediaoverlays {
                let mut k: usize = 0;
                while k < ovs.len()
                    invariant
                        0 <= k <= ovs.len(),
                        derefs(overlay@) == before + ovs@.subrange(0, k as int),
                    decreases ovs.len() - k,
                {
                    let ghost prev = overlay@;
                    overlay.push(&ovs[k]);
                    assert(derefs(overlay@) =~= derefs(prev).push(ovs@[k as int]));
                    k = k + 1;
                    assert(derefs(overlay@) =~= before + ovs@.subrange(0, k as int));
                }
                assert(ovs@.subrange(0, ovs.len() as int) =~= ovs@);
            } else {
                assert(derefs(overlay@) =~= before + Seq::<MediaOverlayNode>::empty());
            }
            assert(self.reading_order@.subrange(0, i + 1).drop_last() =~= self.reading_order@.subrange(
                0,
                i as int,
            ));
            i = i + 1;
        }
        assert(self.reading_order@.subrange(0, self.reading_order.len() as int)
            =~= self.reading_order@);
        overlay
    }

    /// The media overlays of the links of the reading order whose href
    /// contains `href`, in order.
    pub fn find_all_mediaoverlay_by_ref(&self, href: &str) -> (r: Vec<&MediaOverlayNode>)
        ensures
            derefs(r@) == overlays_of(self.reading_order@, |l: Link| contains_seq(l.href@, href@)),
    {
        let ghost keep = |l: Link| contains_seq(l.href@, href@);
        let mut overlay: Vec<&MediaOverlayNode> = Vec::new();
        let mut i: usize = 0;
        while i < self.reading_order.len()
            invariant
                0 <= i <= self.reading_order.len(),
                keep == (|l: Link| contains_seq(l.href@, href@)),
                derefs(overlay@) == overlays_of(self.reading_order@.subrange(0, i as int), keep),
            decreases self.reading_order.len() - i,
        {
            let ghost before = derefs(overlay@);
            let link = &self.reading_order[i];
            if str_contains(link.href.as_str(), href) {
                if let Some(ovs) = &link.mediaoverlays {
                    let mut k: usize = 0;
                    while k < ovs.len()
                        invariant
                            0 <= k <= ovs.len(),
                            derefs(overlay@) == before + ovs@.subrange(0, k as int),
                        decreases ovs.len() - k,
                    {
                        let ghost prev = overlay@;
                        overlay.push(&ovs[k]);
                        assert(derefs(overlay@) =~= derefs(prev).push(ovs@[k as int]));
                        k = k + 1;
                        assert(derefs(overlay@) =~= before + ovs@.subrange(0, k as int));
                    }
                    assert(ovs@.subrange(0, ovs.len() as int) =~= ovs@);
                } else {
                    assert(derefs(overlay@) =~= before + Seq::<MediaOverlayNode>::empty());
                }
            } else {
                assert(derefs(overlay@) =~= before + Seq::<MediaOverlayNode>::empty());
            }
            assert(self.reading_order@.subrange(0, i + 1).drop_last() =~= self.reading_order@.subrange(
                0,
                i as int,
            ));
            i = i + 1;
        }
        assert(self.reading_order@.subrange(0, self.reading_order.len() as int)
            =~= self.reading_order@);
        overlay
    }
}

/// The links of `s` whose media type satisfies `keep`, in order.
pub open spec fn links_with_type(s: Seq<Link>, keep: spec_fn(Seq<char>) -> bool) -> Seq<Link>
    decreases s.len(),
{
    if s.len() == 0 {
        Seq::empty()
    } else {
        let l = s.last();
        links_with_type(s.drop_last(), keep) + if l.type_link is Some && keep(
            l.type_link->Some_0@,
        ) {
            seq![l]
        } else {
            Seq::empty()
        }
    }
}

/// The links that a sequence of references points to.
pub open spec fn link_derefs(s: Seq<&Link>) -> Seq<Link> {
    Seq::new(s.len(), |i: int| *s[i])
}

fn is_prefetch_media_type(t: &str) -> (r: bool)
    ensures
        r == prefetch_media_type(t@),
{
    str_eq(t, "text/css") || str_eq(t, "application/vnd.ms-opentype") || str_eq(
        t,
        "text/javascript",
    )
}

impl Publication {
    /// The resources worth fetching ahead: style sheets, fonts and scripts.
    pub fn get_prefetch_resources(&self) -> (r: Vec<&Link>)
        ensures
            link_derefs(r@) == links_with_type(self.resources@, |t: Seq<char>| prefetch_media_type(t)),
    {
        let ghost keep = |t: Seq<char>| prefetch_media_type(t);
        let mut out: Vec<&Link> = Vec::new();
        let mut i: usize = 0;
        while i < self.resources.len()
            invariant
                0 <= i <= self.resources.len(),
                keep == (|t: Seq<char>| prefetch_media_type(t)),
                link_derefs(out@) == links_with_type(self.resources@.subrange(0, i as int), keep),
            decreases self.resources.len() - i,
        {
            let ghost before = link_derefs(out@);
            let link = &self.resources[i];
            let mut pick = false;
            if let Some(t) = &link.type_link {
                pick = is_prefetch_media_type(t.as_str());
            }
            if pick {
                out.push(link);
                assert(link_derefs(out@) =~= before + seq![self.resources@[i as int]]);
            } else {
                assert(link_derefs(out@) =~= before + Seq::<Link>::empty());
            }
            assert(self.resources@.subrange(0, i + 1).drop_last() =~= self.resources@.subrange(
                0,
                i as int,
            ));
            i = i + 1;
        }
        assert(self.resources@.subrange(0, self.resources.len() as int) =~= self.resources@);
        out
    }
}

pub ghost struct PublicationV {
    pub context: Seq<Seq<char>>,
    pub metadata: MetadataV,
    pub links: Seq<LinkV>,
    pub reading_order: Seq<LinkV>,
    pub resources: Seq<LinkV>,
    pub toc: Seq<LinkV>,
    pub page_list: Seq<LinkV>,
    pub landmarks: Seq<LinkV>,
    pub loi: Option<Vec<Link>>,
    pub loa: Option<Vec<Link>>,
    pub lov: Option<Vec<Link>>,
    pub lot: Option<Vec<Link>>,
    pub other_links: Option<Vec<Link>>,
    pub other_collections: Option<Vec<PublicationCollection>>,
    pub raw_resources: Map<Seq<u8>, (Seq<u8>, bool, Option<XmlDocument>)>,
}

impl View for Publication {
    type V = PublicationV;

    open spec fn view(&self) -> PublicationV {
        PublicationV {
            context: self.context.deep_view(),
            metadata: self.metadata@,
            links: links_view(self.links@),
            reading_order: links_view(self.reading_order@),
            resources: links_view(self.resources@),
            toc: links_view(self.toc@),
            page_list: links_view(self.page_list@),
            landmarks: links_view(self.landmarks@),
            loi: self.loi,
            loa: self.loa,
            lov: self.lov,
            lot: self.lot,
            other_links: self.other_links,
            other_collections: self.other_collections,
            raw_resources: raw_resources_view(self.raw_resources@),
        }
    }
}

/// The publication with nothing in it.
pub open spec fn empty_publication() -> PublicationV {
    PublicationV {
        context: Seq::empty(),
        metadata: empty_metadata(),
        links: Seq::empty(),
        reading_order: Seq::empty(),
        resources: Seq::empty(),
        toc: Seq::empty(),
        page_list: Seq::empty(),
        landmarks: Seq::empty(),
        loi: None,
        loa: None,
        lov: None,
        lot: None,
        other_links: None,
        other_collections: None,
        raw_resources: Map::empty(),
    }
}

impl Publication {
    /// The publication with nothing in it.
    pub fn default() -> (r: Self)
        ensures
            r@ == empty_publication(),
    {
        let r = Publication {
            context: Vec::new(),
            metadata: Metadata::default(),
            links: Vec::new(),
            reading_order: Vec::new(),
            resources: Vec::new(),
            toc: Vec::new(),
            page_list: Vec::new(),
            landmarks: Vec::new(),
            loi: None,
            loa: None,
            lov: None,
            lot: None,
            other_links: None,
            other_collections: None,
            raw_resources: Vec::new(),
        };
        assert(r@.context =~= Seq::<Seq<char>>::empty());
        assert(r@.links =~= Seq::<LinkV>::empty());
        assert(r@.reading_order =~= Seq::<LinkV>::empty());
        assert(r@.resources =~= Seq::<LinkV>::empty());
        assert(r@.toc =~= Seq::<LinkV>::empty());
        assert(r@.page_list =~= Seq::<LinkV>::empty());
        assert(r@.landmarks =~= Seq::<LinkV>::empty());
        r
    }
}

/// A member of a publication, as a manifest lists it.
pub enum PublicationMembers<'a> {
    Strings(&'a Vec<String>),
    Metadata(&'a Metadata),
    Links(&'a Vec<Link>),
}

impl Publication {
    /// The members of the publication in manifest order: the context (where
    /// it is not empty), the metadata, then the links, the reading order,
    /// the resources, the table of contents, the page list and the
    /// landmarks.
    pub fn create_member_index(&self) -> (r: Vec<PublicationMembers<'_>>)
        ensures
            r@ == (if self.context@.len() > 0 {
                seq![PublicationMembers::Strings(&self.context)]
            } else {
                Seq::empty()
            }) + seq![
                PublicationMembers::Metadata(&self.metadata),
                PublicationMembers::Links(&self.links),
                PublicationMembers::Links(&self.reading_order),
                PublicationMembers::Links(&self.resources),
                PublicationMembers::Links(&self.toc),
                PublicationMembers::Links(&self.page_list),
                PublicationMembers::Links(&self.landmarks),
            ],
    {
        let mut result: Vec<PublicationMembers<'_>> = Vec::new();
        if self.context.len() > 0 {
            result.push(PublicationMembers::Strings(&self.context));
        }
        result.push(PublicationMembers::Metadata(&self.metadata));
        result.push(PublicationMembers::Links(&self.links));
        result.push(PublicationMembers::Links(&self.reading_order));
        result.push(PublicationMembers::Links(&self.resources));
        result.push(PublicationMembers::Links(&self.toc));
        result.push(PublicationMembers::Links(&self.page_list));
        result.push(PublicationMembers::Links(&self.landmarks));
        assert(result@ =~= (if self.context@.len() > 0 {
            seq![PublicationMembers::Strings(&self.context)]
        } else {
            Seq::empty()
        }) + seq![
            PublicationMembers::Metadata(&self.metadata),
            PublicationMembers::Links(&self.links),
            PublicationMembers::Links(&self.reading_order),
            PublicationMembers::Links(&self.resources),
            PublicationMembers::Links(&self.toc),
            PublicationMembers::Links(&self.page_list),
            PublicationMembers::Links(&self.landmarks),
        ]);
        result
    }

    /// The members of the publication by their manifest keys, in the order
    /// of the keys: `@context` (where the context is not empty),
    /// `landmarks`, `links`, `metadata`, `pagelist`, `readingOrder`,
    /// `resources`, `toc`.
    pub fn create_member_map(&self) -> (r: Vec<(&'static str, PublicationMembers<'_>)>)
        ensures
            r@.map_values(|e: (&'static str, PublicationMembers<'_>)| e.0@) == (if self.context@.len()
                > 0 {
                seq!["@context"@]
            } else {
                Seq::empty()
            }) + seq![
                "landmarks"@,
                "links"@,
                "metadata"@,
                "pagelist"@,
                "readingOrder"@,
                "resources"@,
                "toc"@,
            ],
            r@.map_values(|e: (&'static str, PublicationMembers<'_>)| e.1) == (if self.context@.len()
                > 0 {
                seq![PublicationMembers::Strings(&self.context)]
            } else {
                Seq::empty()
            }) + seq![
                PublicationMembers::Links(&self.landmarks),
                PublicationMembers::Links(&self.links),
                PublicationMembers::Metadata(&self.metadata),
                PublicationMembers::Links(&self.page_list),
                PublicationMembers::Links(&self.reading_order),
                PublicationMembers::Links(&self.resources),
                PublicationMembers::Links(&self.toc),
            ],
    {
        let mut result: Vec<(&'static str, PublicationMembers<'_>)> = Vec::new();
        if self.context.len() > 0 {
            result.push(("@context", PublicationMembers::Strings(&self.context)));
        }
        result.push(("landmarks", PublicationMembers::Links(&self.landmarks)));
        result.push(("links", PublicationMembers::Links(&self.links)));
        result.push(("metadata", PublicationMembers::Metadata(&self.metadata)));
        result.push(("pagelist", PublicationMembers::Links(&self.page_list)));
        result.push(("readingOrder", PublicationMembers::Links(&self.reading_order)));
        result.push(("resources", PublicationMembers::Links(&self.resources)));
        result.push(("toc", PublicationMembers::Links(&self.toc)));
        assert(result@.map_values(|e: (&'static str, PublicationMembers<'_>)| e.0@) =~= (
        if self.context@.len() > 0 {
            seq!["@context"@]
        } else {
            Seq::empty()
        }) + seq![
            "landmarks"@,
            "links"@,
            "metadata"@,
            "pagelist"@,
            "readingOrder"@,
            "resources"@,
            "toc"@,
        ]);
        assert(result@.map_values(|e: (&'static str, PublicationMembers<'_>)| e.1) =~= (
        if self.context@.len() > 0 {
            seq![PublicationMembers::Strings(&self.context)]
        } else {
            Seq::empty()
        }) + seq![
            PublicationMembers::Links(&self.landmarks),
            PublicationMembers::Links(&self.links),
            PublicationMembers::Metadata(&self.metadata),
            PublicationMembers::Links(&self.page_list),
            PublicationMembers::Links(&self.reading_order),
            PublicationMembers::Links(&self.resources),
            PublicationMembers::Links(&self.toc),
        ]);
        result
    }
}

/// Named texts kept beside a publication; a later value for a name replaces
/// an earlier one.
pub struct HashMap {
    pub data: Vec<(String, String)>,
}

impl View for HashMap {
    type V = Map<Seq<char>, Seq<char>>;

    open spec fn view(&self) -> Map<Seq<char>, Seq<char>> {
        pairs_map(string_pairs_view(self.data@))
    }
}

impl HashMap {
    /// The map with no name.
    pub fn new() -> (r: Self)
        ensures
            r@ == Map::<Seq<char>, Seq<char>>::empty(),
    {
        let r = HashMap { data: Vec::new() };
        assert(string_pairs_view(r.data@) =~= Seq::<(Seq<char>, Seq<char>)>::empty());
        r
    }

    /// Sets the value of `key`.
    pub fn insert(&mut self, key: &str, value: String)
        ensures
            final(self)@ == old(self)@.insert(key@, value@),
    {
        let ghost before = string_pairs_view(self.data@);
        let ghost v = value@;
        self.data.push((copy_str(key), value));
        assert(string_pairs_view(self.data@).drop_last() =~= before);
        assert(string_pairs_view(self.data@).last() == (key@, v));
    }

    /// The value of `key`, if it has one.
    pub fn get(&self, key: &str) -> (r: Option<&String>)
        ensures
            match r {
                Some(v) => self@.dom().contains(key@) && v@ == self@[key@],
                None => !self@.dom().contains(key@),
            },
    {
        lookup_str(&self.data, key)
    }
}

/// What is kept under a name is read back under that name; the other names
/// keep their values.
pub proof fn lemma_internal_read_after_write(
    m: Map<Seq<char>, Seq<char>>,
    key: Seq<char>,
    value: Seq<char>,
    other: Seq<char>,
)
    ensures
        m.insert(key, value).dom().contains(key),
        m.insert(key, value)[key] == value,
        other != key ==> (m.insert(key, value).dom().contains(other) == m.dom().contains(other)),
        other != key && m.dom().contains(other) ==> m.insert(key, value)[other] == m[other],
{
}

/// A publication and the named values kept beside it while it is built.
pub struct PublicationWithInternal {
    pub publication: Publication,
    pub internal: HashMap,
}

pub ghost struct PublicationWithInternalV {
    pub publication: PublicationV,
    pub internal: Map<Seq<char>, Seq<char>>,
}

impl View for PublicationWithInternal {
    type V = PublicationWithInternalV;

    open spec fn view(&self) -> PublicationWithInternalV {
        PublicationWithInternalV { publication: self.publication@, internal: self.internal@ }
    }
}

impl PublicationWithInternal {
    /// The empty publication with no named value.
    pub fn default() -> (r: Self)
        ensures
            r@ == (PublicationWithInternalV {
                publication: empty_publication(),
                internal: Map::empty(),
            }),
    {
        PublicationWithInternal { publication: Publication::default(), internal: HashMap::new() }
    }

    /// Keeps `value` under the name `key`.
    pub fn add_to_internal(&mut self, key: &str, value: String)
        ensures
            final(self)@ == (PublicationWithInternalV {
                internal: old(self)@.internal.insert(key@, value@),
                ..old(self)@
            }),
    {
        self.internal.insert(key, value);
    }
}

/// The raw resources by name: their bytes, whether each is a document and
/// the parsed document kept with it; a later resource of a name replaces an
/// earlier one.
pub open spec fn raw_resources_view(s: Seq<RawResource>) -> Map<Seq<u8>, (Seq<u8>, bool, Option<XmlDocument>)> {
    pairs_map(s.map_values(|r: RawResource| (r.name@, (r.data@, r.is_document, r.document))))
}

/// A resource of the archive, with whether it is an XHTML document the
/// publication can select in, and the document parsed from it, when there
/// is one.
pub struct RawResource {
    pub name: Vec<u8>,
    pub data: Vec<u8>,
    pub is_document: bool,
    pub document: Option<XmlDocument>,
}

/// A named value kept beside a publication.
pub struct Internal {
    pub name: String,
    pub value: String,
}

} // verus!
