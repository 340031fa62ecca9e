//! Turns the documents of an EPUB into a Readium web publication.
use vstd::prelude::*;
use crate::xmldoc::Document as XmlDocument;
use crate::epub::opf::{
    opt_string_view, AsAuthor, Author, ManifestItem, Metafield, SpineItem, Title,
};
use crate::paths::resolve_href;
use crate::epubarchive::{utf8_text, EPubArchive, Epub};
use crate::epub::ncx::NavPoint;
use vstd::utf8::{decode_utf8, valid_utf8};
use crate::pairs::{pairs_map, string_pairs_view};
use crate::publication::lemma_with_rel;
use crate::publication::{
    contributors_view, empty_link, empty_properties, find_link_with_href, first_index, has_rel,
    keep, lemma_first_index, links_view, Contributor, ContributorV, Link, LinkV, MetadataV,
    MultiLanguage, MultiLanguageV, Properties, PropertiesV, PublicationV,
    PublicationWithInternal, PublicationWithInternalV, RawResource, Subject, SubjectV,
    empty_publication, lookup_in_order, looked_up,
};
use crate::strings::{
    concat_str, copy_str, join_strings, join_with, opt_str_eq, split_char, split_on, str_eq,
};
use vstd::string::StrSliceExecFns;

verus! {

broadcast use vstd::seq_lib::group_seq_properties;

/// The version the container file gives the package, or else the one the
/// package document gives itself.
pub open spec fn epub_version(book: Epub) -> Option<Seq<char>> {
    match book.container.rootfiles.rootfile.version {
        Some(v) => Some(v@),
        None => opt_string_view(book.opf.version),
    }
}

/// Whether the package is EPUB 3.0 or 3.1.
pub open spec fn is_epub3(book: Epub) -> bool {
    epub_version(book) == Some("3.0"@) || epub_version(book) == Some("3.1"@)
}

/// Whether the `meta` element refines the element of id `id` with the
/// property `property`.
pub open spec fn refines_with(m: Metafield, id: Seq<char>, property: Seq<char>) -> bool {
    opt_string_view(m.refines) == Some("#"@ + id) && opt_string_view(m.property) == Some(property)
}

/// `refines_with` as a predicate on `meta` elements.
pub open spec fn refine_pred(id: Seq<char>, property: Seq<char>) -> spec_fn(Metafield) -> bool {
    |m: Metafield| refines_with(m, id, property)
}

/// The `meta` elements that refine `id` with `property`, in order.
pub open spec fn metas_refining(book: Epub, id: Seq<char>, property: Seq<char>) -> Seq<Metafield> {
    keep(book.opf.metadata.meta@, refine_pred(id, property))
}

/// The elements that a sequence of references points to.
pub open spec fn meta_derefs(s: Seq<&Metafield>) -> Seq<Metafield> {
    Seq::new(s.len(), |i: int| *s[i])
}

/// The index of the last element of `s` that satisfies `p`.
pub open spec fn last_index<T>(s: Seq<T>, p: spec_fn(T) -> bool) -> Option<int>
    decreases s.len(),
{
    if s.len() == 0 {
        None
    } else if p(s.last()) {
        Some(s.len() - 1)
    } else {
        last_index(s.drop_last(), p)
    }
}

/// The (language, text) pairs of the alternate scripts that name their
/// language, in order.
pub open spec fn lang_pairs(alts: Seq<Metafield>) -> Seq<(Seq<char>, Seq<char>)>
    decreases alts.len(),
{
    if alts.len() == 0 {
        Seq::empty()
    } else {
        let rest = lang_pairs(alts.drop_last());
        match alts.last().lang {
            Some(l) => rest.push((l@, alts.last().content@)),
            None => rest,
        }
    }
}

/// An optional text, or the empty text.
pub open spec fn or_empty(o: Option<Seq<char>>) -> Seq<char> {
    match o {
        Some(s) => s,
        None => Seq::empty(),
    }
}

/// A title, by its characters.
pub ghost struct TitleV {
    pub content: Seq<char>,
    pub id: Option<Seq<char>>,
    pub lang: Option<Seq<char>>,
}

pub open spec fn title_view(t: Title) -> TitleV {
    TitleV { content: t.content@, id: opt_string_view(t.id), lang: opt_string_view(t.lang) }
}

/// Whether a `meta` element marks the element of id `id` as the main title.
pub open spec fn marks_main(m: Metafield, id: Seq<char>) -> bool {
    opt_string_view(m.refines) == Some("#"@ + id) && m.content@ == "main"@
}

/// Whether some `meta` element of the package marks the title as the main
/// one.
pub open spec fn is_main_title(book: Epub) -> spec_fn(Title) -> bool {
    |t: Title|
        t.id is Some && exists|j: int|
            0 <= j < book.opf.metadata.meta@.len() && marks_main(
                #[trigger] book.opf.metadata.meta@[j],
                t.id->Some_0@,
            )
}

/// The main title of an EPUB 3 package: the only title, or else the last
/// one marked main (an empty title when none is).
pub open spec fn main_title(book: Epub) -> TitleV {
    let ts = book.opf.metadata.title@;
    if ts.len() > 1 {
        match last_index(ts, is_main_title(book)) {
            Some(i) => title_view(ts[i]),
            None => TitleV { content: Seq::empty(), id: None, lang: None },
        }
    } else {
        title_view(ts[0])
    }
}

/// The title of the publication, or `None` where the package gives none.
pub open spec fn title_of(book: Epub) -> Option<MultiLanguageV> {
    let ts = book.opf.metadata.title@;
    if is_epub3(book) {
        let mt = main_title(book);
        let alts = metas_refining(book, or_empty(mt.id), "alternate-script"@);
        if alts.len() > 0 {
            Some(
                MultiLanguageV::Multi(
                    pairs_map(seq![(or_empty(mt.lang), mt.content)] + lang_pairs(alts)),
                ),
            )
        } else {
            Some(MultiLanguageV::Single(mt.content))
        }
    } else if ts.len() > 0 {
        Some(MultiLanguageV::Single(ts[0].content@))
    } else {
        None
    }
}

/// The publication with the metadata `m`.
pub open spec fn with_metadata(p: PublicationWithInternalV, m: MetadataV) -> PublicationWithInternalV {
    PublicationWithInternalV {
        publication: crate::publication::PublicationV { metadata: m, ..p.publication },
        ..p
    }
}

/// The metadata once the title is set.
#[verifier::opaque]
pub open spec fn title_step(m: MetadataV, book: Epub) -> MetadataV {
    match title_of(book) {
        Some(t) => MetadataV { title: t, ..m },
        None => m,
    }
}

/// The identifier of the publication, or `None` where none is chosen: the
/// only identifier, or among several the last one whose id is the unique
/// identifier of the package.
pub open spec fn identifier_of(book: Epub) -> Option<Seq<char>> {
    let ids = book.opf.metadata.identifier@;
    if ids.len() > 1 {
        match last_index(ids, unique_id_pred(book)) {
            Some(i) => Some(ids[i].content@),
            None => None,
        }
    } else if ids.len() == 1 {
        Some(ids[0].content@)
    } else {
        None
    }
}

/// Whether an identifier carries the unique identifier of the package.
pub open spec fn unique_id_pred(book: Epub) -> spec_fn(crate::epub::opf::Identifier) -> bool {
    |x: crate::epub::opf::Identifier| opt_string_view(x.id) == Some(book.opf.unique_identifier@)
}

/// The metadata once the identifier is set.
#[verifier::opaque]
pub open spec fn identifier_step(m: MetadataV, book: Epub) -> MetadataV {
    match identifier_of(book) {
        Some(i) => MetadataV { identifier: Some(i), ..m },
        None => m,
    }
}

/// The metadata once the languages are set.
#[verifier::opaque]
pub open spec fn language_step(m: MetadataV, book: Epub) -> MetadataV {
    let l = book.opf.metadata.language.deep_view();
    if l.len() > 0 {
        MetadataV { language: Some(l), ..m }
    } else {
        m
    }
}

/// The metadata once the rights are set: all `dc:rights`, joined by spaces.
#[verifier::opaque]
pub open spec fn rights_step(m: MetadataV, book: Epub) -> MetadataV {
    let r = join_with(book.opf.metadata.rights.deep_view(), " "@);
    if r.len() > 0 {
        MetadataV { rights: Some(r), ..m }
    } else {
        m
    }
}

/// The metadata once the description is set: the first `dc:description`.
#[verifier::opaque]
pub open spec fn description_step(m: MetadataV, book: Epub) -> MetadataV {
    let d = book.opf.metadata.description@;
    if d.len() > 0 {
        MetadataV { description: Some(d[0]@), ..m }
    } else {
        m
    }
}

/// The metadata once the source is set: the first `dc:source`.
#[verifier::opaque]
pub open spec fn source_step(m: MetadataV, book: Epub) -> MetadataV {
    let d = book.opf.metadata.source@;
    if d.len() > 0 {
        MetadataV { source: Some(d[0]@), ..m }
    } else {
        m
    }
}

/// A contributor known by name only.
pub open spec fn named(name: Seq<char>) -> ContributorV {
    ContributorV { name: MultiLanguageV::Single(name), sort_as: None, identifier: None, role: None }
}

/// Contributors known by the names `ps`.
pub open spec fn named_all(ps: Seq<String>) -> Seq<ContributorV> {
    ps.map_values(|p: String| named(p@))
}

/// The metadata once the publishers are set: one per `dc:publisher`.
#[verifier::opaque]
pub open spec fn publisher_step(m: MetadataV, book: Epub) -> MetadataV {
    let ps = book.opf.metadata.publisher@;
    if ps.len() > 0 {
        MetadataV { publisher: Some(named_all(ps)), ..m }
    } else {
        m
    }
}

/// The metadata once the reading direction is set from the spine.
#[verifier::opaque]
pub open spec fn page_progression_step(m: MetadataV, book: Epub) -> MetadataV {
    match book.opf.spine.page_progression {
        Some(pp) => if pp@.len() > 0 {
            MetadataV { direction: Some(pp@), ..m }
        } else {
            m
        },
        None => m,
    }
}

/// A person as the package gives it: the text, the role attribute and the
/// id.
pub ghost struct PersonV {
    pub content: Seq<char>,
    pub role: Option<Seq<char>>,
    pub id: Option<Seq<char>>,
}

pub open spec fn person_of<A: AsAuthor>(a: A) -> PersonV {
    PersonV { content: a.content_view(), role: a.role_view(), id: a.id_view() }
}

/// The role of a person: in EPUB 3, the content of the first `meta` element
/// that refines its id with the property `role`; else its role attribute;
/// in either case `forced` where that gives the empty text.
pub open spec fn role_of(book: Epub, c: PersonV, forced: Seq<char>) -> Seq<char> {
    let metas = book.opf.metadata.meta@;
    let r0 = if is_epub3(book) {
        match c.id {
            Some(id) => match first_index(metas, refine_pred(id, "role"@)) {
                Some(i) => metas[i].content@,
                None => Seq::empty(),
            },
            None => Seq::empty(),
        }
    } else {
        or_empty(c.role)
    };
    if r0.len() == 0 && forced.len() > 0 {
        forced
    } else {
        r0
    }
}

/// Whether naming the person needs the first language of the publication:
/// an EPUB 3 person with an id that alternate scripts refine.
pub open spec fn needs_language(book: Epub, c: PersonV) -> bool {
    is_epub3(book) && c.id is Some && metas_refining(book, c.id->Some_0, "alternate-script"@).len()
        > 0
}

/// Whether the metadata has a first language.
pub open spec fn has_language(m: MetadataV) -> bool {
    m.language matches Some(l) && l.len() > 0
}

/// The name of a person: in EPUB 3, its text, or its text in the first
/// language of the publication together with its alternate scripts by
/// language, or the empty text where it has no id; else its text.
pub open spec fn name_of(book: Epub, m: MetadataV, c: PersonV) -> MultiLanguageV {
    if is_epub3(book) {
        match c.id {
            Some(id) => {
                let alts = metas_refining(book, id, "alternate-script"@);
                if alts.len() > 0 {
                    MultiLanguageV::Multi(
                        pairs_map(seq![(m.language->Some_0[0], c.content)] + lang_pairs(alts)),
                    )
                } else {
                    MultiLanguageV::Single(c.content)
                }
            },
            None => MultiLanguageV::Single(Seq::empty()),
        }
    } else {
        MultiLanguageV::Single(c.content)
    }
}

/// A list of contributors with `c` added at its end.
pub open spec fn push_to(o: Option<Seq<ContributorV>>, c: ContributorV) -> Option<Seq<ContributorV>> {
    match o {
        Some(s) => Some(s.push(c)),
        None => Some(seq![c]),
    }
}

/// The metadata once the person is added to the list its role picks:
/// authors, translators, artists, editors, illustrators, colorists,
/// narrators, publishers, or else the contributors with the role (if any).
pub open spec fn contributor_step(m: MetadataV, book: Epub, c: PersonV, forced: Seq<char>) -> MetadataV {
    let role = role_of(book, c, forced);
    let cv = ContributorV {
        name: name_of(book, m, c),
        sort_as: None,
        identifier: None,
        role: None,
    };
    if role == "aut"@ {
        MetadataV { author: push_to(m.author, cv), ..m }
    } else if role == "trl"@ {
        MetadataV { translator: push_to(m.translator, cv), ..m }
    } else if role == "art"@ {
        MetadataV { artist: push_to(m.artist, cv), ..m }
    } else if role == "edt"@ {
        MetadataV { editor: push_to(m.editor, cv), ..m }
    } else if role == "ill"@ {
        MetadataV { illustrator: push_to(m.illustrator, cv), ..m }
    } else if role == "clr"@ {
        MetadataV { colorist: push_to(m.colorist, cv), ..m }
    } else if role == "nrt"@ {
        MetadataV { narrator: push_to(m.narrator, cv), ..m }
    } else if role == "pbl"@ {
        MetadataV { publisher: push_to(m.publisher, cv), ..m }
    } else {
        MetadataV {
            contributor: push_to(
                m.contributor,
                ContributorV { role: if role.len() > 0 { Some(role) } else { None }, ..cv },
            ),
            ..m
        }
    }
}

/// The metadata once the persons `ps` are added in order.
pub open spec fn people_step(m: MetadataV, book: Epub, ps: Seq<PersonV>, forced: Seq<char>) -> MetadataV
    decreases ps.len(),
{
    if ps.len() == 0 {
        m
    } else {
        contributor_step(people_step(m, book, ps.drop_last(), forced), book, ps.last(), forced)
    }
}

/// The `dc:contributor` persons of the package.
pub open spec fn contributor_people(book: Epub) -> Seq<PersonV> {
    book.opf.metadata.contributor@.map_values(
        |c: crate::epub::opf::Contributor| person_of(c),
    )
}

/// The `dc:creator` persons of the package.
pub open spec fn creator_people(book: Epub) -> Seq<PersonV> {
    book.opf.metadata.creator@.map_values(|c: Author| person_of(c))
}

/// Whether a `meta` element names a creator or a contributor.
pub open spec fn is_person_meta(m: Metafield) -> bool {
    opt_string_view(m.property) == Some("dcterms:creator"@) || opt_string_view(m.property) == Some(
        "dcterms:contributor"@,
    )
}

pub open spec fn person_meta_pred() -> spec_fn(Metafield) -> bool {
    |m: Metafield| is_person_meta(m)
}

/// The person a `meta` element names.
pub open spec fn meta_person(m: Metafield) -> PersonV {
    PersonV { content: m.content@, role: None, id: opt_string_view(m.id) }
}

/// The persons the `meta` elements of the package name, in order.
pub open spec fn meta_people(book: Epub) -> Seq<PersonV> {
    meta_persons(keep(book.opf.metadata.meta@, person_meta_pred()))
}

/// The persons that `meta` elements name.
pub open spec fn meta_persons(ms: Seq<Metafield>) -> Seq<PersonV> {
    ms.map_values(|m: Metafield| meta_person(m))
}

/// All the persons of the package, in the order they are added.
pub open spec fn all_people(book: Epub) -> Seq<PersonV> {
    contributor_people(book) + creator_people(book) + if is_epub3(book) {
        meta_people(book)
    } else {
        Seq::empty()
    }
}

/// The metadata once all persons of the package are added: contributors,
/// then creators as authors unless their role says otherwise, then in EPUB 3
/// the persons named by `meta` elements.
#[verifier::opaque]
pub open spec fn contributors_step(m: MetadataV, book: Epub) -> MetadataV {
    let m1 = people_step(m, book, contributor_people(book), Seq::empty());
    let m2 = people_step(m1, book, creator_people(book), "aut"@);
    if is_epub3(book) {
        people_step(m2, book, meta_people(book), Seq::empty())
    } else {
        m2
    }
}

/// Adding persons keeps the languages of the metadata.
pub proof fn lemma_people_step_language(m: MetadataV, book: Epub, ps: Seq<PersonV>, f: Seq<char>)
    ensures
        people_step(m, book, ps, f).language == m.language,
    decreases ps.len(),
{
    if ps.len() > 0 {
        lemma_people_step_language(m, book, ps.drop_last(), f);
    }
}

/// Whether some person of the package needs the first language of the
/// publication to be named.
pub open spec fn language_needed(book: Epub) -> bool {
    ||| exists|i: int|
        0 <= i < book.opf.metadata.contributor@.len() && needs_language(
            book,
            person_of(#[trigger] book.opf.metadata.contributor@[i]),
        )
    ||| exists|i: int|
        0 <= i < book.opf.metadata.creator@.len() && needs_language(
            book,
            person_of(#[trigger] book.opf.metadata.creator@[i]),
        )
    ||| is_epub3(book) && exists|i: int|
        0 <= i < book.opf.metadata.meta@.len() && is_person_meta(
            #[trigger] book.opf.metadata.meta@[i],
        ) && needs_language(book, meta_person(book.opf.metadata.meta@[i]))
}

/// The properties with `x` added to what they contain.
pub open spec fn push_contains(p: PropertiesV, x: Seq<char>) -> PropertiesV {
    PropertiesV {
        contains: Some(
            match p.contains {
                Some(s) => s.push(x),
                None => seq![x],
            },
        ),
        ..p
    }
}

/// The link with the relation `r` added, unless it has it already.
pub open spec fn with_rel(l: LinkV, r: Seq<char>) -> LinkV {
    LinkV { rel: if has_rel(l, r) { l.rel } else { l.rel.push(r) }, ..l }
}

/// What one word of a `properties` attribute does to a link and to its
/// rendering properties.
pub open spec fn apply_property(st: (LinkV, PropertiesV), w: Seq<char>) -> (LinkV, PropertiesV) {
    let l = st.0;
    let p = st.1;
    if w == "cover-image"@ {
        (with_rel(l, "cover"@), p)
    } else if w == "nav"@ {
        (with_rel(l, "contents"@), p)
    } else if w == "scripted"@ {
        (l, push_contains(p, "js"@))
    } else if w == "mathml"@ {
        (l, push_contains(p, "mathml"@))
    } else if w == "onix-record"@ {
        (l, push_contains(p, "onix"@))
    } else if w == "svg"@ {
        (l, push_contains(p, "svg"@))
    } else if w == "xmp-record"@ {
        (l, push_contains(p, "xmp"@))
    } else if w == "remote-resources"@ {
        (l, push_contains(p, "remote-resources"@))
    } else if w == "page-spread-left"@ {
        (l, PropertiesV { page: Some("left"@), ..p })
    } else if w == "page-spread-right"@ {
        (l, PropertiesV { page: Some("right"@), ..p })
    } else if w == "page-spread-center"@ {
        (l, PropertiesV { page: Some("center"@), ..p })
    } else if w == "rendition:spread-none"@ {
        (l, PropertiesV { spread: Some("none"@), ..p })
    } else if w == "rendition:spread-auto"@ {
        (l, PropertiesV { spread: Some("auto"@), ..p })
    } else if w == "rendition:spread-landscape"@ {
        (l, PropertiesV { spread: Some("landscape"@), ..p })
    } else if w == "rendition:spread-portrait"@ || w == "rendition:spread-both"@ {
        (l, PropertiesV { spread: Some("both"@), ..p })
    } else if w == "rendition:layout-reflowable"@ {
        (l, PropertiesV { layout: Some("reflowable"@), ..p })
    } else if w == "rendition:layout-pre-paginated"@ {
        (l, PropertiesV { layout: Some("fixed"@), ..p })
    } else if w == "rendition:orientation-auto"@ {
        (l, PropertiesV { orientation: Some("auto"@), ..p })
    } else if w == "rendition:orientation-landscape"@ {
        (l, PropertiesV { orientation: Some("landscape"@), ..p })
    } else if w == "rendition:orientation-portrait"@ {
        (l, PropertiesV { orientation: Some("portrait"@), ..p })
    } else if w == "rendition:flow-auto"@ {
        (l, PropertiesV { overflow: Some("auto"@), ..p })
    } else if w == "rendition:flow-paginated"@ {
        (l, PropertiesV { overflow: Some("paginated"@), ..p })
    } else if w == "rendition:flow-scrolled-continuous"@ {
        (l, PropertiesV { overflow: Some("scrolled-continuous"@), ..p })
    } else if w == "rendition:flow-scrolled-doc"@ {
        (l, PropertiesV { overflow: Some("scrolled"@), ..p })
    } else {
        st
    }
}

/// What the words `ws`, in order, do to a link and its properties.
pub open spec fn apply_properties(st: (LinkV, PropertiesV), ws: Seq<Seq<char>>) -> (LinkV, PropertiesV)
    decreases ws.len(),
{
    if ws.len() == 0 {
        st
    } else {
        apply_property(apply_properties(st, ws.drop_last()), ws.last())
    }
}

/// The link once the space-separated words of `s` are applied: its
/// properties are then set, even where no word changed them.
pub open spec fn link_with_properties(l: LinkV, s: Seq<char>) -> LinkV {
    let p0 = match l.properties {
        Some(p) => p,
        None => empty_properties(),
    };
    let st = apply_properties((LinkV { properties: None, ..l }, p0), split_on(s, ' '));
    LinkV { properties: Some(st.1), ..st.0 }
}

/// Whether a spine item refers to the manifest item of id `id`.
pub open spec fn idref_pred(id: Seq<char>) -> spec_fn(SpineItem) -> bool {
    |s: SpineItem| s.idref@ == id
}

/// The `properties` of the first spine item that refers to the manifest
/// item.
pub open spec fn spine_properties(book: Epub, item: ManifestItem) -> Option<Seq<char>> {
    let ss = book.opf.spine.items@;
    match first_index(ss, idref_pred(item.id@)) {
        Some(i) => opt_string_view(ss[i].properties),
        None => None,
    }
}

/// The link once the properties of the manifest item, then those of its
/// spine item, are applied.
pub open spec fn rel_and_properties(l: LinkV, item: ManifestItem, book: Epub) -> LinkV {
    let l1 = match item.properties {
        Some(s) => link_with_properties(l, s@),
        None => l,
    };
    match spine_properties(book, item) {
        Some(s) => link_with_properties(l1, s),
        None => l1,
    }
}

/// The link with the duration of the media overlay of the manifest item.
pub open spec fn with_media_overlay(l: LinkV, item: ManifestItem, book: Epub) -> LinkV {
    let metas = book.opf.metadata.meta@;
    match item.mediaoverlay {
        Some(mo) => match first_index(metas, refine_pred(mo@, "media:duration"@)) {
            Some(i) => LinkV { duration: Some(metas[i].content@), ..l },
            None => l,
        },
        None => l,
    }
}

/// The link to a manifest item before its properties: its media type (if
/// any) and its href taken relative to the package document.
pub open spec fn manifest_base_link(book: Epub, item: ManifestItem) -> LinkV {
    LinkV {
        href: match resolve_href(item.href@, book.container.rootfiles.rootfile.full_path@) {
            Some(h) => h,
            None => Seq::empty(),
        },
        type_link: if item.mediatype@.len() > 0 {
            Some(item.mediatype@)
        } else {
            None
        },
        ..empty_link()
    }
}

/// The full link to a manifest item.
pub open spec fn manifest_link(book: Epub, item: ManifestItem) -> LinkV {
    with_media_overlay(rel_and_properties(manifest_base_link(book, item), item, book), item, book)
}

/// Whether a manifest item has the id `id`.
pub open spec fn id_pred(id: Seq<char>) -> spec_fn(ManifestItem) -> bool {
    |m: ManifestItem| m.id@ == id
}

/// Whether a spine item belongs to the reading order.
pub open spec fn is_linear(s: SpineItem) -> bool {
    match s.linear {
        Some(l) => l@ == "yes"@ || l@.len() == 0,
        None => true,
    }
}

/// The link a spine item adds to the reading order, if any.
pub open spec fn spine_link(book: Epub, s: SpineItem) -> Option<LinkV> {
    let items = book.opf.manifest.items@;
    if is_linear(s) {
        match first_index(items, id_pred(s.idref@)) {
            Some(i) => {
                let l = manifest_link(book, items[i]);
                if l.href.len() > 0 {
                    Some(l)
                } else {
                    None
                }
            },
            None => None,
        }
    } else {
        None
    }
}

/// The links the spine items `ss` add to the reading order, in order.
pub open spec fn spine_links(book: Epub, ss: Seq<SpineItem>) -> Seq<LinkV>
    decreases ss.len(),
{
    if ss.len() == 0 {
        Seq::empty()
    } else {
        spine_links(book, ss.drop_last()) + match spine_link(book, ss.last()) {
            Some(l) => seq![l],
            None => Seq::empty(),
        }
    }
}

/// Whether a link has the href `h`.
pub open spec fn href_pred(h: Seq<char>) -> spec_fn(LinkV) -> bool {
    |l: LinkV| l.href == h
}

/// The links the manifest items `items` add to the resources: those whose
/// href is in no link of the reading order `ro`.
pub open spec fn resource_links(book: Epub, ro: Seq<LinkV>, items: Seq<ManifestItem>) -> Seq<LinkV>
    decreases items.len(),
{
    if items.len() == 0 {
        Seq::empty()
    } else {
        let item = items.last();
        resource_links(book, ro, items.drop_last()) + if first_index(
            ro,
            href_pred(manifest_base_link(book, item).href),
        ) is None {
            seq![manifest_link(book, item)]
        } else {
            Seq::empty()
        }
    }
}

/// The publication once the spine and the manifest are read: the links of
/// the spine are added to the reading order, then the other manifest items
/// to the resources.
#[verifier::opaque]
pub open spec fn spine_and_resource_step(p: PublicationWithInternalV, book: Epub) -> PublicationWithInternalV {
    let ro = p.publication.reading_order + spine_links(book, book.opf.spine.items@);
    PublicationWithInternalV {
        publication: PublicationV {
            reading_order: ro,
            resources: p.publication.resources + resource_links(
                book,
                ro,
                book.opf.manifest.items@,
            ),
            ..p.publication
        },
        ..p
    }
}

/// The link of a navigation entry: its target taken relative to `base`,
/// and its label as title unless the label is empty.
pub open spec fn nav_link(base: Seq<char>, src: Seq<char>, label: Seq<char>) -> LinkV {
    LinkV {
        href: or_empty(resolve_href(src, base)),
        title: if label.len() > 0 {
            Some(label)
        } else {
            None
        },
        ..empty_link()
    }
}

/// The table of contents below and at a navigation point: the links of its
/// sub-entries, then its own.
pub open spec fn toc_of_point(base: Seq<char>, p: NavPoint) -> Seq<LinkV>
    decreases p, 1int,
{
    proof {
        vstd::std_specs::vec::axiom_vec_decreases_to_view(p.nav_points);
    }
    toc_of_points(base, p.nav_points@).push(nav_link(base, p.content.src@, p.nav_label.text@))
}

/// The tables of contents of the navigation points `ps`, one after the
/// other.
pub open spec fn toc_of_points(base: Seq<char>, ps: Seq<NavPoint>) -> Seq<LinkV>
    decreases ps, 0int,
{
    if ps.len() == 0 {
        Seq::empty()
    } else {
        proof {
            vstd::seq::axiom_seq_index_decreases(ps, ps.len() - 1);
            vstd::seq::axiom_seq_subrange_decreases(ps, 0, ps.len() - 1);
        }
        toc_of_points(base, ps.drop_last()) + toc_of_point(base, ps.last())
    }
}

/// The links of the page list of the navigation control file.
pub open spec fn page_links(book: Epub) -> Seq<LinkV> {
    match book.ncx.page_list {
        Some(pl) => pl.page_targets@.map_values(
            |t: crate::epub::ncx::PageTarget|
                nav_link(book.ncx_path@, t.content.src@, t.nav_label.text@),
        ),
        None => Seq::empty(),
    }
}

/// Whether a landmark of the guide has an href.
pub open spec fn has_href_pred() -> spec_fn(crate::epub::opf::Reference) -> bool {
    |r: crate::epub::opf::Reference| r.href@.len() > 0
}

/// The link of a landmark: its href taken relative to the package document,
/// and its title.
pub open spec fn landmark_link(book: Epub, r: crate::epub::opf::Reference) -> LinkV {
    LinkV {
        href: or_empty(resolve_href(r.href@, book.container.rootfiles.rootfile.full_path@)),
        title: opt_string_view(r.title),
        ..empty_link()
    }
}

/// The links of the landmarks of the guide that have an href.
#[verifier::opaque]
pub open spec fn landmark_links(book: Epub) -> Seq<LinkV> {
    match book.opf.guide {
        Some(g) => keep(g.references@, has_href_pred()).map_values(
            |r: crate::epub::opf::Reference| landmark_link(book, r),
        ),
        None => Seq::empty(),
    }
}

/// What one `meta` element does to the presentation being gathered, and
/// whether it sets any of it.
pub open spec fn presentation_meta(st: (PropertiesV, bool), m: Metafield) -> (PropertiesV, bool) {
    let p = st.0;
    let prop = or_empty(opt_string_view(m.property));
    let c = m.content@;
    if prop == "rendition:layout"@ {
        if c == "pre-paginated"@ {
            (PropertiesV { layout: Some("fixed"@), ..p }, true)
        } else if c == "reflowable"@ {
            (PropertiesV { layout: Some("reflowable"@), ..p }, true)
        } else {
            st
        }
    } else if prop == "rendition:orientation"@ {
        (PropertiesV { orientation: Some(c), ..p }, true)
    } else if prop == "rendition:spread"@ {
        (PropertiesV { spread: Some(c), ..p }, true)
    } else if prop == "rendition:flow"@ {
        (PropertiesV { overflow: Some(c), ..p }, true)
    } else {
        st
    }
}

/// The presentation the `meta` elements `ms` gather, in order.
pub open spec fn presentation_of(ms: Seq<Metafield>) -> (PropertiesV, bool)
    decreases ms.len(),
{
    if ms.len() == 0 {
        (empty_properties(), false)
    } else {
        presentation_meta(presentation_of(ms.drop_last()), ms.last())
    }
}

/// The metadata once the presentation is set, where a `meta` element gives
/// any of it.
#[verifier::opaque]
pub open spec fn presentation_step(m: MetadataV, book: Epub) -> MetadataV {
    let st = presentation_of(book.opf.metadata.meta@);
    if st.1 {
        MetadataV { presentation: Some(st.0), ..m }
    } else {
        m
    }
}

/// Whether a legacy `meta` element names the cover.
pub open spec fn cover_meta_pred() -> spec_fn(Metafield) -> bool {
    |m: Metafield| opt_string_view(m.name_legacy) == Some("cover"@)
}

/// The id of the cover that a legacy `meta` element gives (empty when
/// none does).
pub open spec fn cover_id(book: Epub) -> Seq<char> {
    let metas = book.opf.metadata.meta@;
    match first_index(metas, cover_meta_pred()) {
        Some(i) => or_empty(opt_string_view(metas[i].content_legacy)),
        None => Seq::empty(),
    }
}

/// The href of the manifest item of the cover, if any.
pub open spec fn cover_href(book: Epub) -> Option<Seq<char>> {
    let items = book.opf.manifest.items@;
    if cover_id(book).len() > 0 {
        match first_index(items, id_pred(cover_id(book))) {
            Some(i) => Some(manifest_link(book, items[i]).href),
            None => None,
        }
    } else {
        None
    }
}

/// The link with the relation `cover` where its href is `h`.
pub open spec fn mark_cover(l: LinkV, h: Seq<char>) -> LinkV {
    if l.href == h {
        with_rel(l, "cover"@)
    } else {
        l
    }
}

/// The resources with the cover marked.
pub open spec fn marked_covers(ls: Seq<LinkV>, h: Seq<char>) -> Seq<LinkV> {
    Seq::new(ls.len(), |i: int| mark_cover(ls[i], h))
}

/// The publication once the resources of the cover get the relation
/// `cover`.
#[verifier::opaque]
pub open spec fn cover_rel_step(p: PublicationWithInternalV, book: Epub) -> PublicationWithInternalV {
    match cover_href(book) {
        Some(h) => PublicationWithInternalV {
            publication: PublicationV {
                resources: marked_covers(p.publication.resources, h),
                ..p.publication
            },
            ..p
        },
        None => p,
    }
}

/// The subject a `dc:subject` gives.
pub open spec fn subject_of(s: crate::epub::opf::Subject) -> SubjectV {
    SubjectV {
        name: s.content@,
        sort_as: None,
        scheme: opt_string_view(s.authority),
        code: opt_string_view(s.term),
    }
}

/// The metadata once the subjects are set.
#[verifier::opaque]
pub open spec fn subject_step(m: MetadataV, book: Epub) -> MetadataV {
    let ss = book.opf.metadata.subject@;
    if ss.len() > 0 {
        MetadataV {
            subject: Some(ss.map_values(|s: crate::epub::opf::Subject| subject_of(s))),
            ..m
        }
    } else {
        m
    }
}

/// The context of a Readium web publication manifest.
pub open spec fn readium_context() -> Seq<char> {
    "https://readium.org/webpub-manifest/context.jsonld"@
}

/// The publication an EPUB gives, before its raw resources: the named
/// values `type` and `rootfile`, the context, the type of the metadata,
/// then the metadata, the reading order and resources, the presentation,
/// the cover, the navigation (when the table of contents is still empty:
/// the table of contents of the NCX, also as page list, and the landmarks
/// of the guide) and the subjects.
pub open spec fn parse_steps(book: Epub) -> PublicationWithInternalV {
    let p0 = PublicationWithInternalV { publication: empty_publication(), internal: Map::empty() };
    let p1 = PublicationWithInternalV { internal: p0.internal.insert("type"@, "epub"@), ..p0 };
    let p2 = PublicationWithInternalV {
        publication: PublicationV {
            context: p1.publication.context.push(readium_context()),
            ..p1.publication
        },
        ..p1
    };
    let p3 = with_metadata(
        p2,
        MetadataV { rdftype: "http://schema.org/Book"@, ..p2.publication.metadata },
    );
    let p4 = PublicationWithInternalV {
        internal: p3.internal.insert("rootfile"@, book.container.rootfiles.rootfile.full_path@),
        ..p3
    };
    let m = p4.publication.metadata;
    let m = title_step(m, book);
    let m = language_step(m, book);
    let m = identifier_step(m, book);
    let m = rights_step(m, book);
    let m = description_step(m, book);
    let m = publisher_step(m, book);
    let m = source_step(m, book);
    let m = page_progression_step(m, book);
    let m = contributors_step(m, book);
    let p5 = with_metadata(p4, m);
    let p6 = spine_and_resource_step(p5, book);
    let p7 = with_metadata(p6, presentation_step(p6.publication.metadata, book));
    let p8 = cover_rel_step(p7, book);
    let p9 = if p8.publication.toc.len() == 0 {
        PublicationWithInternalV {
            publication: PublicationV {
                toc: toc_of_points(book.ncx_path@, book.ncx.map.points@),
                page_list: toc_of_points(book.ncx_path@, book.ncx.map.points@),
                landmarks: landmark_links(book),
                ..p8.publication
            },
            ..p8
        }
    } else {
        p8
    };
    with_metadata(p9, subject_step(p9.publication.metadata, book))
}

/// Parsing keeps two named values beside the publication, and no other:
/// its kind, "epub", and the path of its package file.
pub proof fn lemma_parse_internal(book: Epub)
    ensures
        parse_steps(book).internal == Map::<Seq<char>, Seq<char>>::empty().insert(
            "type"@,
            "epub"@,
        ).insert("rootfile"@, book.container.rootfiles.rootfile.full_path@),
{
    reveal(spine_and_resource_step);
    reveal(cover_rel_step);
}

/// Whether the file `name` is an XHTML document of the publication: its name
/// is UTF-8 and the first link with that href has the XHTML media type.
pub open spec fn is_document(p: crate::publication::Publication, name: Seq<u8>) -> bool {
    valid_utf8(name) && match lookup_in_order(&p, |l: LinkV| l.href == decode_utf8(name)) {
        Some(at) => looked_up(&p, at)@.type_link == Some("application/xhtml+xml"@),
        None => false,
    }
}

/// The raw resources of the publication: each file of the archive, with
/// whether it is a document; no parsed document is kept with them here (one
/// is kept where a parsed tree is given with the resource).
pub open spec fn raw_resources_of(p: crate::publication::Publication, archive: EPubArchive) -> Map<
    Seq<u8>,
    (Seq<u8>, bool, Option<XmlDocument>),
> {
    pairs_map(
        archive.data@.map_values(
            |e: (Vec<u8>, Vec<u8>)| (e.0@, (e.1@, is_document(p, e.0@), None::<XmlDocument>)),
        ),
    )
}

/// Whether the EPUB can be turned into a publication: an EPUB 3 package
/// has a title, and where a person is named in alternate scripts the
/// package has a language.
pub open spec fn parsable(book: Epub) -> bool {
    &&& is_epub3(book) ==> book.opf.metadata.title@.len() > 0
    &&& language_needed(book) ==> book.opf.metadata.language@.len() > 0
}

/// The parser from EPUB documents to publications.
pub struct EPubParser {}

fn is_text(o: &Option<String>, t: &str) -> (r: bool)
    ensures
        r == (opt_string_view(*o) == Some(t@)),
{
    opt_str_eq(o, t)
}

impl EPubParser {
    /// The version of the package.
    pub fn get_epub_version(book: &Epub) -> (r: Option<&str>)
        ensures
            match r {
                Some(v) => epub_version(*book) == Some(v@),
                None => epub_version(*book) is None,
            },
    {
        if let Some(version) = &book.container.rootfiles.rootfile.version {
            return Some(version.as_str());
        } else if let Some(version) = &book.opf.version {
            return Some(version.as_str());
        }
        None
    }

    /// Whether the package is EPUB 3.0 or 3.1.
    pub fn is_epub30_or_more(book: &Epub) -> (r: bool)
        ensures
            r == is_epub3(*book),
    {
        match Self::get_epub_version(book) {
            Some(v) => str_eq(v, "3.0") || str_eq(v, "3.1"),
            None => false,
        }
    }

    fn refines(m: &Metafield, id: &str, property: &str) -> (r: bool)
        ensures
            r == refines_with(*m, id@, property@),
    {
        let target = concat_str("#", id);
        is_text(&m.refines, target.as_str()) && is_text(&m.property, property)
    }

    /// The `meta` elements that refine the element of id `id` with the
    /// property `property`, in order.
    pub fn find_all_meta_by_refine_and_property<'a>(book: &'a Epub, id: &str, property: &str) -> (r:
        Vec<&'a Metafield>)
        ensures
            meta_derefs(r@) == metas_refining(*book, id@, property@),
    {
        let metas = &book.opf.metadata.meta;
        let ghost p = refine_pred(id@, property@);
        let mut out: Vec<&Metafield> = Vec::new();
        let mut i: usize = 0;
        assert(meta_derefs(out@) =~= keep(metas@.take(0), p));
        while i < metas.len()
            invariant
                0 <= i <= metas.len(),
                metas@ == book.opf.metadata.meta@,
                p == refine_pred(id@, property@),
                meta_derefs(out@) == keep(metas@.take(i as int), p),
            decreases metas.len() - i,
        {
            let ghost before = meta_derefs(out@);
            assert(metas@.take(i + 1).drop_last() =~= metas@.take(i as int));
            assert(metas@.take(i + 1).last() == metas@[i as int]);
            if Self::refines(&metas[i], id, property) {
                out.push(&metas[i]);
                assert(meta_derefs(out@) =~= before.push(metas@[i as int]));
            }
            i = i + 1;
        }
        assert(metas@.take(metas.len() as int) =~= metas@);
        out
    }

    /// The first `meta` element that refines the element of id `id` with the
    /// property `property`.
    pub fn find_meta_by_refine_and_property<'a>(book: &'a Epub, id: &str, property: &str) -> (r:
        Option<&'a Metafield>)
        ensures
            match first_index(book.opf.metadata.meta@, refine_pred(id@, property@)) {
                Some(i) => r matches Some(m) && *m == book.opf.metadata.meta@[i],
                None => r is None,
            },
    {
        let metas = &book.opf.metadata.meta;
        let ghost p = refine_pred(id@, property@);
        let mut i: usize = 0;
        while i < metas.len()
            invariant
                0 <= i <= metas.len(),
                metas@ == book.opf.metadata.meta@,
                p == refine_pred(id@, property@),
                forall|j: int| 0 <= j < i ==> !p(#[trigger] metas@[j]),
            decreases metas.len() - i,
        {
            if Self::refines(&metas[i], id, property) {
                proof {
                    lemma_first_index(metas@, p, i as int);
                }
                return Some(&metas[i]);
            }
            i = i + 1;
        }
        proof {
            lemma_first_index(metas@, p, i as int);
        }
        None
    }

    /// Appends the (language, text) pair of each alternate script that names
    /// its language.
    fn push_alternate_scripts(v: &mut Vec<(String, String)>, alts: &Vec<&Metafield>)
        ensures
            string_pairs_view(final(v)@) == string_pairs_view(old(v)@) + lang_pairs(
                meta_derefs(alts@),
            ),
    {
        let ghost start = string_pairs_view(v@);
        let ghost a = meta_derefs(alts@);
        let mut i: usize = 0;
        assert(a.take(0) =~= Seq::<Metafield>::empty());
        assert(string_pairs_view(v@) =~= start + lang_pairs(a.take(0)));
        while i < alts.len()
            invariant
                0 <= i <= alts.len(),
                a == meta_derefs(alts@),
                string_pairs_view(v@) == start + lang_pairs(a.take(i as int)),
            decreases alts.len() - i,
        {
            let ghost before = string_pairs_view(v@);
            assert(a.take(i + 1).drop_last() =~= a.take(i as int));
            assert(a.take(i + 1).last() == *alts@[i as int]);
            let m = alts[i];
            if let Some(lang) = &m.lang {
                let ghost l = lang@;
                let ghost c = m.content@;
                v.push((copy_str(lang.as_str()), copy_str(m.content.as_str())));
                assert(string_pairs_view(v@) =~= before.push((l, c)));
            }
            i = i + 1;
        }
        assert(a.take(alts.len() as int) =~= a);
    }

    /// Whether some `meta` element of the package marks the title as the main
    /// one.
    fn is_main(book: &Epub, t: &Title) -> (r: bool)
        ensures
            r == is_main_title(*book)(*t),
    {
        match &t.id {
            None => false,
            Some(id) => {
                let metas = &book.opf.metadata.meta;
                let target = concat_str("#", id.as_str());
                let mut j: usize = 0;
                while j < metas.len()
                    invariant
                        0 <= j <= metas.len(),
                        metas@ == book.opf.metadata.meta@,
                        target@ == "#"@ + id@,
                        t.id == Some(*id),
                        forall|k: int| 0 <= k < j ==> !marks_main(#[trigger] metas@[k], id@),
                    decreases metas.len() - j,
                {
                    if is_text(&metas[j].refines, target.as_str()) && str_eq(
                        metas[j].content.as_str(),
                        "main",
                    ) {
                        assert(marks_main(book.opf.metadata.meta@[j as int], t.id->Some_0@));
                        assert(exists|k: int|
                            0 <= k < book.opf.metadata.meta@.len() && marks_main(
                                #[trigger] book.opf.metadata.meta@[k],
                                t.id->Some_0@,
                            ));
                        return true;
                    }
                    j = j + 1;
                }
                assert forall|k: int| 0 <= k < book.opf.metadata.meta@.len() implies !marks_main(
                    #[trigger] book.opf.metadata.meta@[k],
                    id@,
                ) by {
                    assert(!marks_main(metas@[k], id@));
                }
                false
            },
        }
    }

    /// The title of the publication: in EPUB 3, the main title, with its
    /// alternate scripts by language where there are any; else the first
    /// title.
    #[verifier::spinoff_prover]
    #[verifier::rlimit(40)]
    fn add_title(publication: &mut PublicationWithInternal, book: &Epub)
        requires
            is_epub3(*book) ==> book.opf.metadata.title@.len() > 0,
        ensures
            final(publication)@ == with_metadata(
                old(publication)@,
                title_step(old(publication)@.publication.metadata, *book),
            ),
    {
        proof {
            reveal(title_step);
        }
        let titles = &book.opf.metadata.title;
        if Self::is_epub30_or_more(book) {
            let default_title = Title::default();
            let mut main: Option<usize> = None;
            if titles.len() > 1 {
                let ghost p = is_main_title(*book);
                let mut i: usize = 0;
                while i < titles.len()
                    invariant
                        0 <= i <= titles.len(),
                        titles@ == book.opf.metadata.title@,
                        p == is_main_title(*book),
                        match main {
                            Some(k) => last_index(titles@.take(i as int), p) == Some(k as int)
                                && k < i,
                            None => last_index(titles@.take(i as int), p) is None,
                        },
                    decreases titles.len() - i,
                {
                    assert(titles@.take(i + 1).drop_last() =~= titles@.take(i as int));
                    assert(titles@.take(i + 1).last() == titles@[i as int]);
                    if Self::is_main(book, &titles[i]) {
                        main = Some(i);
                    }
                    i = i + 1;
                }
                assert(titles@.take(titles.len() as int) =~= titles@);
            } else {
                main = Some(0);
            }
            let mt: &Title = match main {
                Some(k) => &titles[k],
                None => &default_title,
            };
            assert(title_view(*mt) == main_title(*book));
            proof {
                reveal_strlit("");
            }
            let id: &str = match &mt.id {
                Some(s) => s.as_str(),
                None => "",
            };
            let alts = Self::find_all_meta_by_refine_and_property(book, id, "alternate-script");
            if alts.len() > 0 {
                let lang: &str = match &mt.lang {
                    Some(s) => s.as_str(),
                    None => "",
                };
                proof {
                    reveal_strlit("");
                }
                let mut pairs: Vec<(String, String)> = Vec::new();
                let k = copy_str(lang);
                let c = copy_str(mt.content.as_str());
                assert(k@ == or_empty(title_view(*mt).lang));
                let ghost kv = (k@, c@);
                pairs.push((k, c));
                assert(string_pairs_view(pairs@) =~= seq![kv]);
                Self::push_alternate_scripts(&mut pairs, &alts);
                publication.publication.metadata.title = MultiLanguage::MultiString(pairs);
            } else {
                publication.publication.metadata.title = MultiLanguage::SingleString(
                    copy_str(mt.content.as_str()),
                );
            }
        } else if titles.len() > 0 {
            publication.publication.metadata.title = MultiLanguage::SingleString(
                copy_str(titles[0].content.as_str()),
            );
        }
    }

    /// The identifier of the publication.
    fn add_identifier(publication: &mut PublicationWithInternal, book: &Epub)
        ensures
            final(publication)@ == with_metadata(
                old(publication)@,
                identifier_step(old(publication)@.publication.metadata, *book),
            ),
    {
        proof {
            reveal(identifier_step);
        }
        let ids = &book.opf.metadata.identifier;
        if ids.len() > 1 {
            let ghost p = unique_id_pred(*book);
            let mut found: Option<usize> = None;
            let mut i: usize = 0;
            while i < ids.len()
                invariant
                    0 <= i <= ids.len(),
                    ids@ == book.opf.metadata.identifier@,
                    p == unique_id_pred(*book),
                    match found {
                        Some(k) => last_index(ids@.take(i as int), p) == Some(k as int) && k < i,
                        None => last_index(ids@.take(i as int), p) is None,
                    },
                decreases ids.len() - i,
            {
                assert(ids@.take(i + 1).drop_last() =~= ids@.take(i as int));
                assert(ids@.take(i + 1).last() == ids@[i as int]);
                if is_text(&ids[i].id, book.opf.unique_identifier.as_str()) {
                    found = Some(i);
                }
                i = i + 1;
            }
            assert(ids@.take(ids.len() as int) =~= ids@);
            if let Some(k) = found {
                publication.publication.metadata.identifier = Some(
                    copy_str(ids[k].content.as_str()),
                );
            }
        } else if ids.len() == 1 {
            publication.publication.metadata.identifier = Some(copy_str(ids[0].content.as_str()));
        }
    }

    /// The languages of the publication.
    fn add_language(publication: &mut PublicationWithInternal, book: &Epub)
        ensures
            final(publication)@ == with_metadata(
                old(publication)@,
                language_step(old(publication)@.publication.metadata, *book),
            ),
    {
        proof {
            reveal(language_step);
        }
        let langs = &book.opf.metadata.language;
        let mut out: Vec<String> = Vec::new();
        let mut i: usize = 0;
        while i < langs.len()
            invariant
                0 <= i <= langs.len(),
                out.deep_view() == langs.deep_view().take(i as int),
            decreases langs.len() - i,
        {
            let ghost before = out.deep_view();
            let s = copy_str(langs[i].as_str());
            let ghost sv = s@;
            out.push(s);
            assert(out.deep_view() =~= before.push(sv));
            assert(out.deep_view() =~= langs.deep_view().take(i + 1));
            i = i + 1;
        }
        assert(langs.deep_view().take(langs.len() as int) =~= langs.deep_view());
        if out.len() > 0 {
            publication.publication.metadata.language = Some(out);
        }
    }

    /// The rights of the publication: all `dc:rights`, joined by spaces.
    fn add_rights(publication: &mut PublicationWithInternal, book: &Epub)
        ensures
            final(publication)@ == with_metadata(
                old(publication)@,
                rights_step(old(publication)@.publication.metadata, *book),
            ),
    {
        proof {
            reveal(rights_step);
        }
        let rights = join_strings(&book.opf.metadata.rights, " ");
        if rights.as_str().unicode_len() > 0 {
            publication.publication.metadata.rights = Some(rights);
        }
    }

    /// The description of the publication: the first `dc:description`.
    fn add_description(publication: &mut PublicationWithInternal, book: &Epub)
        ensures
            final(publication)@ == with_metadata(
                old(publication)@,
                description_step(old(publication)@.publication.metadata, *book),
            ),
    {
        proof {
            reveal(description_step);
        }
        if book.opf.metadata.description.len() > 0 {
            publication.publication.metadata.description = Some(
                copy_str(book.opf.metadata.description[0].as_str()),
            );
        }
    }

    /// The source of the publication: the first `dc:source`.
    fn add_source(publication: &mut PublicationWithInternal, book: &Epub)
        ensures
            final(publication)@ == with_metadata(
                old(publication)@,
                source_step(old(publication)@.publication.metadata, *book),
            ),
    {
        proof {
            reveal(source_step);
        }
        if book.opf.metadata.source.len() > 0 {
            publication.publication.metadata.source = Some(
                copy_str(book.opf.metadata.source[0].as_str()),
            );
        }
    }

    /// The publishers of the publication, one per `dc:publisher`.
    fn add_publisher(publication: &mut PublicationWithInternal, book: &Epub)
        ensures
            final(publication)@ == with_metadata(
                old(publication)@,
                publisher_step(old(publication)@.publication.metadata, *book),
            ),
    {
        proof {
            reveal(publisher_step);
        }
        let ps = &book.opf.metadata.publisher;
        let mut out: Vec<Contributor> = Vec::new();
        let mut i: usize = 0;
        while i < ps.len()
            invariant
                0 <= i <= ps.len(),
                contributors_view(out@) == named_all(ps@.take(i as int)),
            decreases ps.len() - i,
        {
            let c = Contributor {
                name: MultiLanguage::SingleString(copy_str(ps[i].as_str())),
                sort_as: None,
                identifier: None,
                role: None,
            };
            let ghost cv = c@;
            let ghost before = contributors_view(out@);
            out.push(c);
            assert(contributors_view(out@) =~= before.push(cv));
            assert(named_all(ps@.take(i + 1)) =~= named_all(ps@.take(i as int)).push(named(ps@[i as int]@)));
            i = i + 1;
        }
        assert(ps@.take(ps.len() as int) =~= ps@);
        if out.len() > 0 {
            publication.publication.metadata.publisher = Some(out);
        }
    }

    /// The reading direction of the publication, from the spine.
    fn add_page_progression(publication: &mut PublicationWithInternal, book: &Epub)
        ensures
            final(publication)@ == with_metadata(
                old(publication)@,
                page_progression_step(old(publication)@.publication.metadata, *book),
            ),
    {
        proof {
            reveal(page_progression_step);
        }
        if let Some(pp) = &book.opf.spine.page_progression {
            if pp.as_str().unicode_len() > 0 {
                publication.publication.metadata.direction = Some(copy_str(pp.as_str()));
            }
        }
    }
    fn clone_opt(o: &Option<String>) -> (r: Option<String>)
        ensures
            opt_string_view(r) == opt_string_view(*o),
    {
        match o {
            Some(s) => Some(copy_str(s.as_str())),
            None => None,
        }
    }

    fn push_contributor(list: &mut Option<Vec<Contributor>>, c: Contributor)
        ensures
            crate::publication::opt_contributors_view(*final(list)) == push_to(
                crate::publication::opt_contributors_view(*old(list)),
                c@,
            ),
    {
        let ghost cv = c@;
        match list {
            Some(v) => {
                let ghost before = contributors_view(v@);
                v.push(c);
                assert(contributors_view(v@) =~= before.push(cv));
            },
            None => {
                let v: Vec<Contributor> = vec![c];
                assert(contributors_view(v@) =~= seq![cv]);
                *list = Some(v);
            },
        }
    }

    /// The role of a person (see `role_of`).
    fn contributor_role<'b, A: AsAuthor>(book: &'b Epub, cont: &'b A, forced_role: &'b str) -> (r:
        &'b str)
        ensures
            r@ == role_of(*book, person_of(*cont), forced_role@),
    {
        proof {
            reveal_strlit("");
        }
        let mut role: &str = "";
        if Self::is_epub30_or_more(book) {
            if let Some(id) = cont.id() {
                if let Some(m) = Self::find_meta_by_refine_and_property(book, id, "role") {
                    role = m.content.as_str();
                }
            }
        } else {
            if let Some(r) = cont.role() {
                role = r;
            }
        }
        if role.unicode_len() == 0 && forced_role.unicode_len() > 0 {
            role = forced_role;
        }
        role
    }

    /// Adds a person of the package to the list its role picks (see
    /// `contributor_step`).
    fn add_contributor<A: AsAuthor>(
        publication: &mut PublicationWithInternal,
        book: &Epub,
        cont: &A,
        forced_role: &str,
    )
        requires
            needs_language(*book, person_of(*cont)) ==> has_language(
                old(publication)@.publication.metadata,
            ),
        ensures
            final(publication)@ == with_metadata(
                old(publication)@,
                contributor_step(
                    old(publication)@.publication.metadata,
                    *book,
                    person_of(*cont),
                    forced_role@,
                ),
            ),
    {
        proof {
            reveal_strlit("");
        }
        let role = Self::contributor_role(book, cont, forced_role);
        let name: MultiLanguage;
        if Self::is_epub30_or_more(book) {
            if let Some(id) = cont.id() {
                let alts = Self::find_all_meta_by_refine_and_property(book, id, "alternate-script");
                if alts.len() > 0 {
                    let first: &String = match &publication.publication.metadata.language {
                        Some(l) => &l[0],
                        None => {
                            assert(false);
                            return;
                        },
                    };
                    let mut pairs: Vec<(String, String)> = Vec::new();
                    let k = copy_str(first.as_str());
                    let c = copy_str(cont.content());
                    let ghost kv = (k@, c@);
                    assert(kv == (publication@.publication.metadata.language->Some_0[0], person_of(
                        *cont,
                    ).content));
                    pairs.push((k, c));
                    assert(string_pairs_view(pairs@) =~= seq![kv]);
                    Self::push_alternate_scripts(&mut pairs, &alts);
                    name = MultiLanguage::MultiString(pairs);
                } else {
                    name = MultiLanguage::SingleString(copy_str(cont.content()));
                }
            } else {
                name = MultiLanguage::default();
            }
        } else {
            name = MultiLanguage::SingleString(copy_str(cont.content()));
        }
        let mut contributor = Contributor { name, sort_as: None, identifier: None, role: None };
        let md = &mut publication.publication.metadata;
        if str_eq(role, "aut") {
            Self::push_contributor(&mut md.author, contributor);
        } else if str_eq(role, "trl") {
            Self::push_contributor(&mut md.translator, contributor);
        } else if str_eq(role, "art") {
            Self::push_contributor(&mut md.artist, contributor);
        } else if str_eq(role, "edt") {
            Self::push_contributor(&mut md.editor, contributor);
        } else if str_eq(role, "ill") {
            Self::push_contributor(&mut md.illustrator, contributor);
        } else if str_eq(role, "clr") {
            Self::push_contributor(&mut md.colorist, contributor);
        } else if str_eq(role, "nrt") {
            Self::push_contributor(&mut md.narrator, contributor);
        } else if str_eq(role, "pbl") {
            Self::push_contributor(&mut md.publisher, contributor);
        } else {
            if role.unicode_len() > 0 {
                contributor.role = Some(copy_str(role));
            }
            Self::push_contributor(&mut md.contributor, contributor);
        }
    }
    /// Adds the persons that `meta` elements name as creators or
    /// contributors (EPUB 3).
    fn add_contributor_in_meta(publication: &mut PublicationWithInternal, book: &Epub)
        requires
            is_epub3(*book) && language_needed(*book) ==> has_language(
                old(publication)@.publication.metadata,
            ),
            is_epub3(*book),
        ensures
            final(publication)@ == with_metadata(
                old(publication)@,
                people_step(
                    old(publication)@.publication.metadata,
                    *book,
                    meta_people(*book),
                    Seq::empty(),
                ),
            ),
    {
        proof {
            reveal_strlit("");
        }
        let ghost p0 = publication@;
        let ghost m0 = publication@.publication.metadata;
        let ghost pred = person_meta_pred();
        let metas = &book.opf.metadata.meta;
        let mut i: usize = 0;
        assert(meta_persons(keep(metas@.take(0), pred)) =~= Seq::<PersonV>::empty());
        while i < metas.len()
            invariant
                0 <= i <= metas.len(),
                is_epub3(*book),
                metas@ == book.opf.metadata.meta@,
                pred == person_meta_pred(),
                language_needed(*book) ==> has_language(m0),
                publication@ == with_metadata(
                    p0,
                    people_step(m0, *book, meta_persons(keep(metas@.take(i as int), pred)), ""@),
                ),
                publication@.publication.metadata.language == m0.language,
            decreases metas.len() - i,
        {
            let ghost prefix = meta_persons(keep(metas@.take(i as int), pred));
            assert(metas@.take(i + 1).drop_last() =~= metas@.take(i as int));
            assert(metas@.take(i + 1).last() == metas@[i as int]);
            let m = &metas[i];
            if is_text(&m.property, "dcterms:creator") || is_text(&m.property, "dcterms:contributor") {
                let author = Author {
                    content: copy_str(m.content.as_str()),
                    id: Self::clone_opt(&m.id),
                    file_as: None,
                    role: None,
                };
                assert(person_of(author) == meta_person(*m));
                assert(meta_persons(keep(metas@.take(i + 1), pred)) =~= prefix.push(meta_person(*m)));
                assert(people_step(m0, *book, prefix.push(meta_person(*m)), ""@).language == m0.language) by {
                    lemma_people_step_language(m0, *book, prefix.push(meta_person(*m)), ""@);
                }
                assert(prefix.push(meta_person(*m)).drop_last() =~= prefix);
                Self::add_contributor(publication, book, &author, "");
            } else {
                assert(meta_persons(keep(metas@.take(i + 1), pred)) =~= prefix);
            }
            i = i + 1;
        }
        assert(metas@.take(metas.len() as int) =~= metas@);
        assert(""@ =~= Seq::<char>::empty());
    }

    /// Adds all persons of the package (see `contributors_step`).
    fn add_contributors(publication: &mut PublicationWithInternal, book: &Epub)
        requires
            language_needed(*book) ==> has_language(old(publication)@.publication.metadata),
        ensures
            final(publication)@ == with_metadata(
                old(publication)@,
                contributors_step(old(publication)@.publication.metadata, *book),
            ),
    {
        proof {
            reveal(contributors_step);
        }
        proof {
            reveal_strlit("");
            reveal_strlit("aut");
        }
        let ghost p0 = publication@;
        let ghost m0 = publication@.publication.metadata;
        let cs = &book.opf.metadata.contributor;
        let mut i: usize = 0;
        assert(contributor_people(*book).take(0) =~= Seq::<PersonV>::empty());
        while i < cs.len()
            invariant
                0 <= i <= cs.len(),
                cs@ == book.opf.metadata.contributor@,
                language_needed(*book) ==> has_language(m0),
                publication@ == with_metadata(
                    p0,
                    people_step(m0, *book, contributor_people(*book).take(i as int), ""@),
                ),
                publication@.publication.metadata.language == m0.language,
            decreases cs.len() - i,
        {
            let ghost prefix = contributor_people(*book).take(i as int);
            assert(contributor_people(*book).take(i + 1).drop_last() =~= prefix);
            assert(contributor_people(*book).take(i + 1).last() == person_of(cs@[i as int]));
            assert(people_step(m0, *book, contributor_people(*book).take(i + 1), ""@).language == m0.language) by {
                lemma_people_step_language(m0, *book, contributor_people(*book).take(i + 1), ""@);
            }
            assert(needs_language(*book, person_of(cs@[i as int])) ==> language_needed(*book));
            Self::add_contributor(publication, book, &cs[i], "");
            i = i + 1;
        }
        assert(contributor_people(*book).take(cs.len() as int) =~= contributor_people(*book));
        let ghost m1 = publication@.publication.metadata;
        let ghost p1 = publication@;
        let ws = &book.opf.metadata.creator;
        let mut i: usize = 0;
        assert(creator_people(*book).take(0) =~= Seq::<PersonV>::empty());
        while i < ws.len()
            invariant
                0 <= i <= ws.len(),
                ws@ == book.opf.metadata.creator@,
                language_needed(*book) ==> has_language(m0),
                m1.language == m0.language,
                p1 == with_metadata(p0, m1),
                publication@ == with_metadata(
                    p0,
                    people_step(m1, *book, creator_people(*book).take(i as int), "aut"@),
                ),
                publication@.publication.metadata.language == m0.language,
            decreases ws.len() - i,
        {
            let ghost prefix = creator_people(*book).take(i as int);
            assert(creator_people(*book).take(i + 1).drop_last() =~= prefix);
            assert(creator_people(*book).take(i + 1).last() == person_of(ws@[i as int]));
            assert(people_step(m1, *book, creator_people(*book).take(i + 1), "aut"@).language == m0.language) by {
                lemma_people_step_language(m1, *book, creator_people(*book).take(i + 1), "aut"@);
            }
            assert(needs_language(*book, person_of(ws@[i as int])) ==> language_needed(*book));
            Self::add_contributor(publication, book, &ws[i], "aut");
            i = i + 1;
        }
        assert(creator_people(*book).take(ws.len() as int) =~= creator_people(*book));
        assert(""@ =~= Seq::<char>::empty());
        if Self::is_epub30_or_more(book) {
            Self::add_contributor_in_meta(publication, book);
        }
    }
    fn push_contains(p: &mut Properties, x: &str)
        ensures
            final(p)@ == push_contains(old(p)@, x@),
    {
        let mut v = match p.contains.take() {
            Some(v) => v,
            None => Vec::new(),
        };
        let ghost before = v.deep_view();
        let s = copy_str(x);
        let ghost sv = s@;
        v.push(s);
        assert(v.deep_view() =~= before.push(sv));
        p.contains = Some(v);
    }

    /// Applies the space-separated words of a `properties` attribute to the
    /// link (see `apply_property`); the link's properties are then set.
    fn add_link_properties_from_string(link: &mut Link, properties_string: &str)
        ensures
            final(link)@ == link_with_properties(old(link)@, properties_string@),
    {
        let ghost l0 = old(link)@;
        let mut props = match link.properties.take() {
            Some(p) => p,
            None => Properties::default(),
        };
        let words = split_char(properties_string, ' ');
        let ghost ws = words.deep_view();
        let mut i: usize = 0;
        assert(ws.take(0) =~= Seq::<Seq<char>>::empty());
        while i < words.len()
            invariant
                0 <= i <= words.len(),
                ws == words.deep_view(),
                ws == split_on(properties_string@, ' '),
                (link@, props@) == apply_properties(
                    (
                        LinkV { properties: None, ..l0 },
                        match l0.properties {
                            Some(p) => p,
                            None => empty_properties(),
                        },
                    ),
                    ws.take(i as int),
                ),
            decreases words.len() - i,
        {
            assert(ws.take(i + 1).drop_last() =~= ws.take(i as int));
            assert(ws.take(i + 1).last() == words@[i as int]@);
            let w = words[i].as_str();
            if str_eq(w, "cover-image") {
                link.add_rel("cover");
            } else if str_eq(w, "nav") {
                link.add_rel("contents");
            } else if str_eq(w, "scripted") {
                Self::push_contains(&mut props, "js");
            } else if str_eq(w, "mathml") {
                Self::push_contains(&mut props, "mathml");
            } else if str_eq(w, "onix-record") {
                Self::push_contains(&mut props, "onix");
            } else if str_eq(w, "svg") {
                Self::push_contains(&mut props, "svg");
            } else if str_eq(w, "xmp-record") {
                Self::push_contains(&mut props, "xmp");
            } else if str_eq(w, "remote-resources") {
                Self::push_contains(&mut props, "remote-resources");
            } else if str_eq(w, "page-spread-left") {
                props.page = Some(copy_str("left"));
            } else if str_eq(w, "page-spread-right") {
                props.page = Some(copy_str("right"));
            } else if str_eq(w, "page-spread-center") {
                props.page = Some(copy_str("center"));
            } else if str_eq(w, "rendition:spread-none") {
                props.spread = Some(copy_str("none"));
            } else if str_eq(w, "rendition:spread-auto") {
                props.spread = Some(copy_str("auto"));
            } else if str_eq(w, "rendition:spread-landscape") {
                props.spread = Some(copy_str("landscape"));
            } else if str_eq(w, "rendition:spread-portrait") {
                props.spread = Some(copy_str("both"));
            } else if str_eq(w, "rendition:spread-both") {
                props.spread = Some(copy_str("both"));
            } else if str_eq(w, "rendition:layout-reflowable") {
                props.layout = Some(copy_str("reflowable"));
            } else if str_eq(w, "rendition:layout-pre-paginated") {
                props.layout = Some(copy_str("fixed"));
            } else if str_eq(w, "rendition:orientation-auto") {
                props.orientation = Some(copy_str("auto"));
            } else if str_eq(w, "rendition:orientation-landscape") {
                props.orientation = Some(copy_str("landscape"));
            } else if str_eq(w, "rendition:orientation-portrait") {
                props.orientation = Some(copy_str("portrait"));
            } else if str_eq(w, "rendition:flow-auto") {
                props.overflow = Some(copy_str("auto"));
            } else if str_eq(w, "rendition:flow-paginated") {
                props.overflow = Some(copy_str("paginated"));
            } else if str_eq(w, "rendition:flow-scrolled-continuous") {
                props.overflow = Some(copy_str("scrolled-continuous"));
            } else if str_eq(w, "rendition:flow-scrolled-doc") {
                props.overflow = Some(copy_str("scrolled"));
            }
            i = i + 1;
        }
        assert(ws.take(words.len() as int) =~= ws);
        link.properties = Some(props);
    }

    /// The `properties` of the first spine item that refers to the manifest
    /// item.
    fn find_properties_in_spine_for_manifest<'a>(manifest_item: &'a ManifestItem, book: &'a Epub) -> (r:
        Option<&'a str>)
        ensures
            crate::epub::opf::opt_str_view(r) == spine_properties(*book, *manifest_item),
    {
        let ss = &book.opf.spine.items;
        let ghost p = idref_pred(manifest_item.id@);
        let mut i: usize = 0;
        while i < ss.len()
            invariant
                0 <= i <= ss.len(),
                ss@ == book.opf.spine.items@,
                p == idref_pred(manifest_item.id@),
                forall|j: int| 0 <= j < i ==> !p(#[trigger] ss@[j]),
            decreases ss.len() - i,
        {
            if str_eq(ss[i].idref.as_str(), manifest_item.id.as_str()) {
                proof {
                    lemma_first_index(ss@, p, i as int);
                }
                return match &ss[i].properties {
                    Some(s) => Some(s.as_str()),
                    None => None,
                };
            }
            i = i + 1;
        }
        proof {
            lemma_first_index(ss@, p, i as int);
        }
        None
    }

    /// Applies the properties of the manifest item, then those of its spine
    /// item.
    fn add_rel_and_properties_to_link(link: &mut Link, manifest_item: &ManifestItem, book: &Epub)
        ensures
            final(link)@ == rel_and_properties(old(link)@, *manifest_item, *book),
    {
        if let Some(props) = &manifest_item.properties {
            Self::add_link_properties_from_string(link, props.as_str());
        }
        if let Some(props) = Self::find_properties_in_spine_for_manifest(manifest_item, book) {
            Self::add_link_properties_from_string(link, props);
        }
    }

    /// The duration of a media overlay, in seconds: the text as given.
    pub fn smil_time_to_seconds(smile_time: &str) -> (r: &str)
        ensures
            r@ == smile_time@,
    {
        smile_time
    }

    /// Sets the duration of the link to that of the media overlay of the
    /// manifest item, where a `meta` element gives one.
    fn add_media_overlay(link: &mut Link, manifest_item: &ManifestItem, book: &Epub)
        ensures
            final(link)@ == with_media_overlay(old(link)@, *manifest_item, *book),
    {
        if let Some(mo) = &manifest_item.mediaoverlay {
            if let Some(m) = Self::find_meta_by_refine_and_property(book, mo.as_str(), "media:duration") {
                link.duration = Some(copy_str(Self::smil_time_to_seconds(m.content.as_str())));
            }
        }
    }

    fn manifest_base(book: &Epub, item: &ManifestItem) -> (r: Link)
        ensures
            r@ == manifest_base_link(*book, *item),
    {
        let mut l = Link::default();
        if item.mediatype.as_str().unicode_len() > 0 {
            l.type_link = Some(copy_str(item.mediatype.as_str()));
        }
        l.add_href_absolute(item.href.as_str(), book.container.rootfiles.rootfile.full_path.as_str());
        l
    }

    /// The link to the manifest item of id `id`, with its properties and
    /// media overlay.
    fn find_in_manifest_by_id(book: &Epub, id: &str) -> (r: Option<Link>)
        ensures
            match first_index(book.opf.manifest.items@, id_pred(id@)) {
                Some(i) => r matches Some(l) && l@ == manifest_link(
                    *book,
                    book.opf.manifest.items@[i],
                ),
                None => r is None,
            },
    {
        let items = &book.opf.manifest.items;
        let ghost p = id_pred(id@);
        let mut i: usize = 0;
        while i < items.len()
            invariant
                0 <= i <= items.len(),
                items@ == book.opf.manifest.items@,
                p == id_pred(id@),
                forall|j: int| 0 <= j < i ==> !p(#[trigger] items@[j]),
            decreases items.len() - i,
        {
            if str_eq(items[i].id.as_str(), id) {
                proof {
                    lemma_first_index(items@, p, i as int);
                }
                let mut link_item = Self::manifest_base(book, &items[i]);
                Self::add_rel_and_properties_to_link(&mut link_item, &items[i], book);
                Self::add_media_overlay(&mut link_item, &items[i], book);
                return Some(link_item);
            }
            i = i + 1;
        }
        proof {
            lemma_first_index(items@, p, i as int);
        }
        None
    }

    /// The first link of the reading order whose href is `href`.
    fn find_in_spine_by_ref<'a>(publication: &'a PublicationWithInternal, href: &str) -> (r: Option<
        &'a Link,
    >)
        ensures
            match first_index(publication@.publication.reading_order, href_pred(href@)) {
                Some(i) => r matches Some(l) && *l == publication.publication.reading_order@[i],
                None => r is None,
            },
    {
        let ghost a = href_pred(href@);
        let ghost b = |l: LinkV| l.href == href@;
        assert(a == b);
        match find_link_with_href(&publication.publication.reading_order, href) {
            Some(i) => Some(&publication.publication.reading_order[i]),
            None => None,
        }
    }

    /// Adds the links of the spine to the reading order, then the other
    /// manifest items to the resources.
    fn fill_spine_and_resource(publication: &mut PublicationWithInternal, book: &Epub)
        ensures
            final(publication)@ == spine_and_resource_step(old(publication)@, *book),
    {
        proof {
            reveal(spine_and_resource_step);
        }
        proof {
            reveal_strlit("yes");
        }
        let ghost p0 = publication@;
        let ss = &book.opf.spine.items;
        let mut i: usize = 0;
        assert(ss@.take(0) =~= Seq::<SpineItem>::empty());
        assert(p0.publication.reading_order + spine_links(*book, ss@.take(0)) =~= p0.publication.reading_order);
        while i < ss.len()
            invariant
                0 <= i <= ss.len(),
                ss@ == book.opf.spine.items@,
                publication@ == (PublicationWithInternalV {
                    publication: PublicationV {
                        reading_order: p0.publication.reading_order + spine_links(
                            *book,
                            ss@.take(i as int),
                        ),
                        ..p0.publication
                    },
                    ..p0
                }),
            decreases ss.len() - i,
        {
            assert(ss@.take(i + 1).drop_last() =~= ss@.take(i as int));
            assert(ss@.take(i + 1).last() == ss@[i as int]);
            let item = &ss[i];
            let linear = match &item.linear {
                Some(l) => str_eq(l.as_str(), "yes") || l.as_str().unicode_len() == 0,
                None => true,
            };
            let ghost before = links_view(publication.publication.reading_order@);
            assert(linear == is_linear(ss@[i as int]));
            if linear {
                match Self::find_in_manifest_by_id(book, item.idref.as_str()) {
                    Some(link_item) => {
                        if link_item.href.as_str().unicode_len() > 0 {
                            let ghost lv = link_item@;
                            assert(spine_link(*book, ss@[i as int]) == Some(lv));
                            publication.publication.reading_order.push(link_item);
                            assert(links_view(publication.publication.reading_order@) =~= before.push(lv));
                        } else {
                            assert(spine_link(*book, ss@[i as int]) is None);
                        }
                    },
                    None => {
                        assert(spine_link(*book, ss@[i as int]) is None);
                    },
                }
            } else {
                assert(spine_link(*book, ss@[i as int]) is None);
            }
            assert(spine_links(*book, ss@.take(i + 1)) == spine_links(*book, ss@.take(i as int))
                + match spine_link(*book, ss@[i as int]) {
                Some(l) => seq![l],
                None => Seq::<LinkV>::empty(),
            });
            assert(links_view(publication.publication.reading_order@) =~= p0.publication.reading_order
                + spine_links(*book, ss@.take(i + 1)));
            i = i + 1;
        }
        assert(ss@.take(ss.len() as int) =~= ss@);
        let ghost p1 = publication@;
        let ghost ro = publication@.publication.reading_order;
        let items = &book.opf.manifest.items;
        let mut k: usize = 0;
        assert(items@.take(0) =~= Seq::<ManifestItem>::empty());
        assert(p1.publication.resources + resource_links(*book, ro, items@.take(0)) =~= p1.publication.resources);
        while k < items.len()
            invariant
                0 <= k <= items.len(),
                items@ == book.opf.manifest.items@,
                ro == p1.publication.reading_order,
                publication@ == (PublicationWithInternalV {
                    publication: PublicationV {
                        resources: p1.publication.resources + resource_links(
                            *book,
                            ro,
                            items@.take(k as int),
                        ),
                        ..p1.publication
                    },
                    ..p1
                }),
            decreases items.len() - k,
        {
            assert(items@.take(k + 1).drop_last() =~= items@.take(k as int));
            assert(items@.take(k + 1).last() == items@[k as int]);
            let manifest_item = &items[k];
            let mut link_item = Self::manifest_base(book, manifest_item);
            let ghost before = links_view(publication.publication.resources@);
            let found = Self::find_in_spine_by_ref(publication, link_item.href.as_str());
            if found.is_none() {
                Self::add_rel_and_properties_to_link(&mut link_item, manifest_item, book);
                Self::add_media_overlay(&mut link_item, manifest_item, book);
                let ghost lv = link_item@;
                publication.publication.resources.push(link_item);
                assert(links_view(publication.publication.resources@) =~= before.push(lv));
            }
            assert(links_view(publication.publication.resources@) =~= p1.publication.resources
                + resource_links(*book, ro, items@.take(k + 1)));
            k = k + 1;
        }
        assert(items@.take(items.len() as int) =~= items@);
    }
    /// The table of contents below and at a navigation point (see
    /// `toc_of_point`).
    fn fill_toc_from_navpoint(book: &Epub, point: &NavPoint) -> (r: Vec<Link>)
        ensures
            links_view(r@) == toc_of_point(book.ncx_path@, *point),
        decreases point,
    {
        let mut nodes: Vec<Link> = Vec::new();
        let mut link = Link::default();
        link.add_href_absolute(point.content.src.as_str(), book.ncx_path.as_str());
        if point.nav_label.text.as_str().unicode_len() > 0 {
            link.title = Some(copy_str(point.nav_label.text.as_str()));
        }
        let ps = &point.nav_points;
        let mut i: usize = 0;
        assert(ps@.take(0) =~= Seq::<NavPoint>::empty());
        assert(links_view(nodes@) =~= toc_of_points(book.ncx_path@, ps@.take(0)));
        while i < ps.len()
            invariant
                0 <= i <= ps.len(),
                ps@ == point.nav_points@,
                links_view(nodes@) == toc_of_points(book.ncx_path@, ps@.take(i as int)),
            decreases ps.len() - i,
        {
            proof {
                vstd::std_specs::vec::axiom_vec_index_decreases(point.nav_points, i as int);
            }
            let mut n = Self::fill_toc_from_navpoint(book, &ps[i]);
            let ghost before = links_view(nodes@);
            let ghost added = links_view(n@);
            nodes.append(&mut n);
            assert(ps@.take(i + 1).drop_last() =~= ps@.take(i as int));
            assert(ps@.take(i + 1).last() == ps@[i as int]);
            assert(links_view(nodes@) =~= before + added);
            i = i + 1;
        }
        assert(ps@.take(ps.len() as int) =~= ps@);
        let ghost before = links_view(nodes@);
        let ghost lv = link@;
        nodes.push(link);
        assert(links_view(nodes@) =~= before.push(lv));
        nodes
    }

    /// The table of contents of the navigation control file.
    fn fill_toc_from_ncx(book: &Epub) -> (r: Vec<Link>)
        ensures
            links_view(r@) == toc_of_points(book.ncx_path@, book.ncx.map.points@),
    {
        let ps = &book.ncx.map.points;
        let mut nodes: Vec<Link> = Vec::new();
        let mut i: usize = 0;
        assert(ps@.take(0) =~= Seq::<NavPoint>::empty());
        assert(links_view(nodes@) =~= toc_of_points(book.ncx_path@, ps@.take(0)));
        while i < ps.len()
            invariant
                0 <= i <= ps.len(),
                ps@ == book.ncx.map.points@,
                links_view(nodes@) == toc_of_points(book.ncx_path@, ps@.take(i as int)),
            decreases ps.len() - i,
        {
            let mut n = Self::fill_toc_from_navpoint(book, &ps[i]);
            let ghost before = links_view(nodes@);
            let ghost added = links_view(n@);
            nodes.append(&mut n);
            assert(ps@.take(i + 1).drop_last() =~= ps@.take(i as int));
            assert(ps@.take(i + 1).last() == ps@[i as int]);
            assert(links_view(nodes@) =~= before + added);
            i = i + 1;
        }
        assert(ps@.take(ps.len() as int) =~= ps@);
        nodes
    }

    /// The links of the page list of the navigation control file.
    fn fill_page_list_from_ncx(book: &Epub) -> (r: Vec<Link>)
        ensures
            links_view(r@) == page_links(*book),
    {
        let mut nodes: Vec<Link> = Vec::new();
        if let Some(pl) = &book.ncx.page_list {
            let ts = &pl.page_targets;
            let mut i: usize = 0;
            while i < ts.len()
                invariant
                    0 <= i <= ts.len(),
                    book.ncx.page_list == Some(*pl),
                    ts@ == pl.page_targets@,
                    links_view(nodes@) == page_links(*book).take(i as int),
                decreases ts.len() - i,
            {
                let mut link = Link::default();
                link.add_href_absolute(ts[i].content.src.as_str(), book.ncx_path.as_str());
                if ts[i].nav_label.text.as_str().unicode_len() > 0 {
                    link.title = Some(copy_str(ts[i].nav_label.text.as_str()));
                }
                let ghost before = links_view(nodes@);
                let ghost lv = link@;
                nodes.push(link);
                assert(links_view(nodes@) =~= before.push(lv));
                assert(links_view(nodes@) =~= page_links(*book).take(i + 1));
                i = i + 1;
            }
            assert(page_links(*book).take(ts.len() as int) =~= page_links(*book));
        } else {
            assert(links_view(nodes@) =~= page_links(*book));
        }
        nodes
    }

    /// The links of the landmarks of the guide that have an href.
    fn fill_landmarks_from_guide(book: &Epub) -> (r: Vec<Link>)
        ensures
            links_view(r@) == landmark_links(*book),
    {
        proof {
            reveal(landmark_links);
        }
        let mut nodes: Vec<Link> = Vec::new();
        if let Some(guide) = &book.opf.guide {
            let rs = &guide.references;
            let ghost pred = has_href_pred();
            let mut i: usize = 0;
            assert(rs@.take(0) =~= Seq::<crate::epub::opf::Reference>::empty());
            assert(links_view(nodes@) =~= keep(rs@.take(0), pred).map_values(
                |r: crate::epub::opf::Reference| landmark_link(*book, r),
            ));
            while i < rs.len()
                invariant
                    0 <= i <= rs.len(),
                    book.opf.guide == Some(*guide),
                    rs@ == guide.references@,
                    pred == has_href_pred(),
                    links_view(nodes@) == keep(rs@.take(i as int), pred).map_values(
                        |r: crate::epub::opf::Reference| landmark_link(*book, r),
                    ),
                decreases rs.len() - i,
            {
                assert(rs@.take(i + 1).drop_last() =~= rs@.take(i as int));
                assert(rs@.take(i + 1).last() == rs@[i as int]);
                let ghost before = links_view(nodes@);
                let reference = &rs[i];
                if reference.href.as_str().unicode_len() > 0 {
                    let mut link = Link::default();
                    link.add_href_absolute(
                        reference.href.as_str(),
                        book.container.rootfiles.rootfile.full_path.as_str(),
                    );
                    link.title = Self::clone_opt(&reference.title);
                    let ghost lv = link@;
                    assert(lv == landmark_link(*book, *reference));
                    nodes.push(link);
                    assert(links_view(nodes@) =~= before.push(lv));
                }
                assert(links_view(nodes@) =~= keep(rs@.take(i + 1), pred).map_values(
                    |r: crate::epub::opf::Reference| landmark_link(*book, r),
                ));
                i = i + 1;
            }
            assert(rs@.take(rs.len() as int) =~= rs@);
        } else {
            assert(links_view(nodes@) =~= landmark_links(*book));
        }
        nodes
    }

    /// The presentation of the publication, from the `rendition:` metadata.
    fn add_presentation(publication: &mut PublicationWithInternal, book: &Epub)
        ensures
            final(publication)@ == with_metadata(
                old(publication)@,
                presentation_step(old(publication)@.publication.metadata, *book),
            ),
    {
        proof {
            reveal(presentation_step);
        }
        proof {
            reveal_strlit("");
        }
        let metas = &book.opf.metadata.meta;
        let mut presentation = Properties::default();
        let mut is_set = false;
        let mut i: usize = 0;
        assert(metas@.take(0) =~= Seq::<Metafield>::empty());
        while i < metas.len()
            invariant
                0 <= i <= metas.len(),
                metas@ == book.opf.metadata.meta@,
                (presentation@, is_set) == presentation_of(metas@.take(i as int)),
            decreases metas.len() - i,
        {
            assert(metas@.take(i + 1).drop_last() =~= metas@.take(i as int));
            assert(metas@.take(i + 1).last() == metas@[i as int]);
            proof {
                reveal_strlit("");
            }
            let ghost st0 = (presentation@, is_set);
            let m = &metas[i];
            let prop: &str = match &m.property {
                Some(p) => p.as_str(),
                None => "",
            };
            let c = m.content.as_str();
            if str_eq(prop, "rendition:layout") {
                if str_eq(c, "pre-paginated") {
                    presentation.layout = Some(copy_str("fixed"));
                    is_set = true;
                } else if str_eq(c, "reflowable") {
                    presentation.layout = Some(copy_str("reflowable"));
                    is_set = true;
                }
            } else if str_eq(prop, "rendition:orientation") {
                presentation.orientation = Some(copy_str(c));
                is_set = true;
            } else if str_eq(prop, "rendition:spread") {
                presentation.spread = Some(copy_str(c));
                is_set = true;
            } else if str_eq(prop, "rendition:flow") {
                presentation.overflow = Some(copy_str(c));
                is_set = true;
            }
            assert(prop@ == or_empty(opt_string_view(m.property)));
            assert((presentation@, is_set) == presentation_meta(st0, *m));
            i = i + 1;
        }
        assert(metas@.take(metas.len() as int) =~= metas@);
        if is_set {
            publication.publication.metadata.presentation = Some(presentation);
        }
    }

    /// Gives the relation `cover` to the resources of the cover that a
    /// legacy `meta` element names.
    fn add_cover_rel(publication: &mut PublicationWithInternal, book: &Epub)
        ensures
            final(publication)@ == cover_rel_step(old(publication)@, *book),
    {
        proof {
            reveal(cover_rel_step);
        }
        proof {
            reveal_strlit("");
        }
        let metas = &book.opf.metadata.meta;
        let ghost pred = cover_meta_pred();
        let mut cid: &str = "";
        let mut found = false;
        let mut i: usize = 0;
        while !found && i < metas.len()
            invariant
                0 <= i <= metas.len(),
                metas@ == book.opf.metadata.meta@,
                pred == cover_meta_pred(),
                forall|j: int| 0 <= j < i ==> !pred(#[trigger] metas@[j]),
                found ==> i < metas.len() && pred(metas@[i as int]) && cid@ == or_empty(
                    opt_string_view(metas@[i as int].content_legacy),
                ),
                !found ==> cid@ == Seq::<char>::empty(),
            decreases metas.len() - i, if found { 0int } else { 1int },
        {
            if is_text(&metas[i].name_legacy, "cover") {
                found = true;
                if let Some(c) = &metas[i].content_legacy {
                    cid = c.as_str();
                }
            } else {
                i = i + 1;
            }
        }
        proof {
            lemma_first_index(metas@, pred, i as int);
        }
        assert(cid@ == cover_id(*book));
        if cid.unicode_len() > 0 {
            if let Some(manifest_info) = Self::find_in_manifest_by_id(book, cid) {
                let h = manifest_info.href.as_str();
                let ghost p0 = publication@;
                let ghost r0 = publication@.publication.resources;
                let n = publication.publication.resources.len();
                let mut k: usize = 0;
                while k < n
                    invariant
                        0 <= k <= n,
                        n == r0.len(),
                        publication.publication.resources@.len() == n,
                        h@ == cover_href(*book)->Some_0,
                        publication@ == (PublicationWithInternalV {
                            publication: PublicationV {
                                resources: marked_covers(r0.take(k as int), h@) + r0.skip(k as int),
                                ..p0.publication
                            },
                            ..p0
                        }),
                    decreases n - k,
                {
                    let ghost before = publication.publication.resources@;
                    assert(links_view(before)[k as int] == r0[k as int]);
                    let mut link = publication.publication.resources.remove(k);
                    if str_eq(link.href.as_str(), h) {
                        link.add_rel("cover");
                    }
                    let ghost lv = link@;
                    assert(lv == mark_cover(r0[k as int], h@));
                    publication.publication.resources.insert(k, link);
                    assert(links_view(publication.publication.resources@) =~= links_view(before).update(
                        k as int,
                        lv,
                    ));
                    assert(links_view(publication.publication.resources@) =~= marked_covers(
                        r0.take(k + 1),
                        h@,
                    ) + r0.skip(k + 1));
                    k = k + 1;
                }
                assert(marked_covers(r0.take(n as int), h@) + r0.skip(n as int) =~= marked_covers(r0, h@));
            }
        }
    }

    /// The subjects of the publication, one per `dc:subject`.
    fn fill_subject(publication: &mut PublicationWithInternal, book: &Epub)
        ensures
            final(publication)@ == with_metadata(
                old(publication)@,
                subject_step(old(publication)@.publication.metadata, *book),
            ),
    {
        proof {
            reveal(subject_step);
        }
        let ss = &book.opf.metadata.subject;
        let mut subjects: Vec<Subject> = Vec::new();
        let mut i: usize = 0;
        while i < ss.len()
            invariant
                0 <= i <= ss.len(),
                ss@ == book.opf.metadata.subject@,
                subjects@.map_values(|c: Subject| c@) == ss@.take(i as int).map_values(
                    |s: crate::epub::opf::Subject| subject_of(s),
                ),
            decreases ss.len() - i,
        {
            let s = Subject {
                name: copy_str(ss[i].content.as_str()),
                code: Self::clone_opt(&ss[i].term),
                scheme: Self::clone_opt(&ss[i].authority),
                sort_as: None,
            };
            let ghost sv = s@;
            assert(sv == subject_of(ss@[i as int]));
            let ghost before = subjects@.map_values(|c: Subject| c@);
            subjects.push(s);
            assert(subjects@.map_values(|c: Subject| c@) =~= before.push(sv));
            assert(ss@.take(i + 1).map_values(|s: crate::epub::opf::Subject| subject_of(s)) =~= ss@.take(
                i as int,
            ).map_values(|s: crate::epub::opf::Subject| subject_of(s)).push(subject_of(ss@[i as int])));
            i = i + 1;
        }
        assert(ss@.take(ss.len() as int) =~= ss@);
        if subjects.len() > 0 {
            publication.publication.metadata.subject = Some(subjects);
        }
    }

    /// The publication date: left as it is (dates are not read yet).
    fn fill_publication_date(publication: &mut PublicationWithInternal, book: &Epub)
        ensures
            final(publication)@ == old(publication)@,
    {
    }
    /// The publication the EPUB gives (see `parse_steps`), with the files of
    /// the archive as raw resources.
    #[verifier::spinoff_prover]
    #[verifier::rlimit(100)]
    pub fn parse(archive: &EPubArchive, book: &Epub) -> (r: PublicationWithInternal)
        requires
            parsable(*book),
        ensures
            r@.internal == parse_steps(*book).internal,
            r@.publication == (PublicationV {
                raw_resources: raw_resources_of(r.publication, *archive),
                ..parse_steps(*book).publication
            }),
    {
        let mut publication = PublicationWithInternal::default();
        publication.add_to_internal("type", copy_str("epub"));
        publication.publication.context.push(
            copy_str("https://readium.org/webpub-manifest/context.jsonld"),
        );
        assert(publication@.publication.context =~= Seq::<Seq<char>>::empty().push(readium_context()));
        publication.publication.metadata.rdftype = copy_str("http://schema.org/Book");
        publication.add_to_internal(
            "rootfile",
            copy_str(book.container.rootfiles.rootfile.full_path.as_str()),
        );
        let ghost p4 = publication@;
        Self::add_title(&mut publication, book);
        Self::add_language(&mut publication, book);
        Self::add_identifier(&mut publication, book);
        Self::add_rights(&mut publication, book);
        Self::add_description(&mut publication, book);
        Self::add_publisher(&mut publication, book);
        Self::add_source(&mut publication, book);
        Self::add_page_progression(&mut publication, book);
        assert(has_language(publication@.publication.metadata) == (
        book.opf.metadata.language@.len() > 0)) by {
            reveal(title_step);
            reveal(language_step);
            reveal(identifier_step);
            reveal(rights_step);
            reveal(description_step);
            reveal(publisher_step);
            reveal(source_step);
            reveal(page_progression_step);
            assert(book.opf.metadata.language.deep_view().len() == book.opf.metadata.language@.len());
        }
        Self::add_contributors(&mut publication, book);
        Self::fill_spine_and_resource(&mut publication, book);
        Self::add_presentation(&mut publication, book);
        Self::add_cover_rel(&mut publication, book);
        if publication.publication.toc.len() == 0 {
            publication.publication.toc = Self::fill_toc_from_ncx(book);
            publication.publication.page_list = Self::fill_toc_from_ncx(book);
            publication.publication.landmarks = Self::fill_landmarks_from_guide(book);
        }
        Self::fill_subject(&mut publication, book);
        Self::fill_publication_date(&mut publication, book);
        let ghost before = publication.publication;
        let mut raws: Vec<RawResource> = Vec::new();
        let data = &archive.data;
        let mut i: usize = 0;
        while i < data.len()
            invariant
                0 <= i <= data.len(),
                data@ == archive.data@,
                publication.publication == before,
                raws@.map_values(|r: RawResource| (r.name@, (r.data@, r.is_document, r.document))) == data@.take(
                    i as int,
                ).map_values(|e: (Vec<u8>, Vec<u8>)| (e.0@, (e.1@, is_document(before, e.0@), None::<XmlDocument>))),
            decreases data.len() - i,
        {
            let name = &data[i].0;
            let is_doc = match utf8_text(name.as_slice()) {
                Ok(h) => match publication.publication.search_link_by_href(h) {
                    Ok(link) => match &link.type_link {
                        Some(t) => str_eq(t.as_str(), "application/xhtml+xml"),
                        None => false,
                    },
                    Err(_) => false,
                },
                Err(_) => false,
            };
            assert(is_doc == is_document(before, name@));
            let raw = RawResource { name: name.clone(), data: data[i].1.clone(), is_document: is_doc, document: None };
            let ghost rv = (raw.name@, (raw.data@, raw.is_document, raw.document));
            let ghost prev = raws@.map_values(|r: RawResource| (r.name@, (r.data@, r.is_document, r.document)));
            raws.push(raw);
            assert(raws@.map_values(|r: RawResource| (r.name@, (r.data@, r.is_document, r.document))) =~= prev.push(rv));
            assert(data@.take(i + 1).map_values(
                |e: (Vec<u8>, Vec<u8>)| (e.0@, (e.1@, is_document(before, e.0@), None::<XmlDocument>)),
            ) =~= data@.take(i as int).map_values(
                |e: (Vec<u8>, Vec<u8>)| (e.0@, (e.1@, is_document(before, e.0@), None::<XmlDocument>)),
            ).push(rv));
            i = i + 1;
        }
        assert(data@.take(data.len() as int) =~= data@);
        publication.publication.raw_resources = raws;
        assert forall|n: Seq<u8>| #[trigger] is_document(publication.publication, n) == is_document(
            before,
            n,
        ) by {
            assert(publication.publication.resources == before.resources);
            assert(publication.publication.reading_order == before.reading_order);
            assert(publication.publication.links == before.links);
        }
        assert(archive.data@.map_values(
            |e: (Vec<u8>, Vec<u8>)| (e.0@, (e.1@, is_document(publication.publication, e.0@), None::<XmlDocument>)),
        ) =~= archive.data@.map_values(
            |e: (Vec<u8>, Vec<u8>)| (e.0@, (e.1@, is_document(before, e.0@), None::<XmlDocument>)),
        ));
        publication
    }
}

/// Every navigation point of `ps` gives an entry of their table of contents
/// whose href is the point's source resolved against `base` and whose title
/// is the point's label, where the label is not empty (none where it is).
pub proof fn lemma_toc_titles(base: Seq<char>, ps: Seq<NavPoint>)
    ensures
        forall|k: int|
            0 <= k < ps.len() ==> exists|i: int|
                0 <= i < toc_of_points(base, ps).len() && (#[trigger] toc_of_points(base, ps)[i]).href == or_empty(
                    resolve_href(ps[k].content.src@, base),
                ) && toc_of_points(base, ps)[i].title == (if (#[trigger] ps[k]).nav_label.text@.len() > 0 {
                    Some(ps[k].nav_label.text@)
                } else {
                    None
                }),
    decreases ps.len(),
{
    if ps.len() > 0 {
        let init = ps.drop_last();
        let all = toc_of_points(base, ps);
        let front = toc_of_points(base, init);
        let own = toc_of_point(base, ps.last());
        lemma_toc_titles(base, init);
        assert(all == front + own);
        assert forall|k: int| 0 <= k < ps.len() implies exists|i: int|
            0 <= i < all.len() && (#[trigger] all[i]).href == or_empty(resolve_href(ps[k].content.src@, base))
                && all[i].title == (if (#[trigger] ps[k]).nav_label.text@.len() > 0 {
                Some(ps[k].nav_label.text@)
            } else {
                None
            }) by {
            if k < ps.len() - 1 {
                assert(ps[k] == init[k]);
                let i = choose|i: int|
                    0 <= i < front.len() && (#[trigger] front[i]).href == or_empty(
                        resolve_href(init[k].content.src@, base),
                    ) && front[i].title == (if (#[trigger] init[k]).nav_label.text@.len() > 0 {
                        Some(init[k].nav_label.text@)
                    } else {
                        None
                    });
                assert(all[i] == front[i]);
            } else {
                let i = all.len() - 1;
                assert(ps[k] == ps.last());
                assert(all[i] == own[own.len() - 1]);
            }
        }
    }
}

/// After the cover step, a resource has the relation `cover` exactly where
/// it had it already or its href is the href of the manifest item that the
/// legacy cover `meta` names; every other relation, the hrefs and the number
/// of resources are kept.
pub proof fn lemma_cover_rel_marks_the_cover(p: PublicationWithInternalV, book: Epub, other: Seq<char>)
    ensures
        ({
            let q = cover_rel_step(p, book).publication.resources;
            let r = p.publication.resources;
            &&& q.len() == r.len()
            &&& forall|i: int|
                0 <= i < r.len() ==> (has_rel(#[trigger] q[i], "cover"@) <==> (has_rel(r[i], "cover"@)
                    || cover_href(book) == Some(r[i].href)))
            &&& forall|i: int| 0 <= i < r.len() ==> (#[trigger] q[i]).href == r[i].href
            &&& other != "cover"@ ==> forall|i: int|
                0 <= i < r.len() ==> has_rel(#[trigger] q[i], other) == has_rel(r[i], other)
        }),
{
    reveal(cover_rel_step);
    let q = cover_rel_step(p, book).publication.resources;
    let r = p.publication.resources;
    match cover_href(book) {
        Some(h) => {
            assert forall|i: int| 0 <= i < r.len() implies (has_rel(#[trigger] q[i], "cover"@) <==> (has_rel(
                r[i],
                "cover"@,
            ) || cover_href(book) == Some(r[i].href))) && q[i].href == r[i].href && (other != "cover"@
                ==> has_rel(q[i], other) == has_rel(r[i], other)) by {
                assert(q[i] == mark_cover(r[i], h));
                lemma_with_rel(r[i], "cover"@, other);
                assert(crate::publication::with_rel(r[i], "cover"@) == with_rel(r[i], "cover"@));
            }
        },
        None => {},
    }
}

/// A navigation point's table of contents ends with the point's own entry
/// (its source resolved against `base`, titled by its label where the label
/// is not empty), and holds an entry for each of its sub-points.
pub proof fn lemma_toc_point(base: Seq<char>, p: NavPoint)
    ensures
        toc_of_point(base, p).len() > 0,
        toc_of_point(base, p).last().href == or_empty(resolve_href(p.content.src@, base)),
        toc_of_point(base, p).last().title == (if p.nav_label.text@.len() > 0 {
            Some(p.nav_label.text@)
        } else {
            None
        }),
        forall|k: int|
            0 <= k < p.nav_points@.len() ==> exists|i: int|
                0 <= i < toc_of_point(base, p).len() && (#[trigger] toc_of_point(base, p)[i]).href == or_empty(
                    resolve_href(p.nav_points@[k].content.src@, base),
                ) && toc_of_point(base, p)[i].title == (if (#[trigger] p.nav_points@[k]).nav_label.text@.len()
                    > 0 {
                    Some(p.nav_points@[k].nav_label.text@)
                } else {
                    None
                }),
{
    let subs = toc_of_points(base, p.nav_points@);
    let all = toc_of_point(base, p);
    lemma_toc_titles(base, p.nav_points@);
    assert(all == subs.push(nav_link(base, p.content.src@, p.nav_label.text@)));
    assert forall|k: int| 0 <= k < p.nav_points@.len() implies exists|i: int|
        0 <= i < all.len() && (#[trigger] all[i]).href == or_empty(resolve_href(p.nav_points@[k].content.src@, base))
            && all[i].title == (if (#[trigger] p.nav_points@[k]).nav_label.text@.len() > 0 {
            Some(p.nav_points@[k].nav_label.text@)
        } else {
            None
        }) by {
        let i = choose|i: int|
            0 <= i < subs.len() && (#[trigger] subs[i]).href == or_empty(
                resolve_href(p.nav_points@[k].content.src@, base),
            ) && subs[i].title == (if (#[trigger] p.nav_points@[k]).nav_label.text@.len() > 0 {
                Some(p.nav_points@[k].nav_label.text@)
            } else {
                None
            });
        assert(all[i] == subs[i]);
    }
}

} // verus!
