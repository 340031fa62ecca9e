use epubcontract::publication::{
    find_link_with_href, find_link_with_rel, Error, HashMap, Link, MediaOverlayNode, Publication,
    PublicationMembers, PublicationWithInternal,
};

fn link(href: &str, rel: &[&str]) -> Link {
    let mut l = Link::default();
    l.href = String::from(href);
    for r in rel {
        l.rel.push(String::from(*r));
    }
    l
}

fn overlay(text: &str) -> MediaOverlayNode {
    MediaOverlayNode {
        text: String::from(text),
        audio: String::new(),
        role: Vec::new(),
        children: Vec::new(),
    }
}

fn not_found_text(r: Result<&Link, Error>) -> String {
    match r {
        Err(Error::NotFound(m)) => m,
        Err(Error::Unknown) => panic!("unknown error"),
        Ok(l) => panic!("found {}", l.href),
    }
}

#[test]
fn add_rel_adds_a_relation_once() {
    let mut l = Link::default();
    assert!(!l.has_rel("cover"));
    l.add_rel("cover");
    assert!(l.has_rel("cover"));
    assert_eq!(l.rel, vec![String::from("cover")]);
    l.add_rel("cover");
    assert_eq!(l.rel, vec![String::from("cover")]);
    l.add_rel("contents");
    assert_eq!(l.rel, vec![String::from("cover"), String::from("contents")]);
    assert!(l.has_rel("cover"));
}

#[test]
fn add_href_absolute_resolves_against_the_directory_of_the_base_file() {
    let mut l = Link::default();
    l.add_href_absolute("ch1.xhtml", "OEBPS/content.opf");
    assert_eq!(l.href, "OEBPS/ch1.xhtml");
    let mut m = Link::default();
    m.add_href_absolute("images/a.png", "EPUB/package.opf");
    assert_eq!(m.href, "EPUB/images/a.png");
    let mut top = Link::default();
    top.add_href_absolute("ch1.xhtml", "content.opf");
    assert_eq!(top.href, "ch1.xhtml");
    let mut root = Link::default();
    root.href = String::from("kept");
    root.add_href_absolute("ch1.xhtml", "/");
    assert_eq!(root.href, "kept");
    let mut abs = Link::default();
    abs.add_href_absolute("/abs.xhtml", "OEBPS/content.opf");
    assert_eq!(abs.href, "/abs.xhtml");
}

#[test]
fn search_by_rel_looks_in_resources_then_reading_order_then_links() {
    let mut p = Publication::default();
    p.links.push(link("nav.xhtml", &["contents"]));
    p.reading_order.push(link("c1.xhtml", &["contents"]));
    p.resources.push(link("style.css", &["stylesheet"]));
    assert_eq!(p.search_link_by_rel2("contents").ok().unwrap().href, "c1.xhtml");
    assert_eq!(p.search_link_by_rel("stylesheet").ok().unwrap().href, "style.css");
    assert_eq!(p.get_nav_doc().ok().unwrap().href, "c1.xhtml");
    p.resources.push(link("toc.xhtml", &["contents"]));
    assert_eq!(p.get_nav_doc().ok().unwrap().href, "toc.xhtml");
}

#[test]
fn a_missing_relation_is_reported_by_name() {
    let p = Publication::default();
    assert_eq!(not_found_text(p.get_cover()), "Can't find \"cover\" in publication");
    assert_eq!(
        not_found_text(p.search_link_by_rel2("x\"y")),
        "Can't find \"x\\\"y\" in publication"
    );
    assert_eq!(not_found_text(p.get_nav_doc()), "Can't find \"contents\" in publication");
}

#[test]
fn get_cover_finds_the_first_cover_link() {
    let mut p = Publication::default();
    p.reading_order.push(link("c.xhtml", &[]));
    p.links.push(link("cover.jpg", &["cover"]));
    p.links.push(link("cover2.jpg", &["cover"]));
    assert_eq!(p.get_cover().ok().unwrap().href, "cover.jpg");
}

#[test]
fn search_by_href_finds_the_first_link_with_that_href() {
    let mut p = Publication::default();
    p.resources.push(link("a.xhtml", &["r1"]));
    p.links.push(link("a.xhtml", &["r2"]));
    assert_eq!(p.search_link_by_href("a.xhtml").ok().unwrap().rel, vec![String::from("r1")]);
    assert_eq!(not_found_text(p.search_link_by_href("b.xhtml")), "Can't find \"b.xhtml\" in publication");
}

#[test]
fn an_added_link_is_found_by_its_href_and_relations() {
    let mut p = Publication::default();
    p.add_link2(String::from("text/html"), &vec![String::from("self")], String::from("m.json"), true);
    let l = p.search_link_by_href("m.json").ok().unwrap();
    assert_eq!(l.type_link, Some(String::from("text/html")));
    assert_eq!(l.templated, Some(true));
    assert!(l.has_rel("self"));
    assert_eq!(p.search_link_by_rel2("self").ok().unwrap().href, "m.json");
    p.add_link(String::from("a/b"), Vec::new(), String::from("n.json"), false);
    assert_eq!(p.links.len(), 2);
    assert_eq!(p.links[1].href, "n.json");
    assert!(p.links[1].rel.is_empty());
}

#[test]
fn an_added_link_does_not_hide_an_earlier_one() {
    let mut p = Publication::default();
    p.resources.push(link("x.css", &["stylesheet"]));
    p.add_link2(String::from("text/css"), &vec![String::from("stylesheet")], String::from("y.css"), false);
    assert_eq!(p.search_link_by_rel2("stylesheet").ok().unwrap().href, "x.css");
}

#[test]
fn find_link_helpers_give_the_first_index() {
    let v = vec![link("a", &["x"]), link("b", &["y"]), link("c", &["y"])];
    assert_eq!(find_link_with_rel(&v, "y"), Some(1));
    assert_eq!(find_link_with_rel(&v, "z"), None);
    assert_eq!(find_link_with_href(&v, "c"), Some(2));
    assert_eq!(find_link_with_href(&v, "d"), None);
}

#[test]
fn media_overlays_come_from_the_reading_order() {
    let mut p = Publication::default();
    let mut a = link("chapter1.xhtml", &[]);
    a.mediaoverlays = Some(vec![overlay("t1"), overlay("t2")]);
    let b = link("chapter2.xhtml", &[]);
    let mut c = link("notes.xhtml", &[]);
    c.mediaoverlays = Some(vec![overlay("t3")]);
    p.reading_order.push(a);
    p.reading_order.push(b);
    p.reading_order.push(c);
    let mut r = link("chapter9.xhtml", &[]);
    r.mediaoverlays = Some(vec![overlay("ignored")]);
    p.resources.push(r);
    let all: Vec<String> = p.find_all_mediaoverlay().iter().map(|n| n.text.clone()).collect();
    assert_eq!(all, vec!["t1", "t2", "t3"]);
    let by_ref: Vec<String> =
        p.find_all_mediaoverlay_by_ref("chapter").iter().map(|n| n.text.clone()).collect();
    assert_eq!(by_ref, vec!["t1", "t2"]);
    assert!(p.find_all_mediaoverlay_by_ref("nothing").is_empty());
}

#[test]
fn prefetch_resources_are_styles_fonts_and_scripts() {
    let mut p = Publication::default();
    for (h, t) in [
        ("s.css", "text/css"),
        ("f.otf", "application/vnd.ms-opentype"),
        ("a.js", "text/javascript"),
        ("c.xhtml", "application/xhtml+xml"),
    ] {
        let mut l = link(h, &[]);
        l.type_link = Some(String::from(t));
        p.resources.push(l);
    }
    p.resources.push(link("untyped", &[]));
    let got: Vec<String> = p.get_prefetch_resources().iter().map(|l| l.href.clone()).collect();
    assert_eq!(got, vec!["s.css", "f.otf", "a.js"]);
}

#[test]
fn member_map_names_the_publication_members_in_order() {
    let mut p = Publication::default();
    let names: Vec<&str> = p.create_member_map().iter().map(|e| e.0).collect();
    assert!(!names.contains(&"@context"));
    assert_eq!(names[0], "landmarks");
    p.context.push(String::from("https://readium.org/webpub-manifest/context.jsonld"));
    let names: Vec<&str> = p.create_member_map().iter().map(|e| e.0).collect();
    assert_eq!(names[0], "@context");
    let index = p.create_member_index();
    assert!(matches!(index[0], PublicationMembers::Strings(_)));
    assert!(matches!(index[1], PublicationMembers::Metadata(_)));
    assert_eq!(index.len(), p.create_member_map().len());
}

#[test]
fn internal_values_read_back_what_was_written() {
    let mut m = HashMap::new();
    assert_eq!(m.get("type"), None);
    m.insert("type", String::from("epub"));
    m.insert("rootfile", String::from("OEBPS/content.opf"));
    assert_eq!(m.get("type"), Some(&String::from("epub")));
    m.insert("type", String::from("other"));
    assert_eq!(m.get("type"), Some(&String::from("other")));
    assert_eq!(m.get("rootfile"), Some(&String::from("OEBPS/content.opf")));
    let mut p = PublicationWithInternal::default();
    p.add_to_internal("k", String::from("v"));
    assert_eq!(p.internal.get("k"), Some(&String::from("v")));
}
