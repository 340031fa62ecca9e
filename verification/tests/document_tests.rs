use epubcontract::cfi::{Fragment, LocalPath, Path, Range, Step};
use epubcontract::element::{Document, ElementRef, NodeEdge};
use epubcontract::node::{
    Attribute, CaseSensitivity, Comment, Doctype, Element, Node, NodeString, PartialDisplay,
    ProcessingInstruction, QualName, Text,
};
use epubcontract::xmldoc::Document as XmlDocument;
use epubcontract::api::{Api, ApiError, ApiResponse};
use epubcontract::locator::{DOMIndex, DOMRange, SimplifiedLocator};
use epubcontract::publication::{Publication, RawResource};
use epubcontract::selection::selector_path;

fn qn(local: &str) -> QualName {
    QualName::new(None, NodeString::from(""), NodeString::from(local))
}

fn element(name: &str, attrs: &[(&str, &str)]) -> Node {
    let attrs = attrs
        .iter()
        .map(|(n, v)| Attribute { name: qn(n), value: NodeString::from(v) })
        .collect();
    Node::Element(Element::new(qn(name), attrs))
}

fn text(t: &str) -> Node {
    Node::Text(Text { text: NodeString::from(t) })
}

/// html > body > ("intro", p#a > "hello", " mid ", div > "end")
fn sample() -> Document {
    let mut d = Document::new();
    let html = d.add_node(element("html", &[]));
    let body = d.append_child(html, element("body", &[]));
    d.append_child(body, text("intro"));
    let p = d.append_child(body, element("p", &[("id", "a")]));
    d.append_child(p, text("hello"));
    d.append_child(body, text(" mid "));
    let div = d.append_child(body, element("div", &[]));
    d.append_child(div, text("end"));
    d
}

fn step(k: &str) -> Step {
    Step::new(String::from(k), None)
}

#[test]
fn append_child_links_parent_and_child() {
    let d = sample();
    assert_eq!(d.nodes.len(), 8);
    assert_eq!(d.nodes[1].children, vec![2, 3, 5, 6]);
    assert_eq!(d.nodes[3].parent, Some(1));
    assert_eq!(d.nodes[0].parent, None);
}

#[test]
fn cfi_even_steps_pick_elements_and_odd_steps_pick_texts() {
    let d = sample();
    let root = ElementRef::new(Some(0), &d);
    assert_eq!(root.select_cfi_node_id(&vec![2]), Some(1));
    assert_eq!(root.select_cfi_node_id(&vec![2, 2]), Some(3));
    assert_eq!(root.select_cfi_node_id(&vec![2, 4]), Some(6));
    assert_eq!(root.select_cfi_node_id(&vec![2, 1]), Some(2));
    assert_eq!(root.select_cfi_node_id(&vec![2, 3]), Some(5));
    assert_eq!(root.select_cfi_node_id(&vec![2, 2, 1]), Some(4));
    assert_eq!(root.select_cfi_node_id(&vec![]), Some(0));
    assert_eq!(root.select_cfi_node_id(&vec![2, 6]), None);
    assert_eq!(root.select_cfi_node_id(&vec![2, 5]), None);
    assert_eq!(ElementRef::new(None, &d).select_cfi_node_id(&vec![2]), None);
}

#[test]
fn cfi_walks_compose() {
    let d = sample();
    let root = ElementRef::new(Some(0), &d);
    let mid = root.select_cfi_node_id(&vec![2]).unwrap();
    let from_mid = ElementRef::new(Some(mid), &d).select_cfi_node_id(&vec![4, 1]);
    assert_eq!(root.select_cfi_node_id(&vec![2, 4, 1]), from_mid);
    assert_eq!(from_mid, Some(7));
}

#[test]
fn select_cfi_gives_the_node() {
    let d = sample();
    let root = ElementRef::new(Some(0), &d);
    match root.select_cfi(&vec![2, 2, 1]) {
        Some(Node::Text(t)) => assert_eq!(t.text.as_str(), "hello"),
        _ => panic!("not the text"),
    }
    assert!(root.select_cfi(&vec![8]).is_none());
}

#[test]
fn select_steps_reads_the_step_numbers() {
    let d = sample();
    let r = ElementRef::new(Some(0), &d);
    assert_eq!(r.select_steps(1, &vec![step("4"), step("1")]), Some(7));
    assert_eq!(r.select_steps(1, &vec![step("x")]), None);
    assert_eq!(r.select_steps(1, &vec![]), None);
}

#[test]
fn fmt_node_writes_the_subtree() {
    let d = sample();
    let r = ElementRef::new(Some(0), &d);
    assert_eq!(r.fmt_node(3), "<p id=a>hello</p>");
    assert_eq!(
        r.fmt_node(0),
        "<html><body>intro<p id=a>hello</p> mid <div>end</div></body></html>"
    );
    assert_eq!(r.fmt_node(2), "intro");
}

#[test]
fn select_cfi_range_gives_the_started_nodes_in_order() {
    let d = sample();
    let root = ElementRef::new(Some(0), &d);
    let nodes = root.select_cfi_range(&vec![2, 2], &vec![2, 4]);
    let texts: Vec<String> = nodes.iter().map(|n| n.start_fmt()).collect();
    assert_eq!(texts, vec!["<p id=a>", "hello", " mid ", "<div>", "end"]);
    assert!(root.select_cfi_range(&vec![2, 8], &vec![2, 4]).is_empty());
}

#[test]
fn select_cfi_fragment_fmt_writes_the_selected_part() {
    let d = sample();
    let root = ElementRef::new(Some(0), &d);
    let f = Fragment::new(Path::new(LocalPath::new(vec![step("4")], None)), None);
    assert_eq!(root.select_cfi_fragment_fmt(&f), "<div>end</div>");
    let ranged = Fragment::new(
        Path::new(LocalPath::new(vec![], None)),
        Some(Range::new(LocalPath::new(vec![step("2")], None), LocalPath::new(vec![step("3")], None))),
    );
    assert_eq!(root.select_cfi_fragment_fmt(&ranged), "");
    let in_body = Fragment::new(
        Path::new(LocalPath::new(vec![step("2")], None)),
        Some(Range::new(LocalPath::new(vec![step("1")], None), LocalPath::new(vec![], None))),
    );
    assert_eq!(root.select_cfi_fragment_fmt(&in_body), "");
}

#[test]
fn parent_and_previous_sibling_elements() {
    let d = sample();
    let div = ElementRef::new(Some(6), &d);
    assert_eq!(div.parent_element().unwrap().id, Some(1));
    assert_eq!(div.prev_sibling_element().unwrap().id, Some(3));
    let p = ElementRef::new(Some(3), &d);
    assert!(p.prev_sibling_element().is_none());
    assert!(ElementRef::new(Some(0), &d).parent_element().is_none());
    assert!(div.has_local_name("div"));
    assert!(!div.has_local_name("p"));
}

#[test]
fn element_attributes_classes_and_id() {
    let attrs = vec![
        Attribute { name: qn("class"), value: NodeString::from("b a") },
        Attribute { name: qn("title"), value: NodeString::from("t1") },
        Attribute { name: qn("title"), value: NodeString::from("t2") },
    ];
    let e = Element::new(qn("span"), attrs);
    assert_eq!(e.name(), "span");
    assert_eq!(e.id(), None);
    assert_eq!(e.attr("title"), Some("t2"));
    assert_eq!(e.attr("missing"), None);
    let mut classes = e.classes();
    let mut got = Vec::new();
    while let Some(c) = classes.next() {
        got.push(String::from(c));
    }
    got.sort();
    assert_eq!(got, vec!["a", "b"]);
    let mut attrs = e.attrs();
    let mut names = Vec::new();
    while let Some((n, _)) = attrs.next() {
        names.push(String::from(n));
    }
    assert_eq!(names, vec!["class", "title"]);
}

#[test]
fn case_sensitivity_compares_bytes() {
    assert!(CaseSensitivity::CaseSensitive.eq(b"abc", b"abc"));
    assert!(!CaseSensitivity::CaseSensitive.eq(b"abc", b"ABC"));
    assert!(CaseSensitivity::AsciiCaseInsensitive.eq(b"abc", b"ABC"));
    assert!(CaseSensitivity::AsciiCaseInsensitive.contains("xxHello", "hello"));
    assert!(!CaseSensitivity::CaseSensitive.contains("xxHello", "hello"));
}

#[test]
fn nodes_write_their_start_and_end() {
    let dt = Doctype {
        name: NodeString::from("html"),
        public_id: NodeString::from("-//W3C"),
        system_id: NodeString::from("x.dtd"),
    };
    assert_eq!(dt.start_fmt(), "<!DOCTYPE html PUBLIC -//W3C x.dtd>");
    let c = Comment { comment: NodeString::from("note") };
    assert_eq!(c.start_fmt(), "<!-- note -->");
    assert_eq!(c.end_fmt(), "");
    let pi = ProcessingInstruction {
        target: NodeString::from("xml"),
        data: NodeString::from("version=\"1.0\""),
    };
    assert_eq!(pi.start_fmt(), "NodeString { inner: \"xml\" } version=\"1.0\"");
    assert_eq!(Node::Document.start_fmt(), "");
    assert!(Node::default().is_comment());
    let n = text("t");
    assert!(n.as_text().is_some());
    assert!(n.as_element().is_none());
}

fn xml_sample() -> XmlDocument {
    let mut d = Document::new();
    let pkg = d.add_node(element("package", &[]));
    let manifest = d.append_child(pkg, element("manifest", &[]));
    d.append_child(manifest, element("item", &[("id", "i1")]));
    d.append_child(manifest, text(" "));
    d.append_child(manifest, element("item", &[("id", "i2")]));
    let spine = d.append_child(pkg, element("spine", &[]));
    d.append_child(spine, element("itemref", &[("idref", "i1")]));
    XmlDocument { tree: d, root: Some(pkg) }
}

#[test]
fn find_element_gives_the_first_in_document_order() {
    let doc = xml_sample();
    let item = doc.find_element("item").ok().unwrap();
    assert_eq!(item.attr("id"), Some("i1"));
    assert_eq!(doc.find_element("package").ok().unwrap().name(), "package");
    match doc.find_element("nothing") {
        Err(e) => assert_eq!(e.error, "Not found \"nothing\""),
        Ok(_) => panic!("found"),
    }
    let empty = XmlDocument { tree: Document::new(), root: None };
    assert!(empty.find_element("item").is_err());
}

#[test]
fn node_sets_navigate_children_descendants_and_names() {
    let doc = xml_sample();
    let manifest = doc.find("manifest").ok().unwrap();
    assert_eq!(manifest.nodes, vec![1]);
    assert_eq!(manifest.children().nodes, vec![2, 3, 4]);
    assert_eq!(manifest.elements().nodes, vec![1]);
    assert_eq!(manifest.children().elements().nodes, vec![2, 4]);
    let root = doc.find("package").ok().unwrap();
    assert_eq!(root.descendants().nodes, vec![0, 1, 2, 3, 4, 5, 6]);
    assert_eq!(root.with_name("spine").nodes, vec![5]);
    assert_eq!(manifest.with_name("item").nodes, vec![2, 4]);
    let texts = manifest.children().filter(|n: &Node| n.is_text());
    assert_eq!(texts.nodes, vec![3]);
    let items = manifest.nav(|n: &Node| n.is_element(), |ns| ns.children());
    assert_eq!(items.nodes, vec![2, 4]);
    let below = root.nav(|n: &Node| n.is_text(), |ns| ns.descendants());
    assert_eq!(below.nodes, vec![3]);
    match doc.find("missing") {
        Err(e) => assert_eq!(e.error, "Not found \"missing\""),
        Ok(_) => panic!("found"),
    }
}

#[test]
fn selector_paths_split_on_unquoted_spaces() {
    assert_eq!(selector_path("body p"), vec!["body", "p"]);
    assert_eq!(selector_path("  a   b "), vec!["a", "b"]);
    assert_eq!(selector_path("a \"b c\" d"), vec!["a", "b c", "d"]);
    assert!(selector_path("").is_empty());
}

fn named_as(d: &Document, id: usize, name: &str) -> bool {
    ElementRef::new(Some(id), d).has_local_name(name)
}

#[test]
fn select_keeps_the_matching_elements_of_the_subtree() {
    let d = sample();
    let root = ElementRef::new(Some(0), &d);
    assert_eq!(root.select_ids(|id: usize| named_as(&d, id, "p") || named_as(&d, id, "div")), vec![3, 6]);
    assert_eq!(root.select_ids(|_id: usize| true), vec![0, 1, 3, 6]);
    let body = ElementRef::new(Some(1), &d);
    assert_eq!(body.select_ids(|id: usize| named_as(&d, id, "html")), Vec::<usize>::new());
    let nodes = root.select(|id: usize| named_as(&d, id, "div"));
    assert_eq!(nodes.len(), 1);
    assert_eq!(nodes[0].start_fmt(), "<div>");
    assert_eq!(
        root.select_fmt(|id: usize| named_as(&d, id, "p")),
        vec![String::from("<p id=a>hello</p>")]
    );
    assert_eq!(
        root.select_fmt_alt(|id: usize| named_as(&d, id, "div")),
        vec![String::from("<div>end</div>")]
    );
    assert!(ElementRef::new(None, &d).select_ids(|_id: usize| true).is_empty());
}

#[test]
fn select_with_path_steps_through_child_elements() {
    let d = sample();
    let root = ElementRef::new(Some(0), &d);
    let names = ["body", "div"];
    let m = |j: usize, id: usize| named_as(&d, id, names[j]);
    assert_eq!(root.select_ids_with_path("body div", m), vec![6]);
    assert_eq!(root.select_with_path("body div", m), vec![String::from("<div>end</div>")]);
    let not_below = |j: usize, id: usize| named_as(&d, id, ["div"][j]);
    assert!(root.select_ids_with_path("div", not_below).is_empty());
    assert_eq!(root.select_ids_with_path("", |_j: usize, _id: usize| false), vec![0]);
}

#[test]
fn select_nodes_with_range_walks_between_the_selected_nodes() {
    let d = sample();
    let root = ElementRef::new(Some(0), &d);
    let range = DOMRange {
        start: DOMIndex { css_selector: String::from("body p"), text_node_index: None, offset: None },
        end: DOMIndex { css_selector: String::from("body div"), text_node_index: None, offset: None },
    };
    let start_names = ["body", "p"];
    let end_names = ["body", "div"];
    let s = |j: usize, id: usize| named_as(&d, id, start_names[j]);
    let e = |j: usize, id: usize| named_as(&d, id, end_names[j]);
    let nodes = root.select_nodes_with_range(&range, s, e);
    let texts: Vec<String> = nodes.iter().map(|n| n.start_fmt()).collect();
    assert_eq!(texts, vec!["<p id=a>", "hello", " mid ", "<div>", "end"]);
    assert_eq!(
        root.select_nodes_with_range_fmt(&range, s, e),
        "<p id=a>hello</p> mid <div>end</div>"
    );
    let none = |_j: usize, _id: usize| false;
    assert!(root.select_nodes_with_range(&range, none, e).is_empty());
    assert_eq!(root.select_nodes_with_range_fmt(&range, s, none), "");
}

#[test]
fn locate_writes_out_the_located_part_of_a_document() {
    // The matchers read a copy of the document kept with the resource.
    let d = sample();
    let mut p = Publication::default();
    p.raw_resources.push(RawResource {
        name: b"c.xhtml".to_vec(),
        data: Vec::new(),
        is_document: true,
        document: Some(XmlDocument { tree: sample(), root: Some(0) }),
    });
    p.raw_resources.push(RawResource { name: b"s.css".to_vec(), data: Vec::new(), is_document: false, document: None });
    let mut l = SimplifiedLocator::default();
    l.href = String::from("c.xhtml");
    l.media_type = String::from("text/html");
    l.from_css_selector = String::from("body p");
    l.to_css_selector = String::from("body p");
    let names = ["body", "p"];
    let m = |j: usize, id: usize| named_as(&d, id, names[j]);
    match Api::locate(&p, &l, m, m) {
        Ok(ApiResponse::String(s)) => assert_eq!(s, "<p id=a>hello</p>"),
        _ => panic!("not located"),
    }
    let mut css = SimplifiedLocator::default();
    css.href = String::from("s.css");
    css.media_type = String::from("text/html");
    match Api::locate(&p, &css, m, m) {
        Err(ApiError::String(e)) => assert_eq!(e, "No results"),
        _ => panic!("located"),
    }
    l.media_type = String::from("text/css");
    assert!(Api::locate(&p, &l, m, m).is_err());
    // A resource flagged as a document but with no document kept gives no
    // result.
    let mut q = Publication::default();
    q.raw_resources.push(RawResource { name: b"c.xhtml".to_vec(), data: Vec::new(), is_document: true, document: None });
    l.media_type = String::from("text/html");
    assert!(Api::locate(&q, &l, m, m).is_err());
}

#[test]
fn element_predicates_of_the_tree() {
    let d = sample();
    let p = ElementRef::new(Some(3), &d);
    assert!(p.has_id("a", CaseSensitivity::CaseSensitive));
    assert!(!p.has_id("A", CaseSensitivity::CaseSensitive));
    assert!(p.has_id("A", CaseSensitivity::AsciiCaseInsensitive));
    assert!(!ElementRef::new(Some(6), &d).has_id("a", CaseSensitivity::CaseSensitive));
    assert_eq!(p.next_sibling_element().unwrap().id, Some(5));
    assert!(ElementRef::new(Some(6), &d).next_sibling_element().is_none());
    assert!(ElementRef::new(Some(1), &d).is_empty());
    assert!(p.is_empty());
    assert!(!ElementRef::new(Some(2), &d).is_empty());
    assert!(!ElementRef::new(Some(0), &d).is_root());
    assert!(!p.is_link());

    let mut doc = Document::new();
    let top = doc.add_node(Node::Document);
    let html = doc.append_child(top, element("html", &[]));
    let head = doc.append_child(html, element("head", &[]));
    let link = doc.append_child(head, element("link", &[("rel", "stylesheet")]));
    assert!(ElementRef::new(Some(html), &doc).is_root());
    assert!(!ElementRef::new(Some(head), &doc).is_root());
    assert!(ElementRef::new(Some(link), &doc).is_link());
    assert!(!ElementRef::new(None, &doc).is_link());
}

#[test]
fn nodes_in_one_line() {
    assert_eq!(Node::Document.debug_fmt(), "Document");
    assert_eq!(Node::Fragment.debug_fmt(), "Fragment");
    assert_eq!(
        Node::Comment(Comment { comment: NodeString::from("note") }).debug_fmt(),
        "Comment(<!-- \"note\" -->)"
    );
    assert_eq!(text("hi \"x\"").debug_fmt(), "Text(\"hi \\\"x\\\"\")");
    assert_eq!(element("p", &[("id", "a"), ("class", "b c")]).debug_fmt(), "Element(<p class=\"b c\" id=\"a\">)");
    let pi = ProcessingInstruction { target: NodeString::from("xml"), data: NodeString::from("v") };
    assert_eq!(
        Node::ProcessingInstruction(pi).debug_fmt(),
        "ProcessingInstruction(NodeString { inner: \"xml\" } NodeString { inner: \"v\" })"
    );
    let dt = Doctype {
        name: NodeString::from("html"),
        public_id: NodeString::from("-//W3C"),
        system_id: NodeString::from("x.dtd"),
    };
    assert_eq!(Node::Doctype(dt).debug_fmt(), "Doctype(<!DOCTYPE html PUBLIC \"-//W3C\" \"x.dtd\">)");
}

#[test]
fn descendants_visit_every_node_below_once_in_document_order() {
    // Nodes are added out of document order: the children of `a` come
    // after `b` in the arena.
    let mut d = Document::new();
    let r = d.add_node(element("r", &[]));
    let a = d.append_child(r, element("a", &[]));
    let b = d.append_child(r, element("b", &[]));
    let c = d.append_child(a, element("c", &[]));
    let e = d.append_child(b, element("e", &[]));
    let f = d.append_child(a, text("f"));
    let doc = XmlDocument { tree: d, root: Some(r) };
    let top = doc.find("r").ok().unwrap();
    assert_eq!(top.descendants().nodes, vec![r, a, c, f, b, e]);
    let under_a = doc.find("a").ok().unwrap();
    assert_eq!(under_a.descendants().nodes, vec![a, c, f]);
}

#[test]
fn ranges_walk_the_run_of_the_preorder_between_their_ends() {
    // r > (a > (c, f), b > e), with the nodes added out of document order.
    let mut d = Document::new();
    let r = d.add_node(element("r", &[]));
    let a = d.append_child(r, element("a", &[]));
    let b = d.append_child(r, element("b", &[]));
    let c = d.append_child(a, element("c", &[]));
    let e = d.append_child(b, element("e", &[]));
    let f = d.append_child(a, text("f"));
    let collect = |from: usize, to: usize| {
        let mut range = epubcontract::element::Range::new(&d, r, from, to);
        let mut out = Vec::new();
        while let Some(edge) = range.next() {
            out.push(edge);
        }
        out
    };
    assert_eq!(
        collect(c, e),
        vec![
            NodeEdge::Start(c),
            NodeEdge::End(c),
            NodeEdge::Start(f),
            NodeEdge::End(f),
            NodeEdge::End(a),
            NodeEdge::Start(b),
            NodeEdge::Start(e),
            NodeEdge::End(e),
        ]
    );
    // `to` before `from`: the walk runs on to the end of the root.
    assert_eq!(
        collect(b, a),
        vec![
            NodeEdge::Start(b),
            NodeEdge::Start(e),
            NodeEdge::End(e),
            NodeEdge::End(b),
            NodeEdge::End(r),
        ]
    );
    assert_eq!(collect(f, f), vec![NodeEdge::Start(f), NodeEdge::End(f)]);
}

#[test]
fn locate_with_cfi_reads_the_document_kept_with_the_resource() {
    let mut p = Publication::default();
    p.raw_resources.push(RawResource {
        name: b"c.xhtml".to_vec(),
        data: Vec::new(),
        is_document: true,
        document: Some(XmlDocument { tree: sample(), root: Some(0) }),
    });
    let mut l = SimplifiedLocator::default();
    l.href = String::from("c.xhtml");
    l.media_type = String::from("text/html");
    let f = Fragment::new(Path::new(LocalPath::new(vec![step("4")], None)), None);
    match Api::locate_with_cfi(&p, &l, &f) {
        Ok(ApiResponse::String(s)) => assert_eq!(s, "<div>end</div>"),
        _ => panic!("not located"),
    }
    l.href = String::from("other.xhtml");
    match Api::locate_with_cfi(&p, &l, &f) {
        Err(ApiError::String(e)) => assert_eq!(e, "No results"),
        _ => panic!("located"),
    }
}
