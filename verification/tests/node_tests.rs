use epubcontract::node::{CaseSensitivity, Node, NodeString, QualName, Attribute, Element, PartialDisplay};

fn qn(local: &str) -> QualName {
    QualName::new(None, NodeString::from(""), NodeString::from(local))
}

#[test]
fn element_new_sorts_and_dedups_attributes() {
    let attrs = vec![
        Attribute { name: qn("id"), value: NodeString::from("a") },
        Attribute { name: qn("class"), value: NodeString::from("x  y x") },
        Attribute { name: qn("href"), value: NodeString::from("b") },
        Attribute { name: qn("id"), value: NodeString::from("c") },
    ];
    let e = Element::new(qn("p"), attrs);
    assert_eq!(e.id(), Some("a"));
    assert_eq!(e.attr("id"), Some("c"));
    assert!(e.has_class("x", CaseSensitivity::CaseSensitive));
    assert!(!e.has_class("X", CaseSensitivity::CaseSensitive));
    assert!(e.has_class("X", CaseSensitivity::AsciiCaseInsensitive));
    assert_eq!(e.start_fmt(), "<p class=x  y x href=b id=c>");
    assert_eq!(e.end_fmt(), "</p>");
    let n = Node::Element(e);
    assert!(n.is_element());
    assert!(!n.is_text());
}
