use epubcontract::api::{Api, ApiError, ApiResponse};
use epubcontract::computation::hash;
use epubcontract::no_proofs::NoProofs;
use epubcontract::prover::Prover;
use epubcontract::publication::{Link, Publication, RawResource};
use epubcontract::verifying::{AuthTVerifier, Verifier};

fn css_link() -> Link {
    let mut l = Link::default();
    l.href = String::from("s.css");
    l.type_link = Some(String::from("text/css"));
    l
}

fn sample() -> Publication {
    let mut p = Publication::default();
    p.resources.push(css_link());
    p.raw_resources.push(RawResource { name: b"s.css".to_vec(), data: b"body{}".to_vec(), is_document: false, document: None });
    p
}

/// The bytes the sample publication travels as (any fixed bytes do here).
fn projection() -> Vec<u8> {
    b"sample publication v1".to_vec()
}

fn decode(b: &Vec<u8>) -> Option<Publication> {
    if *b == projection() {
        Some(sample())
    } else {
        None
    }
}

fn css_answer(r: Option<&ApiResponse>) {
    match r {
        Some(ApiResponse::VecAndString(d, m)) => {
            assert_eq!(d, &b"body{}".to_vec());
            assert_eq!(m, &Some(String::from("text/css")));
        },
        _ => panic!("no resource"),
    }
}

#[test]
fn a_verifier_replays_the_proofs_of_a_resource_answer() {
    let doc = Prover::<(), ()>::auth(sample(), projection());
    let prover = Api::resource_prover(&doc, b"s.css".to_vec());
    css_answer(prover.get());
    assert_eq!(prover.get_proofs().len(), 1);
    assert_eq!(prover.get_proofs()[0], projection());
    let proofs = prover.transfer_proofs();
    let mut held = AuthTVerifier::<Publication>::new(&projection());
    let verifier = Api::resource_verifier(&mut held, b"s.css".to_vec(), proofs, decode).unwrap();
    css_answer(verifier.get());
    assert!(verifier.get_proofs().is_empty());
    assert!(held.has_value());
}

#[test]
fn a_verifier_refuses_proofs_of_another_publication() {
    let mut held = AuthTVerifier::<Publication>::new(&projection());
    let doc = Prover::<(), ()>::auth(sample(), b"tampered".to_vec());
    let proofs = Api::resource_prover(&doc, b"s.css".to_vec()).transfer_proofs();
    assert!(Api::resource_verifier(&mut held, b"s.css".to_vec(), proofs, decode).is_none());
    assert!(!held.has_value());
    let empty = Verifier::<(), ()>::new(None, ()).transfer_proofs();
    assert!(Api::resource_verifier(&mut held, b"s.css".to_vec(), empty, decode).is_none());
}

#[test]
fn a_verifier_keeps_the_value_it_decoded() {
    let doc = Prover::<(), ()>::auth(sample(), projection());
    let first = Api::resource_prover(&doc, b"s.css".to_vec()).transfer_proofs();
    let second = Api::resource_prover(&doc, b"none".to_vec()).transfer_proofs();
    let mut held = AuthTVerifier::<Publication>::new(&projection());
    assert!(Api::resource_verifier(&mut held, b"s.css".to_vec(), first, decode).is_some());
    // The second read is checked against the digest but not decoded again:
    // a decoder that fails still gives the kept value.
    let never = |_: &Vec<u8>| -> Option<Publication> { None };
    let v = Api::resource_verifier(&mut held, b"none".to_vec(), second, never).unwrap();
    match v.get() {
        None => {},
        Some(_) => panic!("found"),
    }
}

#[test]
fn reading_without_proofs_answers_the_same() {
    let doc = NoProofs::<(), ()>::auth(sample(), projection());
    let c = Api::resource_no_proofs(&doc, b"s.css".to_vec());
    css_answer(c.get());
    let missing = Api::resource_no_proofs(&doc, b"none".to_vec());
    assert!(missing.get().is_none());
    let _ = ApiError::default();
}

#[test]
fn a_verifier_answers_from_the_registered_digest() {
    let id = hash(&projection());
    let doc = Prover::<(), ()>::auth(sample(), projection());
    let proofs = Api::resource_prover(&doc, b"s.css".to_vec()).transfer_proofs();
    let v = Api::api_resource_verifier(&id, b"s.css".to_vec(), proofs, decode).unwrap();
    css_answer(v.get());
    let other = hash(b"another publication");
    let proofs = Api::resource_prover(&doc, b"s.css".to_vec()).transfer_proofs();
    assert!(Api::api_resource_verifier(&other, b"s.css".to_vec(), proofs, decode).is_none());
}

#[test]
fn any_question_is_answered_alike_by_prover_verifier_and_plain_reads() {
    let count = |p: &Publication| p.resources.len();
    let doc = Prover::<(), ()>::auth(sample(), projection());
    let prover = Api::ask_prover(&doc, count);
    assert_eq!(prover.get(), Some(&1));
    let proofs = prover.transfer_proofs();
    let mut held = AuthTVerifier::<Publication>::new(&projection());
    let verifier = Api::ask_verifier(&mut held, count, proofs, decode).unwrap();
    assert_eq!(verifier.get(), Some(&1));
    assert!(verifier.get_proofs().is_empty());
    let plain = NoProofs::<(), ()>::auth(sample(), projection());
    assert_eq!(Api::ask_no_proofs(&plain, count).get(), Some(&1));
    let cover = |p: &Publication| p.search_link_by_rel2("cover").is_ok();
    let proofs = Api::ask_prover(&doc, cover).transfer_proofs();
    let v = Api::ask_verifier(&mut held, cover, proofs, decode).unwrap();
    assert_eq!(v.get(), Some(&false));
}

fn tag(name: &str) -> epubcontract::node::Node {
    epubcontract::node::Node::Element(epubcontract::node::Element::new(
        epubcontract::node::QualName::new(
            None,
            epubcontract::node::NodeString::from(""),
            epubcontract::node::NodeString::from(name),
        ),
        Vec::new(),
    ))
}

fn with_document() -> Publication {
    let mut tree = epubcontract::element::Document::new();
    let html = tree.add_node(tag("html"));
    let p = tree.append_child(html, tag("p"));
    tree.append_child(
        p,
        epubcontract::node::Node::Text(epubcontract::node::Text {
            text: epubcontract::node::NodeString::from("hi"),
        }),
    );
    let mut publication = Publication::default();
    publication.raw_resources.push(RawResource {
        name: b"c.xhtml".to_vec(),
        data: Vec::new(),
        is_document: true,
        document: Some(epubcontract::xmldoc::Document { tree, root: Some(html) }),
    });
    publication
}

fn decode_doc(b: &Vec<u8>) -> Option<Publication> {
    if *b == b"with document".to_vec() {
        Some(with_document())
    } else {
        None
    }
}

#[test]
fn a_verifier_locates_in_the_document_kept_with_the_publication() {
    let mut l = epubcontract::locator::SimplifiedLocator::default();
    l.href = String::from("c.xhtml");
    l.media_type = String::from("text/html");
    l.from_css_selector = String::from("p");
    l.to_css_selector = String::from("p");
    let m = |_j: usize, id: usize| id == 1;
    let plain = match Api::locate(&with_document(), &l, m, m) {
        Ok(ApiResponse::String(s)) => s,
        _ => panic!("not located"),
    };
    assert!(plain.contains("hi"));
    let doc = Prover::<(), ()>::auth(with_document(), b"with document".to_vec());
    let prover = Api::locate_prover(&doc, &l, m, m);
    match prover.get() {
        Some(ApiResponse::String(s)) => assert_eq!(s, &plain),
        _ => panic!("not located"),
    }
    let proofs = prover.transfer_proofs();
    let id = hash(b"with document");
    let v = Api::api_locate_verifier(&id, &l, m, m, proofs, decode_doc).unwrap();
    match v.get() {
        Some(ApiResponse::String(s)) => assert_eq!(s, &plain),
        _ => panic!("not located"),
    }
    assert!(v.get_proofs().is_empty());
}
