use epubcontract::api::{Api, ApiError, ApiResponse};
use epubcontract::naming::to_pascal_case;
use epubcontract::locator::{DOMIndex, DOMRange, SimplifiedLocator, TextContext};
use epubcontract::order::compare_str;
use epubcontract::pairs::{lookup_bytes, lookup_str};
use epubcontract::publication::{Link, Publication, RawResource};
use epubcontract::strings::{
    concat_str, decimal_string, join_strings, parse_usize_str, split_char, str_contains,
};
use epubcontract::typelist::{cons, EmptySQ, Len, MapFunc, Nil, Pop, PopFront, Push};
use epubcontract::xmldoc::XMLError;

#[test]
fn decimal_string_writes_numbers_without_leading_zeros() {
    assert_eq!(decimal_string(0), "0");
    assert_eq!(decimal_string(7), "7");
    assert_eq!(decimal_string(10), "10");
    assert_eq!(decimal_string(1234567890), "1234567890");
    assert_eq!(decimal_string(u64::MAX), "18446744073709551615");
}

#[test]
fn parse_usize_str_reads_as_std_does() {
    assert_eq!(parse_usize_str("0"), Some(0));
    assert_eq!(parse_usize_str("42"), Some(42));
    assert_eq!(parse_usize_str("+42"), Some(42));
    assert_eq!(parse_usize_str("007"), Some(7));
    assert_eq!(parse_usize_str(""), None);
    assert_eq!(parse_usize_str("+"), None);
    assert_eq!(parse_usize_str("-1"), None);
    assert_eq!(parse_usize_str("1a"), None);
    assert_eq!(parse_usize_str(" 1"), None);
    assert_eq!(parse_usize_str(&usize::MAX.to_string()), Some(usize::MAX));
    assert_eq!(parse_usize_str("99999999999999999999999"), None);
    for n in [0usize, 9, 12, 300, 65536] {
        assert_eq!(parse_usize_str(&decimal_string(n as u64)), Some(n));
    }
}

#[test]
fn split_and_join_texts() {
    assert_eq!(split_char("a,,b", ','), vec!["a", "", "b"]);
    assert_eq!(split_char("", ','), vec![""]);
    assert_eq!(split_char("abc", ','), vec!["abc"]);
    assert_eq!(
        join_strings(&vec![String::from("a"), String::from("b"), String::from("c")], ", "),
        "a, b, c"
    );
    assert_eq!(join_strings(&vec![], "-"), "");
    assert_eq!(join_strings(&vec![String::from("x")], "-"), "x");
}

#[test]
fn text_helpers() {
    assert!(str_contains("rendition:layout", "layout"));
    assert!(str_contains("abc", ""));
    assert!(!str_contains("ab", "abc"));
    assert_eq!(concat_str("ab", "cd"), "abcd");
}

#[test]
fn compare_str_orders_texts_by_characters() {
    assert_eq!(compare_str("a", "b"), -1);
    assert_eq!(compare_str("b", "a"), 1);
    assert_eq!(compare_str("ab", "ab"), 0);
    assert_eq!(compare_str("a", "ab"), -1);
    assert_eq!(compare_str("", ""), 0);
}

#[test]
fn pair_lookups_give_the_last_value_of_a_key() {
    let v = vec![
        (String::from("k"), String::from("1")),
        (String::from("j"), String::from("2")),
        (String::from("k"), String::from("3")),
    ];
    assert_eq!(lookup_str(&v, "k"), Some(&String::from("3")));
    assert_eq!(lookup_str(&v, "j"), Some(&String::from("2")));
    assert_eq!(lookup_str(&v, "x"), None);
    let b = vec![(b"a".to_vec(), b"x".to_vec()), (b"a".to_vec(), b"y".to_vec())];
    assert_eq!(lookup_bytes(&b, b"a"), Some(&b"y".to_vec()));
    assert_eq!(lookup_bytes(&b, b"b"), None);
}

fn typed_link(href: &str, t: &str) -> Link {
    let mut l = Link::default();
    l.href = String::from(href);
    l.type_link = Some(String::from(t));
    l
}

#[test]
fn mime_types_come_from_the_reading_order_then_the_resources() {
    let mut p = Publication::default();
    p.resources.push(typed_link("c.xhtml", "text/plain"));
    p.resources.push(typed_link("s.css", "text/css"));
    p.reading_order.push(typed_link("c.xhtml", "application/xhtml+xml"));
    assert_eq!(
        Api::find_mime_type(&p, &b"c.xhtml".to_vec()),
        Some(String::from("application/xhtml+xml"))
    );
    assert_eq!(Api::find_mime_type(&p, &b"s.css".to_vec()), Some(String::from("text/css")));
    assert_eq!(Api::find_mime_type(&p, &b"x".to_vec()), None);
    assert_eq!(Api::find_mime_type(&p, &vec![0xff]), None);
}

#[test]
fn resource_answers_the_bytes_and_media_type() {
    let mut p = Publication::default();
    p.resources.push(typed_link("s.css", "text/css"));
    p.raw_resources.push(RawResource { name: b"s.css".to_vec(), data: b"body{}".to_vec(), is_document: false, document: None });
    p.raw_resources.push(RawResource { name: b"img.png".to_vec(), data: vec![1, 2], is_document: false, document: None });
    match Api::resource(&p, b"s.css".to_vec()) {
        Ok(ApiResponse::VecAndString(d, m)) => {
            assert_eq!(d, b"body{}".to_vec());
            assert_eq!(m, Some(String::from("text/css")));
        },
        _ => panic!("no resource"),
    }
    match Api::resource(&p, b"img.png".to_vec()) {
        Ok(ApiResponse::VecAndString(d, m)) => {
            assert_eq!(d, vec![1, 2]);
            assert_eq!(m, None);
        },
        _ => panic!("no resource"),
    }
    match Api::resource(&p, b"none".to_vec()) {
        Err(ApiError::String(e)) => assert_eq!(e, ""),
        _ => panic!("found"),
    }
}

#[test]
fn api_responses_hold_what_they_are_made_of() {
    assert!(matches!(ApiResponse::default(), ApiResponse::Void));
    assert!(matches!(ApiResponse::from_unit(()), ApiResponse::Void));
    match ApiResponse::from_string(String::from("x")) {
        ApiResponse::String(s) => assert_eq!(s, "x"),
        _ => panic!("not a string"),
    }
    match ApiResponse::from_string_ref(&String::from("y")) {
        ApiResponse::String(s) => assert_eq!(s, "y"),
        _ => panic!("not a string"),
    }
    match ApiError::default() {
        ApiError::String(s) => assert_eq!(s, ""),
    }
}

#[test]
fn type_lists_know_their_length() {
    let l = cons(1u8, cons("two", cons(3.0f64, Nil)));
    assert_eq!(l.len(), 3);
    assert_eq!(Nil.len(), 0);
    assert_eq!(l.head, 1);
    assert_eq!(l.tail.head, "two");
}

#[test]
fn heterogeneous_lists_yield_their_items_in_order() {
    let list = cons(8u32, cons(true, cons(43i64, Nil)));
    let iter = list.iter();
    let (item, iter) = iter.next();
    assert_eq!(*item, 8);
    let (item, iter) = iter.next();
    assert_eq!(*item, true);
    let (item, _) = iter.next();
    assert_eq!(*item, 43);
    assert_eq!(list.len(), 3);
}

struct Double {
    calls: u32,
}

impl<'a> MapFunc<&'a u8> for Double {
    type Output = u16;

    fn calls(&self, item: &'a u8, after: &Self, output: u16) -> bool {
        output == (*item as u16) * 2 && after.calls == self.calls + 1
    }

    fn call(&mut self, item: &'a u8) -> u16 {
        self.calls += 1;
        (*item as u16) * 2
    }
}

struct AddOne;

impl MapFunc<u16> for AddOne {
    type Output = u16;

    fn calls(&self, item: u16, _after: &Self, output: u16) -> bool {
        output == item + 1
    }

    fn call(&mut self, item: u16) -> u16 {
        item + 1
    }
}

#[test]
fn mapped_walks_apply_each_function_once_per_item_in_order() {
    let list = cons(5u8, cons(7u8, Nil));
    let iter = list.iter().map(Double { calls: 0 });
    let (a, iter) = iter.next();
    assert_eq!(a, 10);
    let (b, _) = iter.next();
    assert_eq!(b, 14);
    let twice = list.iter().map(Double { calls: 0 }).map(AddOne);
    let (c, twice) = twice.next();
    assert_eq!(c, 11);
    let (d, _) = twice.next();
    assert_eq!(d, 15);
    let mut f = Double { calls: 0 };
    let x = 9u8;
    let out = f.call(&x);
    assert!(Double { calls: 0 }.calls(&x, &f, out));
}

#[test]
fn stack_queues_pop_the_newest_and_pop_front_the_oldest() {
    let q = EmptySQ.push(1u32).push("b").push(3i64);
    let (newest, rest) = q.pop();
    assert_eq!(newest, 3);
    let (next, _) = rest.pop();
    assert_eq!(next, "b");
    let q2 = EmptySQ.push(1u32).push("b").push(3i64);
    let (oldest, _): (u32, _) = q2.pop_front();
    assert_eq!(oldest, 1);
}

#[test]
fn locators_start_empty() {
    let l = SimplifiedLocator::default();
    assert_eq!(l.href, "");
    assert_eq!(l.to_css_selector, "");
    let i = DOMIndex::default();
    assert_eq!(i.text_node_index, None);
    let r = DOMRange::default();
    assert_eq!(r.end.offset, None);
    let _ = TextContext::default();
    let e = XMLError { error: String::from("bad") };
    assert_eq!(e.error, "bad");
}

#[test]
fn to_pascal_case_capitalizes_words_and_drops_separators() {
    assert_eq!(to_pascal_case(String::from("hello_world")), "HelloWorld");
    assert_eq!(to_pascal_case(String::from("foo-bar baz")), "FooBarBaz");
    assert_eq!(to_pascal_case(String::from("helloWorld")), "HelloWorld");
    assert_eq!(to_pascal_case(String::from("HTTPServer")), "Httpserver");
    assert_eq!(to_pascal_case(String::from("a1b")), "A1B");
    assert_eq!(to_pascal_case(String::from("__x__")), "X");
    assert_eq!(to_pascal_case(String::new()), "");
}
