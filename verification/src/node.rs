//! The nodes of an (X)HTML document: document and fragment roots, doctypes,
//! comments, texts, elements and processing instructions, and how each is
//! written out at its start and at its end.
use vstd::prelude::*;
use vstd::utf8::encode_utf8;
use crate::order::{compare_str, lemma_seq_lt_total, lemma_seq_lt_trans, seq_lt};
use crate::pairs::{distinct_keys, lemma_distinct_pairs_map, pairs_map};
use crate::strings::{
    bytes_eq, chars_of, concat_str, copy_str, debug_str, str_contains, str_debug, str_eq,
    string_from_chars, contains_seq,
};

verus! {

broadcast use vstd::string::group_string_axioms;

/// A text of a document.
pub struct NodeString {
    pub inner: String,
}

impl View for NodeString {
    type V = Seq<char>;

    open spec fn view(&self) -> Seq<char> {
        self.inner@
    }
}

impl NodeString {
    /// The node text holding a copy of `item`.
    pub fn from(item: &str) -> (r: Self)
        ensures
            r@ == item@,
    {
        NodeString { inner: copy_str(item) }
    }

    /// The text.
    pub fn as_str(&self) -> (r: &str)
        ensures
            r@ == self@,
    {
        self.inner.as_str()
    }

    /// A copy of the text.
    pub fn copy(&self) -> (r: Self)
        ensures
            r@ == self@,
    {
        NodeString::from(self.inner.as_str())
    }
}

/// An optional node text, by its characters.
pub open spec fn opt_ns_view(o: Option<NodeString>) -> Option<Seq<char>> {
    match o {
        Some(s) => Some(s@),
        None => None,
    }
}

/// A qualified name: prefix, namespace and local name.
pub struct QualName {
    pub prefix: Option<NodeString>,
    pub ns: NodeString,
    pub local: NodeString,
}

pub ghost struct QualNameV {
    pub prefix: Option<Seq<char>>,
    pub ns: Seq<char>,
    pub local: Seq<char>,
}

impl View for QualName {
    type V = QualNameV;

    open spec fn view(&self) -> QualNameV {
        QualNameV { prefix: opt_ns_view(self.prefix), ns: self.ns@, local: self.local@ }
    }
}

impl QualName {
    /// The name of these parts.
    pub fn new(prefix: Option<NodeString>, ns: NodeString, local: NodeString) -> (r: Self)
        ensures
            r@ == (QualNameV { prefix: opt_ns_view(prefix), ns: ns@, local: local@ }),
    {
        QualName { prefix, ns, local }
    }

    /// A copy of the name.
    pub fn copy(&self) -> (r: Self)
        ensures
            r@ == self@,
    {
        let prefix = match &self.prefix {
            Some(p) => Some(p.copy()),
            None => None,
        };
        QualName { prefix, ns: self.ns.copy(), local: self.local.copy() }
    }
}

/// The order of optional texts: none first.
pub open spec fn opt_lt(a: Option<Seq<char>>, b: Option<Seq<char>>) -> bool {
    match (a, b) {
        (None, Some(_)) => true,
        (Some(x), Some(y)) => seq_lt(x, y),
        _ => false,
    }
}

/// The order of qualified names: by prefix, then namespace, then local
/// name.
pub open spec fn qn_lt(a: QualNameV, b: QualNameV) -> bool {
    ||| opt_lt(a.prefix, b.prefix)
    ||| a.prefix == b.prefix && seq_lt(a.ns, b.ns)
    ||| a.prefix == b.prefix && a.ns == b.ns && seq_lt(a.local, b.local)
}

/// The order of qualified names is strict, total and transitive.
pub proof fn lemma_qn_lt(a: QualNameV, b: QualNameV, c: QualNameV)
    ensures
        a == b || qn_lt(a, b) || qn_lt(b, a),
        !(qn_lt(a, b) && qn_lt(b, a)),
        qn_lt(a, b) && qn_lt(b, c) ==> qn_lt(a, c),
{
    lemma_seq_lt_total(a.ns, b.ns);
    lemma_seq_lt_total(a.local, b.local);
    if a.prefix is Some && b.prefix is Some {
        lemma_seq_lt_total(a.prefix->Some_0, b.prefix->Some_0);
    }
    if qn_lt(a, b) && qn_lt(b, c) {
        if a.prefix is Some && b.prefix is Some && c.prefix is Some {
            if seq_lt(a.prefix->Some_0, b.prefix->Some_0) && seq_lt(
                b.prefix->Some_0,
                c.prefix->Some_0,
            ) {
                lemma_seq_lt_trans(a.prefix->Some_0, b.prefix->Some_0, c.prefix->Some_0);
            }
        }
        if seq_lt(a.ns, b.ns) && seq_lt(b.ns, c.ns) {
            lemma_seq_lt_trans(a.ns, b.ns, c.ns);
        }
        if seq_lt(a.local, b.local) && seq_lt(b.local, c.local) {
            lemma_seq_lt_trans(a.local, b.local, c.local);
        }
    }
    if a.prefix is Some && b.prefix is Some {
        lemma_seq_lt_total(a.prefix->Some_0, b.prefix->Some_0);
        if a.prefix->Some_0 == b.prefix->Some_0 {
            assert(a.prefix == b.prefix);
        }
    }
}

fn compare_opt(a: &Option<NodeString>, b: &Option<NodeString>) -> (r: i8)
    ensures
        r == 0 <==> opt_ns_view(*a) == opt_ns_view(*b),
        r < 0 <==> opt_lt(opt_ns_view(*a), opt_ns_view(*b)),
        r > 0 <==> opt_lt(opt_ns_view(*b), opt_ns_view(*a)),
{
    match (a, b) {
        (None, None) => 0,
        (None, Some(_)) => -1,
        (Some(_), None) => 1,
        (Some(x), Some(y)) => compare_str(x.as_str(), y.as_str()),
    }
}

/// How two qualified names compare: -1, 0 or 1.
pub fn compare_qualname(a: &QualName, b: &QualName) -> (r: i8)
    ensures
        r == 0 <==> a@ == b@,
        r < 0 <==> qn_lt(a@, b@),
        r > 0 <==> qn_lt(b@, a@),
{
    proof {
        lemma_qn_lt(a@, b@, b@);
    }
    let c = compare_opt(&a.prefix, &b.prefix);
    if c != 0 {
        return c;
    }
    let c = compare_str(a.ns.as_str(), b.ns.as_str());
    if c != 0 {
        return c;
    }
    compare_str(a.local.as_str(), b.local.as_str())
}

/// An attribute: its name and value.
pub struct Attribute {
    pub name: QualName,
    pub value: NodeString,
}

/// Attributes, by their names and values.
pub open spec fn attributes_view(s: Seq<Attribute>) -> Seq<(QualNameV, Seq<char>)> {
    s.map_values(|a: Attribute| (a.name@, a.value@))
}

/// A doctype.
pub struct Doctype {
    pub name: NodeString,
    pub public_id: NodeString,
    pub system_id: NodeString,
}

impl Doctype {
    /// The doctype name.
    pub fn name(&self) -> (r: &str)
        ensures
            r@ == self.name@,
    {
        self.name.as_str()
    }

    /// The doctype public id.
    pub fn public_id(&self) -> (r: &str)
        ensures
            r@ == self.public_id@,
    {
        self.public_id.as_str()
    }

    /// The doctype system id.
    pub fn system_id(&self) -> (r: &str)
        ensures
            r@ == self.system_id@,
    {
        self.system_id.as_str()
    }
}

/// A comment.
pub struct Comment {
    pub comment: NodeString,
}

/// A text.
pub struct Text {
    pub text: NodeString,
}

/// A processing instruction: its target and data.
pub struct ProcessingInstruction {
    pub target: NodeString,
    pub data: NodeString,
}

/// Whether `s` is strictly sorted by key.
pub open spec fn sorted_by_key(s: Seq<(QualNameV, Seq<char>)>) -> bool {
    forall|i: int, j: int| 0 <= i < j < s.len() ==> qn_lt(#[trigger] s[i].0, #[trigger] s[j].0)
}

/// Whether `s` is strictly sorted.
pub open spec fn sorted_strs(s: Seq<Seq<char>>) -> bool {
    forall|i: int, j: int| 0 <= i < j < s.len() ==> seq_lt(#[trigger] s[i], #[trigger] s[j])
}

/// An element: its name, its id, its classes (sorted, each once) and its
/// attributes (sorted by name, each name once).
pub struct Element {
    pub(crate) name: QualName,
    pub(crate) id: Option<NodeString>,
    pub(crate) classes: Vec<NodeString>,
    pub(crate) attrs: Vec<(QualName, NodeString)>,
}

/// Node texts, by their characters.
pub open spec fn ns_seq_view(s: Seq<NodeString>) -> Seq<Seq<char>> {
    s.map_values(|x: NodeString| x@)
}

/// Attribute entries, by their names and values.
pub open spec fn attrs_view(s: Seq<(QualName, NodeString)>) -> Seq<(QualNameV, Seq<char>)> {
    s.map_values(|p: (QualName, NodeString)| (p.0@, p.1@))
}

pub ghost struct ElementV {
    pub name: QualNameV,
    pub id: Option<Seq<char>>,
    pub classes: Seq<Seq<char>>,
    pub attrs: Seq<(QualNameV, Seq<char>)>,
}

impl View for Element {
    type V = ElementV;

    closed spec fn view(&self) -> ElementV {
        ElementV {
            name: self.name@,
            id: opt_ns_view(self.id),
            classes: ns_seq_view(self.classes@),
            attrs: attrs_view(self.attrs@),
        }
    }
}

impl Element {
    /// The classes and the attributes are sorted, each once; every element
    /// keeps them so.
    #[verifier::type_invariant]
    pub open spec fn wf(&self) -> bool {
        sorted_strs(self@.classes) && sorted_by_key(self@.attrs)
    }
}

/// A node of a document.
pub enum Node {
    Document,
    Fragment,
    Doctype(Doctype),
    Comment(Comment),
    Text(Text),
    Element(Element),
    ProcessingInstruction(ProcessingInstruction),
}

impl Node {
    /// The empty comment.
    pub fn default() -> (r: Self)
        ensures
            r matches Node::Comment(c) && c.comment@ == Seq::<char>::empty(),
    {
        Node::Comment(Comment { comment: NodeString { inner: String::new() } })
    }

    /// Whether the node is the document root.
    pub fn is_document(&self) -> (r: bool)
        ensures
            r == (self is Document),
    {
        match self {
            Node::Document => true,
            _ => false,
        }
    }

    /// Whether the node is a fragment root.
    pub fn is_fragment(&self) -> (r: bool)
        ensures
            r == (self is Fragment),
    {
        match self {
            Node::Fragment => true,
            _ => false,
        }
    }

    /// Whether the node is a doctype.
    pub fn is_doctype(&self) -> (r: bool)
        ensures
            r == (self is Doctype),
    {
        match self {
            Node::Doctype(_) => true,
            _ => false,
        }
    }

    /// Whether the node is a comment.
    pub fn is_comment(&self) -> (r: bool)
        ensures
            r == (self is Comment),
    {
        match self {
            Node::Comment(_) => true,
            _ => false,
        }
    }

    /// Whether the node is a text.
    pub fn is_text(&self) -> (r: bool)
        ensures
            r == (self is Text),
    {
        match self {
            Node::Text(_) => true,
            _ => false,
        }
    }

    /// Whether the node is an element.
    pub fn is_element(&self) -> (r: bool)
        ensures
            r == (self is Element),
    {
        match self {
            Node::Element(_) => true,
            _ => false,
        }
    }

    /// The node as a doctype.
    pub fn as_doctype(&self) -> (r: Option<&Doctype>)
        ensures
            match self {
                Node::Doctype(d) => r == Some(d),
                _ => r is None,
            },
    {
        match self {
            Node::Doctype(d) => Some(d),
            _ => None,
        }
    }

    /// The node as a comment.
    pub fn as_comment(&self) -> (r: Option<&Comment>)
        ensures
            match self {
                Node::Comment(c) => r == Some(c),
                _ => r is None,
            },
    {
        match self {
            Node::Comment(c) => Some(c),
            _ => None,
        }
    }

    /// The node as a text.
    pub fn as_text(&self) -> (r: Option<&Text>)
        ensures
            match self {
                Node::Text(t) => r == Some(t),
                _ => r is None,
            },
    {
        match self {
            Node::Text(t) => Some(t),
            _ => None,
        }
    }

    /// The text of a text node, to change it.
    pub fn as_mutable_text(&mut self) -> (r: Option<&mut Text>)
        ensures
            match *old(self) {
                Node::Text(t) => r matches Some(m) && *m == t && *final(self) == Node::Text(
                    *final(m),
                ),
                _ => r is None && *final(self) == *old(self),
            },
    {
        match self {
            Node::Text(t) => Some(t),
            _ => None,
        }
    }

    /// The node as an element.
    pub fn as_element(&self) -> (r: Option<&Element>)
        ensures
            match self {
                Node::Element(e) => r == Some(e),
                _ => r is None,
            },
    {
        match self {
            Node::Element(e) => Some(e),
            _ => None,
        }
    }

    /// The node as a processing instruction.
    pub fn as_processing_instruction(&self) -> (r: Option<&ProcessingInstruction>)
        ensures
            match self {
                Node::ProcessingInstruction(p) => r == Some(p),
                _ => r is None,
            },
    {
        match self {
            Node::ProcessingInstruction(p) => Some(p),
            _ => None,
        }
    }
}

/// Sorted entries have distinct keys.
proof fn lemma_sorted_distinct(s: Seq<(QualNameV, Seq<char>)>)
    requires
        sorted_by_key(s),
    ensures
        distinct_keys(s),
{
    assert forall|i: int, j: int| 0 <= i < s.len() && 0 <= j < s.len() && i != j implies (#[trigger] s[i]).0
        != (#[trigger] s[j]).0 by {
        lemma_qn_lt(s[i].0, s[j].0, s[j].0);
        if i < j {
            assert(qn_lt(s[i].0, s[j].0));
        } else {
            assert(qn_lt(s[j].0, s[i].0));
        }
    }
}

/// Sets the value of `name` among entries sorted by name, keeping them
/// sorted.
fn insert_attr(v: &mut Vec<(QualName, NodeString)>, name: QualName, value: NodeString)
    requires
        sorted_by_key(attrs_view(old(v)@)),
    ensures
        sorted_by_key(attrs_view(final(v)@)),
        pairs_map(attrs_view(final(v)@)) == pairs_map(attrs_view(old(v)@)).insert(name@, value@),
{
    let ghost s0 = attrs_view(v@);
    let ghost k = name@;
    let ghost val = value@;
    let mut i: usize = 0;
    let mut done = false;
    while !done && i < v.len()
        invariant
            0 <= i <= v.len(),
            v@ == old(v)@,
            s0 == attrs_view(v@),
            k == name@,
            forall|j: int| 0 <= j < i ==> qn_lt(#[trigger] s0[j].0, k),
            done ==> i < v.len() && !qn_lt(s0[i as int].0, k),
        decreases v.len() - i, if done { 0int } else { 1int },
    {
        if compare_qualname(&v[i].0, &name) < 0 {
            i = i + 1;
        } else {
            done = true;
        }
    }
    proof {
        lemma_sorted_distinct(s0);
        lemma_distinct_pairs_map(s0);
    }
    let same = done && compare_qualname(&v[i].0, &name) == 0;
    if same {
        v.set(i, (name, value));
        let ghost s1 = attrs_view(v@);
        assert(s1 =~= s0.update(i as int, (k, val)));
        assert(sorted_by_key(s1));
        proof {
            lemma_sorted_distinct(s1);
            lemma_distinct_pairs_map(s1);
        }
        assert(pairs_map(s1) =~= pairs_map(s0).insert(k, val)) by {
            assert forall|q: QualNameV| pairs_map(s1).dom().contains(q) == pairs_map(s0).insert(k, val).dom().contains(q) by {
                if pairs_map(s1).dom().contains(q) {
                    let j = choose|j: int| 0 <= j < s1.len() && (#[trigger] s1[j]).0 == q;
                    if j != i {
                        assert(s0[j] == s1[j]);
                    }
                }
                if pairs_map(s0).dom().contains(q) {
                    let j = choose|j: int| 0 <= j < s0.len() && (#[trigger] s0[j]).0 == q;
                    if j != i {
                        assert(s0[j] == s1[j]);
                    } else {
                        assert(s1[j].0 == q);
                    }
                }
                if q == k {
                    assert(s1[i as int].0 == q);
                }
            }
            assert forall|q: QualNameV| pairs_map(s1).dom().contains(q) implies pairs_map(s1)[q] == pairs_map(s0).insert(k, val)[q] by {
                let j = choose|j: int| 0 <= j < s1.len() && (#[trigger] s1[j]).0 == q;
                if j != i {
                    assert(s0[j] == s1[j]);
                }
            }
        }
    } else {
        v.insert(i, (name, value));
        let ghost s1 = attrs_view(v@);
        assert(s1 =~= s0.insert(i as int, (k, val)));
        proof {
            if i < s0.len() {
                lemma_qn_lt(s0[i as int].0, k, k);
                assert(qn_lt(k, s0[i as int].0));
            }
        }
        assert forall|a: int, b: int| 0 <= a < b < s1.len() implies qn_lt(#[trigger] s1[a].0, #[trigger] s1[b].0) by {
            if b < i {
                assert(s1[a] == s0[a] && s1[b] == s0[b]);
            } else if b == i {
                assert(s1[a] == s0[a]);
            } else if a == i {
                assert(s1[b] == s0[b - 1]);
                if b - 1 > i {
                    lemma_qn_lt(k, s0[i as int].0, s0[b - 1].0);
                }
            } else if a < i {
                assert(s1[a] == s0[a] && s1[b] == s0[b - 1]);
                lemma_qn_lt(s0[a].0, k, s0[b - 1].0);
                if b - 1 > i {
                    lemma_qn_lt(k, s0[i as int].0, s0[b - 1].0);
                }
            } else {
                assert(s1[a] == s0[a - 1] && s1[b] == s0[b - 1]);
            }
        }
        proof {
            lemma_sorted_distinct(s1);
            lemma_distinct_pairs_map(s1);
        }
        assert(pairs_map(s1) =~= pairs_map(s0).insert(k, val)) by {
            assert forall|q: QualNameV| pairs_map(s1).dom().contains(q) == pairs_map(s0).insert(k, val).dom().contains(q) by {
                if pairs_map(s1).dom().contains(q) {
                    let j = choose|j: int| 0 <= j < s1.len() && (#[trigger] s1[j]).0 == q;
                    if j < i {
                        assert(s0[j] == s1[j]);
                    } else if j > i {
                        assert(s0[j - 1] == s1[j]);
                    }
                }
                if pairs_map(s0).dom().contains(q) {
                    let j = choose|j: int| 0 <= j < s0.len() && (#[trigger] s0[j]).0 == q;
                    if j < i {
                        assert(s1[j] == s0[j]);
                    } else {
                        assert(s1[j + 1] == s0[j]);
                    }
                }
                if q == k {
                    assert(s1[i as int].0 == q);
                }
            }
            assert forall|q: QualNameV| pairs_map(s1).dom().contains(q) implies pairs_map(s1)[q] == pairs_map(s0).insert(k, val)[q] by {
                let j = choose|j: int| 0 <= j < s1.len() && (#[trigger] s1[j]).0 == q;
                if j < i {
                    assert(s0[j] == s1[j]);
                    assert(qn_lt(s1[j].0, s1[i as int].0));
                    lemma_qn_lt(q, k, k);
                } else if j > i {
                    assert(s0[j - 1] == s1[j]);
                    assert(qn_lt(s1[i as int].0, s1[j].0));
                    lemma_qn_lt(k, q, q);
                }
            }
        }
    }
}

/// Whether `c` is white space (Unicode `White_Space`, as
/// `char::is_whitespace` decides it).
pub open spec fn is_ws(c: char) -> bool {
    let n = c as int;
    ||| 9 <= n <= 13
    ||| n == 32
    ||| n == 0x85
    ||| n == 0xA0
    ||| n == 0x1680
    ||| 0x2000 <= n <= 0x200A
    ||| n == 0x2028
    ||| n == 0x2029
    ||| n == 0x202F
    ||| n == 0x205F
    ||| n == 0x3000
}

fn is_ws_exec(c: char) -> (r: bool)
    ensures
        r == is_ws(c),
{
    let n = c as u32;
    (9 <= n && n <= 13) || n == 32 || n == 0x85 || n == 0xA0 || n == 0x1680 || (0x2000 <= n && n
        <= 0x200A) || n == 0x2028 || n == 0x2029 || n == 0x202F || n == 0x205F || n == 0x3000
}

/// The words of `s` (what lies between white space, empty words left out),
/// `cur` having already been read into the word under way.
pub open spec fn words_from(s: Seq<char>, cur: Seq<char>) -> Seq<Seq<char>>
    decreases s.len(),
{
    if s.len() == 0 {
        if cur.len() > 0 {
            seq![cur]
        } else {
            Seq::empty()
        }
    } else if is_ws(s[0]) {
        (if cur.len() > 0 {
            seq![cur]
        } else {
            Seq::empty()
        }) + words_from(s.drop_first(), Seq::empty())
    } else {
        words_from(s.drop_first(), cur.push(s[0]))
    }
}

/// The words of `s`, as `str::split_whitespace` gives them.
pub open spec fn words(s: Seq<char>) -> Seq<Seq<char>> {
    words_from(s, Seq::empty())
}

/// The words of `s`.
pub fn split_whitespace(s: &str) -> (r: Vec<String>)
    ensures
        r.deep_view() == words(s@),
{
    let v = chars_of(s);
    let mut out: Vec<String> = Vec::new();
    let mut cur: Vec<char> = Vec::new();
    let mut i: usize = 0;
    assert(v@.skip(0) =~= v@);
    assert(out.deep_view() + words_from(v@.skip(0), cur@) =~= words(s@));
    while i < v.len()
        invariant
            0 <= i <= v.len(),
            v@ == s@,
            out.deep_view() + words_from(v@.skip(i as int), cur@) == words(s@),
        decreases v.len() - i,
    {
        let ghost rest = v@.skip(i as int);
        assert(rest.drop_first() =~= v@.skip(i + 1));
        assert(rest[0] == v@[i as int]);
        if is_ws_exec(v[i]) {
            if cur.len() > 0 {
                let w = string_from_chars(cur.as_slice());
                let ghost before = out.deep_view();
                let ghost wv = w@;
                out.push(w);
                assert(out.deep_view() =~= before.push(wv));
                assert(before + (seq![wv] + words_from(rest.drop_first(), Seq::empty())) =~= out.deep_view()
                    + words_from(rest.drop_first(), Seq::empty()));
            } else {
                assert(Seq::<Seq<char>>::empty() + words_from(rest.drop_first(), Seq::empty()) =~= words_from(rest.drop_first(), Seq::empty()));
            }
            cur = Vec::new();
            assert(cur@ =~= Seq::<char>::empty());
        } else {
            cur.push(v[i]);
        }
        i = i + 1;
    }
    assert(v@.skip(i as int) =~= Seq::<char>::empty());
    if cur.len() > 0 {
        let w = string_from_chars(cur.as_slice());
        let ghost before = out.deep_view();
        let ghost wv = w@;
        out.push(w);
        assert(out.deep_view() =~= before.push(wv));
        assert(before + seq![wv] =~= out.deep_view());
    } else {
        assert(out.deep_view() + Seq::<Seq<char>>::empty() =~= out.deep_view());
    }
    out
}

/// Adds `w` to texts sorted and each once, keeping them so.
fn insert_class(v: &mut Vec<NodeString>, w: &str)
    requires
        sorted_strs(ns_seq_view(old(v)@)),
    ensures
        sorted_strs(ns_seq_view(final(v)@)),
        ns_seq_view(final(v)@).to_set() == ns_seq_view(old(v)@).to_set().insert(w@),
{
    let ghost s0 = ns_seq_view(v@);
    let mut i: usize = 0;
    let mut done = false;
    while !done && i < v.len()
        invariant
            0 <= i <= v.len(),
            v@ == old(v)@,
            s0 == ns_seq_view(v@),
            forall|j: int| 0 <= j < i ==> seq_lt(#[trigger] s0[j], w@),
            done ==> i < v.len() && !seq_lt(s0[i as int], w@),
        decreases v.len() - i, if done { 0int } else { 1int },
    {
        if compare_str(v[i].as_str(), w) < 0 {
            i = i + 1;
        } else {
            done = true;
        }
    }
    if done && compare_str(v[i].as_str(), w) == 0 {
        assert(s0[i as int] == w@);
        assert(s0.to_set().insert(w@) =~= s0.to_set());
        return;
    }
    v.insert(i, NodeString::from(w));
    let ghost s1 = ns_seq_view(v@);
    assert(s1 =~= s0.insert(i as int, w@));
    proof {
        if i < s0.len() {
            lemma_seq_lt_total(s0[i as int], w@);
            assert(seq_lt(w@, s0[i as int]));
        }
    }
    assert forall|a: int, b: int| 0 <= a < b < s1.len() implies seq_lt(#[trigger] s1[a], #[trigger] s1[b]) by {
        if b < i {
            assert(s1[a] == s0[a] && s1[b] == s0[b]);
        } else if b == i {
            assert(s1[a] == s0[a]);
        } else if a == i {
            assert(s1[b] == s0[b - 1]);
            if b - 1 > i {
                lemma_seq_lt_trans(w@, s0[i as int], s0[b - 1]);
            }
        } else if a < i {
            assert(s1[a] == s0[a] && s1[b] == s0[b - 1]);
            if b - 1 > i {
                lemma_seq_lt_trans(w@, s0[i as int], s0[b - 1]);
            }
            lemma_seq_lt_trans(s0[a], w@, s0[b - 1]);
        } else {
            assert(s1[a] == s0[a - 1] && s1[b] == s0[b - 1]);
        }
    }
    assert(s1.to_set() =~= s0.to_set().insert(w@)) by {
        assert forall|x: Seq<char>| s1.to_set().contains(x) implies s0.to_set().insert(w@).contains(x) by {
            let j = choose|j: int| 0 <= j < s1.len() && s1[j] == x;
            if j < i {
                assert(s0[j] == x);
            } else if j > i {
                assert(s0[j - 1] == x);
            }
        }
        assert forall|x: Seq<char>| s0.to_set().insert(w@).contains(x) implies s1.to_set().contains(x) by {
            if x == w@ {
                assert(s1[i as int] == x);
            } else {
                let j = choose|j: int| 0 <= j < s0.len() && s0[j] == x;
                if j < i {
                    assert(s1[j] == x);
                } else {
                    assert(s1[j + 1] == x);
                }
            }
        }
    }
}

/// Whether an attribute is named `n` (by local name).
pub open spec fn local_pred(n: Seq<char>) -> spec_fn((QualNameV, Seq<char>)) -> bool {
    |a: (QualNameV, Seq<char>)| a.0.local == n
}

/// The classes the attributes `attrs` give: the words of the first `class`
/// attribute.
pub open spec fn classes_of(attrs: Seq<(QualNameV, Seq<char>)>) -> Set<Seq<char>> {
    match crate::publication::first_index(attrs, local_pred("class"@)) {
        Some(i) => words(attrs[i].1).to_set(),
        None => Set::empty(),
    }
}

/// The id the attributes `attrs` give: the value of the first `id`
/// attribute.
pub open spec fn id_of(attrs: Seq<(QualNameV, Seq<char>)>) -> Option<Seq<char>> {
    match crate::publication::first_index(attrs, local_pred("id"@)) {
        Some(i) => Some(attrs[i].1),
        None => None,
    }
}

/// The qualified name with no prefix and no namespace.
pub open spec fn plain_name(local: Seq<char>) -> QualNameV {
    QualNameV { prefix: None, ns: Seq::empty(), local }
}

/// How texts compare, by bytes.
#[derive(Clone, Copy, Debug, PartialEq, Eq, Structural)]
pub enum CaseSensitivity {
    CaseSensitive,
    AsciiCaseInsensitive,
}

/// A byte with ASCII upper case letters lowered.
pub open spec fn ascii_lower(b: u8) -> u8 {
    if 65 <= b <= 90 {
        (b + 32) as u8
    } else {
        b
    }
}

/// Whether two byte strings are equal but for ASCII case.
pub open spec fn eq_ignore_ascii_case(a: Seq<u8>, b: Seq<u8>) -> bool {
    a.len() == b.len() && forall|i: int| 0 <= i < a.len() ==> ascii_lower(#[trigger] a[i]) == ascii_lower(b[i])
}

/// Whether `n` occurs in `h` but for ASCII case.
pub open spec fn contains_ignore_ascii_case(h: Seq<u8>, n: Seq<u8>) -> bool {
    exists|i: int| 0 <= i && i + n.len() <= h.len() && #[trigger] eq_ignore_ascii_case(h.subrange(i, i + n.len()), n)
}

fn lower(b: u8) -> (r: u8)
    ensures
        r == ascii_lower(b),
{
    if 65 <= b && b <= 90 {
        b + 32
    } else {
        b
    }
}

fn bytes_eq_ignore_case(a: &[u8], b: &[u8]) -> (r: bool)
    ensures
        r == eq_ignore_ascii_case(a@, b@),
{
    if a.len() != b.len() {
        return false;
    }
    let mut i: usize = 0;
    while i < a.len()
        invariant
            0 <= i <= a.len(),
            a.len() == b.len(),
            forall|j: int| 0 <= j < i ==> ascii_lower(#[trigger] a@[j]) == ascii_lower(b@[j]),
        decreases a.len() - i,
    {
        if lower(a[i]) != lower(b[i]) {
            return false;
        }
        i = i + 1;
    }
    true
}

impl CaseSensitivity {
    /// Whether the byte strings are equal under this sensitivity.
    pub fn eq(self, a: &[u8], b: &[u8]) -> (r: bool)
        ensures
            r == match self {
                CaseSensitivity::CaseSensitive => a@ == b@,
                CaseSensitivity::AsciiCaseInsensitive => eq_ignore_ascii_case(a@, b@),
            },
    {
        match self {
            CaseSensitivity::CaseSensitive => bytes_eq(a, b),
            CaseSensitivity::AsciiCaseInsensitive => bytes_eq_ignore_case(a, b),
        }
    }

    /// Whether `needle` occurs in `haystack` under this sensitivity.
    pub fn contains(self, haystack: &str, needle: &str) -> (r: bool)
        ensures
            r == match self {
                CaseSensitivity::CaseSensitive => contains_seq(haystack@, needle@),
                CaseSensitivity::AsciiCaseInsensitive => contains_ignore_ascii_case(
                    encode_utf8(haystack@),
                    encode_utf8(needle@),
                ),
            },
    {
        match self {
            CaseSensitivity::CaseSensitive => {
                let r = str_contains(haystack, needle);
                assert(r == contains_seq(haystack@, needle@));
                r
            },
            CaseSensitivity::AsciiCaseInsensitive => {
                let h = haystack.as_bytes();
                let n = needle.as_bytes();
                if n.len() == 0 {
                    assert(eq_ignore_ascii_case(h@.subrange(0int, 0int + n@.len()), n@));
                    return true;
                }
                if n.len() > h.len() {
                    assert forall|i: int| !(0 <= i && i + n@.len() <= h@.len() && #[trigger] eq_ignore_ascii_case(h@.subrange(i, i + n@.len()), n@)) by {}
                    return false;
                }
                let mut i: usize = 0;
                while i <= h.len() - n.len()
                    invariant
                        n.len() <= h.len(),
                        h@ == encode_utf8(haystack@),
                        n@ == encode_utf8(needle@),
                        self is AsciiCaseInsensitive,
                        0 <= i <= h.len() - n.len() + 1,
                        forall|k: int| 0 <= k < i ==> !(#[trigger] eq_ignore_ascii_case(h@.subrange(k, k + n@.len()), n@)),
                    decreases h.len() + 1 - i,
                {
                    let sub = vstd::slice::slice_subrange(h, i, i + n.len());
                    if bytes_eq_ignore_case(sub, n) {
                        assert(sub@ =~= h@.subrange(i as int, i + n@.len()));
                        assert(eq_ignore_ascii_case(h@.subrange(i as int, i + n@.len()), n@));
                        return true;
                    }
                    assert(sub@ =~= h@.subrange(i as int, i + n@.len()));
                    i = i + 1;
                }
                assert forall|k: int| !(0 <= k && k + n@.len() <= h@.len() && #[trigger] eq_ignore_ascii_case(h@.subrange(k, k + n@.len()), n@)) by {
                    if 0 <= k && k + n@.len() <= h@.len() {
                        assert(k < i);
                    }
                }
                false
            },
        }
    }
}

/// Whether two byte strings are equal under the sensitivity `cs`.
pub open spec fn cs_eq(cs: CaseSensitivity, a: Seq<u8>, b: Seq<u8>) -> bool {
    match cs {
        CaseSensitivity::CaseSensitive => a == b,
        CaseSensitivity::AsciiCaseInsensitive => eq_ignore_ascii_case(a, b),
    }
}

/// The classes of an element, one after the other.
pub struct Classes<'a> {
    pub inner: &'a Vec<NodeString>,
    pub pos: usize,
}

impl<'a> Classes<'a> {
    /// The next class, if any.
    pub fn next(&mut self) -> (r: Option<&'a str>)
        ensures
            final(self).inner == old(self).inner,
            old(self).pos < old(self).inner.len() ==> (r matches Some(c) && c@ == old(
                self,
            ).inner@[old(self).pos as int]@ && final(self).pos == old(self).pos + 1),
            old(self).pos >= old(self).inner.len() ==> r is None && final(self).pos == old(self).pos,
    {
        if self.pos < self.inner.len() {
            let c = self.inner[self.pos].as_str();
            self.pos = self.pos + 1;
            Some(c)
        } else {
            None
        }
    }
}

/// The attributes of an element, one after the other: (local name, value).
pub struct Attrs<'a> {
    pub inner: &'a Vec<(QualName, NodeString)>,
    pub pos: usize,
}

impl<'a> Attrs<'a> {
    /// The next attribute, if any.
    pub fn next(&mut self) -> (r: Option<(&'a str, &'a str)>)
        ensures
            final(self).inner == old(self).inner,
            old(self).pos < old(self).inner.len() ==> (r matches Some(p) && p.0@ == old(
                self,
            ).inner@[old(self).pos as int].0.local@ && p.1@ == old(self).inner@[old(
                self,
            ).pos as int].1@ && final(self).pos == old(self).pos + 1),
            old(self).pos >= old(self).inner.len() ==> r is None && final(self).pos == old(self).pos,
    {
        if self.pos < self.inner.len() {
            let k = self.inner[self.pos].0.local.as_str();
            let v = self.inner[self.pos].1.as_str();
            self.pos = self.pos + 1;
            Some((k, v))
        } else {
            None
        }
    }
}

impl Element {
    /// The element of name `name` with the attributes `attrs`: its id is
    /// the first `id` attribute, its classes the words of the first `class`
    /// attribute, and a later attribute of a name replaces an earlier one.
    pub fn new(name: QualName, attrs: Vec<Attribute>) -> (r: Element)
        ensures
            r.wf(),
            r@.name == name@,
            r@.id == id_of(attributes_view(attrs@)),
            r@.classes.to_set() == classes_of(attributes_view(attrs@)),
            pairs_map(r@.attrs) == pairs_map(attributes_view(attrs@)),
    {
        let ghost av = attributes_view(attrs@);
        let mut id: Option<NodeString> = None;
        let mut i: usize = 0;
        let ghost pid = local_pred("id"@);
        while id.is_none() && i < attrs.len()
            invariant
                0 <= i <= attrs.len(),
                av == attributes_view(attrs@),
                pid == local_pred("id"@),
                forall|j: int| 0 <= j < i ==> !pid(#[trigger] av[j]),
                id matches Some(x) ==> i < attrs.len() && pid(av[i as int]) && x@ == av[i as int].1,
            decreases attrs.len() - i, if id is Some { 0int } else { 1int },
        {
            if str_eq(attrs[i].name.local.as_str(), "id") {
                id = Some(attrs[i].value.copy());
            } else {
                i = i + 1;
            }
        }
        proof {
            crate::publication::lemma_first_index(av, pid, i as int);
        }
        let mut classes: Vec<NodeString> = Vec::new();
        let ghost pc = local_pred("class"@);
        let mut i: usize = 0;
        let mut found: Option<usize> = None;
        while found.is_none() && i < attrs.len()
            invariant
                0 <= i <= attrs.len(),
                av == attributes_view(attrs@),
                pc == local_pred("class"@),
                forall|j: int| 0 <= j < i ==> !pc(#[trigger] av[j]),
                found matches Some(k) ==> k == i && i < attrs.len() && pc(av[i as int]),
            decreases attrs.len() - i, if found is Some { 0int } else { 1int },
        {
            if str_eq(attrs[i].name.local.as_str(), "class") {
                found = Some(i);
            } else {
                i = i + 1;
            }
        }
        proof {
            crate::publication::lemma_first_index(av, pc, i as int);
        }
        assert(ns_seq_view(classes@).to_set() =~= Set::<Seq<char>>::empty());
        if let Some(k) = found {
            let ws = split_whitespace(attrs[k].value.as_str());
            let ghost wv = ws.deep_view();
            let mut j: usize = 0;
            assert(wv.take(0).to_set() =~= Set::<Seq<char>>::empty());
            while j < ws.len()
                invariant
                    0 <= j <= ws.len(),
                    wv == ws.deep_view(),
                    sorted_strs(ns_seq_view(classes@)),
                    ns_seq_view(classes@).to_set() == wv.take(j as int).to_set(),
                decreases ws.len() - j,
            {
                insert_class(&mut classes, ws[j].as_str());
                assert(wv.take(j + 1) =~= wv.take(j as int).push(wv[j as int]));
                proof {
                    wv.take(j as int).lemma_push_to_set_commute(wv[j as int]);
                }
                j = j + 1;
            }
            assert(wv.take(ws.len() as int) =~= wv);
        }
        let mut entries: Vec<(QualName, NodeString)> = Vec::new();
        let mut i: usize = 0;
        assert(av.take(0) =~= Seq::<(QualNameV, Seq<char>)>::empty());
        assert(attrs_view(entries@) =~= Seq::<(QualNameV, Seq<char>)>::empty());
        while i < attrs.len()
            invariant
                0 <= i <= attrs.len(),
                av == attributes_view(attrs@),
                sorted_by_key(attrs_view(entries@)),
                pairs_map(attrs_view(entries@)) == pairs_map(av.take(i as int)),
            decreases attrs.len() - i,
        {
            let n = attrs[i].name.copy();
            let v = attrs[i].value.copy();
            insert_attr(&mut entries, n, v);
            assert(av.take(i + 1).drop_last() =~= av.take(i as int));
            assert(av.take(i + 1).last() == av[i as int]);
            i = i + 1;
        }
        assert(av.take(attrs.len() as int) =~= av);
        Element { name, id, classes, attrs: entries }
    }

    /// The local name of the element.
    pub fn name(&self) -> (r: &str)
        ensures
            r@ == self@.name.local,
    {
        self.name.local.as_str()
    }

    /// The id of the element.
    pub fn id(&self) -> (r: Option<&str>)
        ensures
            crate::epub::opf::opt_str_view(r) == self@.id,
    {
        match &self.id {
            Some(s) => Some(s.as_str()),
            None => None,
        }
    }

    /// Whether the element has the class, compared by bytes under `cs`.
    pub fn has_class(&self, class: &str, case_sensitive: CaseSensitivity) -> (r: bool)
        ensures
            r == exists|i: int|
                0 <= i < self@.classes.len() && cs_eq(
                    case_sensitive,
                    encode_utf8(#[trigger] self@.classes[i]),
                    encode_utf8(class@),
                ),
    {
        let mut i: usize = 0;
        while i < self.classes.len()
            invariant
                0 <= i <= self.classes.len(),
                forall|j: int| 0 <= j < i ==> !cs_eq(case_sensitive, encode_utf8(#[trigger] self@.classes[j]), encode_utf8(class@)),
            decreases self.classes.len() - i,
        {
            if case_sensitive.eq(self.classes[i].as_str().as_bytes(), class.as_bytes()) {
                assert(cs_eq(case_sensitive, encode_utf8(self@.classes[i as int]), encode_utf8(class@)));
                return true;
            }
            i = i + 1;
        }
        false
    }

    /// The classes of the element, in order.
    pub fn classes(&self) -> (r: Classes<'_>)
        ensures
            ns_seq_view(r.inner@) == self@.classes,
            r.pos == 0,
            sorted_strs(ns_seq_view(r.inner@)),
    {
        proof {
            use_type_invariant(self);
        }
        Classes { inner: &self.classes, pos: 0 }
    }

    /// The value of the attribute of local name `attr`, with no prefix and no
    /// namespace.
    pub fn attr(&self, attr: &str) -> (r: Option<&str>)
        ensures
            match r {
                Some(v) => pairs_map(self@.attrs).dom().contains(plain_name(attr@)) && v@ == pairs_map(
                    self@.attrs,
                )[plain_name(attr@)],
                None => !pairs_map(self@.attrs).dom().contains(plain_name(attr@)),
            },
    {
        proof {
            use_type_invariant(self);
            reveal_strlit("");
            lemma_sorted_distinct(self@.attrs);
            lemma_distinct_pairs_map(self@.attrs);
        }
        let q = QualName::new(None, NodeString::from(""), NodeString::from(attr));
        assert(""@ =~= Seq::<char>::empty());
        assert(q@ == plain_name(attr@));
        let ghost s = attrs_view(self.attrs@);
        let mut i: usize = 0;
        while i < self.attrs.len()
            invariant
                0 <= i <= self.attrs.len(),
                s == attrs_view(self.attrs@),
                q@ == plain_name(attr@),
                self.wf(),
                forall|j: int| 0 <= j < i ==> (#[trigger] s[j]).0 != q@,
            decreases self.attrs.len() - i,
        {
            if compare_qualname(&self.attrs[i].0, &q) == 0 {
                proof {
                    lemma_sorted_distinct(self@.attrs);
                    lemma_distinct_pairs_map(self@.attrs);
                }
                assert(s[i as int].0 == q@);
                return Some(self.attrs[i].1.as_str());
            }
            i = i + 1;
        }
        proof {
            if pairs_map(s).dom().contains(q@) {
                let j = choose|j: int| 0 <= j < s.len() && (#[trigger] s[j]).0 == q@;
                assert(false);
            }
        }
        None
    }

    /// The attributes of the element, in order.
    pub fn attrs(&self) -> (r: Attrs<'_>)
        ensures
            attrs_view(r.inner@) == self@.attrs,
            r.pos == 0,
            sorted_by_key(attrs_view(r.inner@)),
    {
        proof {
            use_type_invariant(self);
        }
        Attrs { inner: &self.attrs, pos: 0 }
    }
}

/// How a node is written out: its start (before its children) and its end
/// (after them).
pub trait PartialDisplay {
    spec fn start_text(&self) -> Seq<char>;

    spec fn end_text(&self) -> Seq<char>;

    fn start_fmt(&self) -> (r: String)
        ensures
            r@ == self.start_text(),
    ;

    fn end_fmt(&self) -> (r: String)
        ensures
            r@ == self.end_text(),
    ;
}

/// The attributes written out: ` name=value` for each, in order.
pub open spec fn attrs_text(attrs: Seq<(QualNameV, Seq<char>)>) -> Seq<char>
    decreases attrs.len(),
{
    if attrs.len() == 0 {
        Seq::empty()
    } else {
        attrs_text(attrs.drop_last()) + " "@ + attrs.last().0.local + "="@ + attrs.last().1
    }
}

impl PartialDisplay for Doctype {
    open spec fn start_text(&self) -> Seq<char> {
        "<!DOCTYPE "@ + self.name@ + " PUBLIC "@ + self.public_id@ + " "@ + self.system_id@ + ">"@
    }

    open spec fn end_text(&self) -> Seq<char> {
        Seq::empty()
    }

    fn start_fmt(&self) -> (r: String) {
        let a = concat_str("<!DOCTYPE ", self.name());
        let b = concat_str(a.as_str(), " PUBLIC ");
        let c = concat_str(b.as_str(), self.public_id());
        let d = concat_str(c.as_str(), " ");
        let e = concat_str(d.as_str(), self.system_id());
        concat_str(e.as_str(), ">")
    }

    fn end_fmt(&self) -> (r: String) {
        String::new()
    }
}

impl PartialDisplay for Comment {
    open spec fn start_text(&self) -> Seq<char> {
        "<!-- "@ + self.comment@ + " -->"@
    }

    open spec fn end_text(&self) -> Seq<char> {
        Seq::empty()
    }

    fn start_fmt(&self) -> (r: String) {
        let a = concat_str("<!-- ", self.comment.as_str());
        concat_str(a.as_str(), " -->")
    }

    fn end_fmt(&self) -> (r: String) {
        String::new()
    }
}

impl PartialDisplay for Text {
    open spec fn start_text(&self) -> Seq<char> {
        self.text@
    }

    open spec fn end_text(&self) -> Seq<char> {
        Seq::empty()
    }

    fn start_fmt(&self) -> (r: String) {
        copy_str(self.text.as_str())
    }

    fn end_fmt(&self) -> (r: String) {
        String::new()
    }
}

impl PartialDisplay for ProcessingInstruction {
    open spec fn start_text(&self) -> Seq<char> {
        "NodeString { inner: "@ + str_debug(self.target@) + " }"@ + " "@ + self.data@
    }

    open spec fn end_text(&self) -> Seq<char> {
        Seq::empty()
    }

    fn start_fmt(&self) -> (r: String) {
        let d = debug_str(self.target.as_str());
        let a = concat_str("NodeString { inner: ", d.as_str());
        let b = concat_str(a.as_str(), " }");
        let c = concat_str(b.as_str(), " ");
        concat_str(c.as_str(), self.data.as_str())
    }

    fn end_fmt(&self) -> (r: String) {
        String::new()
    }
}

impl PartialDisplay for Element {
    open spec fn start_text(&self) -> Seq<char> {
        "<"@ + self@.name.local + attrs_text(self@.attrs) + ">"@
    }

    open spec fn end_text(&self) -> Seq<char> {
        "</"@ + self@.name.local + ">"@
    }

    fn start_fmt(&self) -> (r: String) {
        let mut out = concat_str("<", self.name());
        let ghost s = self@.attrs;
        let mut i: usize = 0;
        assert(s.take(0) =~= Seq::<(QualNameV, Seq<char>)>::empty());
        while i < self.attrs.len()
            invariant
                0 <= i <= self.attrs.len(),
                s == self@.attrs,
                out@ == "<"@ + self@.name.local + attrs_text(s.take(i as int)),
            decreases self.attrs.len() - i,
        {
            let a = concat_str(out.as_str(), " ");
            let b = concat_str(a.as_str(), self.attrs[i].0.local.as_str());
            let c = concat_str(b.as_str(), "=");
            out = concat_str(c.as_str(), self.attrs[i].1.as_str());
            assert(s.take(i + 1).drop_last() =~= s.take(i as int));
            assert(s.take(i + 1).last() == s[i as int]);
            assert(out@ =~= "<"@ + self@.name.local + attrs_text(s.take(i + 1)));
            i = i + 1;
        }
        assert(s.take(self.attrs.len() as int) =~= s);
        concat_str(out.as_str(), ">")
    }

    fn end_fmt(&self) -> (r: String) {
        let a = concat_str("</", self.name());
        concat_str(a.as_str(), ">")
    }
}

impl PartialDisplay for Node {
    open spec fn start_text(&self) -> Seq<char> {
        match self {
            Node::Document => Seq::empty(),
            Node::Fragment => Seq::empty(),
            Node::Doctype(d) => d.start_text(),
            Node::Comment(c) => c.start_text(),
            Node::Text(t) => t.start_text(),
            Node::Element(e) => e.start_text(),
            Node::ProcessingInstruction(p) => p.start_text(),
        }
    }

    open spec fn end_text(&self) -> Seq<char> {
        match self {
            Node::Element(e) => e.end_text(),
            _ => Seq::empty(),
        }
    }

    fn start_fmt(&self) -> (r: String) {
        match self {
            Node::Document => String::new(),
            Node::Fragment => String::new(),
            Node::Doctype(d) => d.start_fmt(),
            Node::Comment(c) => c.start_fmt(),
            Node::Text(t) => t.start_fmt(),
            Node::Element(e) => e.start_fmt(),
            Node::ProcessingInstruction(p) => p.start_fmt(),
        }
    }

    fn end_fmt(&self) -> (r: String) {
        match self {
            Node::Element(e) => e.end_fmt(),
            _ => String::new(),
        }
    }
}

/// The one-line text of a node text, as its derived `Debug` writes it.
pub open spec fn ns_debug(s: Seq<char>) -> Seq<char> {
    "NodeString { inner: "@ + str_debug(s) + " }"@
}

/// The attributes in the one-line text of an element: ` name="value"` for
/// each, in order.
pub open spec fn attrs_debug(attrs: Seq<(QualNameV, Seq<char>)>) -> Seq<char>
    decreases attrs.len(),
{
    if attrs.len() == 0 {
        Seq::empty()
    } else {
        attrs_debug(attrs.drop_last()) + " "@ + attrs.last().0.local + "="@ + str_debug(attrs.last().1)
    }
}

impl Doctype {
    /// The one-line text of the doctype.
    pub open spec fn debug_text(&self) -> Seq<char> {
        "<!DOCTYPE "@ + self.name@ + " PUBLIC "@ + str_debug(self.public_id@) + " "@ + str_debug(
            self.system_id@,
        ) + ">"@
    }

    /// The doctype in one line, its ids quoted.
    pub fn debug_fmt(&self) -> (r: String)
        ensures
            r@ == self.debug_text(),
    {
        let a = concat_str("<!DOCTYPE ", self.name());
        let b = concat_str(a.as_str(), " PUBLIC ");
        let c = concat_str(b.as_str(), debug_str(self.public_id()).as_str());
        let d = concat_str(c.as_str(), " ");
        let e = concat_str(d.as_str(), debug_str(self.system_id()).as_str());
        concat_str(e.as_str(), ">")
    }
}

impl Comment {
    /// The one-line text of the comment.
    pub open spec fn debug_text(&self) -> Seq<char> {
        "<!-- "@ + str_debug(self.comment@) + " -->"@
    }

    /// The comment in one line, its text quoted.
    pub fn debug_fmt(&self) -> (r: String)
        ensures
            r@ == self.debug_text(),
    {
        let a = concat_str("<!-- ", debug_str(self.comment.as_str()).as_str());
        concat_str(a.as_str(), " -->")
    }
}

impl Text {
    /// The one-line text of the text.
    pub open spec fn debug_text(&self) -> Seq<char> {
        str_debug(self.text@)
    }

    /// The text, quoted.
    pub fn debug_fmt(&self) -> (r: String)
        ensures
            r@ == self.debug_text(),
    {
        debug_str(self.text.as_str())
    }
}

impl ProcessingInstruction {
    /// The one-line text of the processing instruction.
    pub open spec fn debug_text(&self) -> Seq<char> {
        ns_debug(self.target@) + " "@ + ns_debug(self.data@)
    }

    /// The processing instruction in one line: its target and its data.
    pub fn debug_fmt(&self) -> (r: String)
        ensures
            r@ == self.debug_text(),
    {
        let t = concat_str("NodeString { inner: ", debug_str(self.target.as_str()).as_str());
        let t = concat_str(t.as_str(), " }");
        let d = concat_str("NodeString { inner: ", debug_str(self.data.as_str()).as_str());
        let d = concat_str(d.as_str(), " }");
        let a = concat_str(t.as_str(), " ");
        concat_str(a.as_str(), d.as_str())
    }
}

impl Element {
    /// The one-line text of the element: its start, the attribute values
    /// quoted.
    pub open spec fn debug_text(&self) -> Seq<char> {
        "<"@ + self@.name.local + attrs_debug(self@.attrs) + ">"@
    }

    /// The element's start in one line, the attribute values quoted.
    pub fn debug_fmt(&self) -> (r: String)
        ensures
            r@ == self.debug_text(),
    {
        let mut out = concat_str("<", self.name());
        let ghost s = self@.attrs;
        let mut i: usize = 0;
        assert(s.take(0) =~= Seq::<(QualNameV, Seq<char>)>::empty());
        while i < self.attrs.len()
            invariant
                0 <= i <= self.attrs.len(),
                s == self@.attrs,
                out@ == "<"@ + self@.name.local + attrs_debug(s.take(i as int)),
            decreases self.attrs.len() - i,
        {
            let a = concat_str(out.as_str(), " ");
            let b = concat_str(a.as_str(), self.attrs[i].0.local.as_str());
            let c = concat_str(b.as_str(), "=");
            out = concat_str(c.as_str(), debug_str(self.attrs[i].1.as_str()).as_str());
            assert(s.take(i + 1).drop_last() =~= s.take(i as int));
            assert(s.take(i + 1).last() == s[i as int]);
            assert(out@ =~= "<"@ + self@.name.local + attrs_debug(s.take(i + 1)));
            i = i + 1;
        }
        assert(s.take(self.attrs.len() as int) =~= s);
        concat_str(out.as_str(), ">")
    }
}

impl Node {
    /// The one-line text of the node: its kind and the one-line text of
    /// what it holds.
    pub open spec fn debug_text(&self) -> Seq<char> {
        match self {
            Node::Document => "Document"@,
            Node::Fragment => "Fragment"@,
            Node::Doctype(d) => "Doctype("@ + d.debug_text() + ")"@,
            Node::Comment(c) => "Comment("@ + c.debug_text() + ")"@,
            Node::Text(t) => "Text("@ + t.debug_text() + ")"@,
            Node::Element(e) => "Element("@ + e.debug_text() + ")"@,
            Node::ProcessingInstruction(p) => "ProcessingInstruction("@ + p.debug_text() + ")"@,
        }
    }

    /// The node in one line.
    pub fn debug_fmt(&self) -> (r: String)
        ensures
            r@ == self.debug_text(),
    {
        match self {
            Node::Document => copy_str("Document"),
            Node::Fragment => copy_str("Fragment"),
            Node::Doctype(d) => {
                let a = concat_str("Doctype(", d.debug_fmt().as_str());
                concat_str(a.as_str(), ")")
            },
            Node::Comment(c) => {
                let a = concat_str("Comment(", c.debug_fmt().as_str());
                concat_str(a.as_str(), ")")
            },
            Node::Text(t) => {
                let a = concat_str("Text(", t.debug_fmt().as_str());
                concat_str(a.as_str(), ")")
            },
            Node::Element(e) => {
                let a = concat_str("Element(", e.debug_fmt().as_str());
                concat_str(a.as_str(), ")")
            },
            Node::ProcessingInstruction(p) => {
                let a = concat_str("ProcessingInstruction(", p.debug_fmt().as_str());
                concat_str(a.as_str(), ")")
            },
        }
    }
}

} // verus!
