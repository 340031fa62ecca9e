//! Documents as trees of nodes held in an arena, and references to their
//! elements: walking a CFI path of child steps, and writing out the nodes of
//! a range in document order.
use vstd::prelude::*;
use crate::cfi::{Fragment, Step};
use crate::node::{cs_eq, CaseSensitivity, Node, PartialDisplay};
use vstd::utf8::encode_utf8;
use crate::publication::{first_index, keep, lemma_first_index, lemma_keep_members};
use crate::strings::{parse_usize, parse_usize_str, str_eq};

verus! {

/// A node of a document with its place in the tree.
pub struct NodeData {
    pub node: Node,
    pub parent: Option<usize>,
    pub children: Vec<usize>,
}

/// A document: its nodes, each a child of an earlier one or a root.
pub struct Document {
    pub nodes: Vec<NodeData>,
}

impl Document {
    /// The tree shape: children come after their parent, in increasing
    /// order, and name it as their parent; a node with a parent is among its
    /// children.
    pub open spec fn wf(&self) -> bool {
        &&& forall|i: int, k: int|
            0 <= i < self.nodes@.len() && 0 <= k < self.nodes@[i].children@.len() ==> {
                let c = #[trigger] self.nodes@[i].children@[k];
                &&& i < c < self.nodes@.len()
                &&& self.nodes@[c as int].parent == Some(i as usize)
            }
        &&& forall|i: int, k1: int, k2: int|
            0 <= i < self.nodes@.len() && 0 <= k1 < k2 < self.nodes@[i].children@.len() ==> #[trigger] self.nodes@[i].children@[k1]
                < #[trigger] self.nodes@[i].children@[k2]
        &&& forall|i: int|
            0 <= i < self.nodes@.len() ==> match (#[trigger] self.nodes@[i]).parent {
                Some(p) => p < i && self.nodes@[p as int].children@.contains(i as usize),
                None => true,
            }
    }

    /// The document with no node.
    pub fn new() -> (r: Self)
        ensures
            r.wf(),
            r.nodes@.len() == 0,
    {
        Document { nodes: Vec::new() }
    }

    /// Adds `node` as a root; its index.
    pub fn add_node(&mut self, node: Node) -> (r: usize)
        requires
            old(self).wf(),
            old(self).nodes@.len() < usize::MAX,
        ensures
            final(self).wf(),
            r == old(self).nodes@.len(),
            final(self).nodes@ == old(self).nodes@.push(
                NodeData { node, parent: None, children: final(self).nodes@[r as int].children },
            ),
            final(self).nodes@[r as int].children@.len() == 0,
    {
        let r = self.nodes.len();
        self.nodes.push(NodeData { node, parent: None, children: Vec::new() });
        r
    }

    /// Adds `node` as the last child of `parent`; its index.
    pub fn append_child(&mut self, parent: usize, node: Node) -> (r: usize)
        requires
            old(self).wf(),
            parent < old(self).nodes@.len(),
            old(self).nodes@.len() < usize::MAX,
        ensures
            final(self).wf(),
            r == old(self).nodes@.len(),
            final(self).nodes@.len() == r + 1,
            final(self).nodes@[r as int].node == node,
            final(self).nodes@[r as int].parent == Some(parent),
            final(self).nodes@[r as int].children@.len() == 0,
            final(self).nodes@[parent as int].children@ == old(self).nodes@[parent as int].children@.push(r),
            final(self).nodes@[parent as int].node == old(self).nodes@[parent as int].node,
            final(self).nodes@[parent as int].parent == old(self).nodes@[parent as int].parent,
            forall|i: int| 0 <= i < r && i != parent ==> final(self).nodes@[i] == old(self).nodes@[i],
    {
        let r = self.nodes.len();
        let ghost old_nodes = self.nodes@;
        self.nodes.push(NodeData { node, parent: Some(parent), children: Vec::new() });
        let mut pd = self.nodes.remove(parent);
        pd.children.push(r);
        self.nodes.insert(parent, pd);
        assert(self.nodes@ =~= old_nodes.push(NodeData { node, parent: Some(parent), children: self.nodes@[r as int].children }).update(parent as int, self.nodes@[parent as int]));
        assert forall|i: int, k: int|
            0 <= i < self.nodes@.len() && 0 <= k < self.nodes@[i].children@.len() implies {
                let c = #[trigger] self.nodes@[i].children@[k];
                &&& i < c < self.nodes@.len()
                &&& self.nodes@[c as int].parent == Some(i as usize)
            } by {
            if i == parent && k == self.nodes@[i].children@.len() - 1 {
            } else if i == parent {
                assert(self.nodes@[i].children@[k] == old_nodes[i].children@[k]);
            } else {
                assert(self.nodes@[i] == old_nodes[i]);
            }
        }
        assert forall|i: int, k1: int, k2: int|
            0 <= i < self.nodes@.len() && 0 <= k1 < k2 < self.nodes@[i].children@.len() implies #[trigger] self.nodes@[i].children@[k1]
                < #[trigger] self.nodes@[i].children@[k2] by {
            if i == parent {
                if k2 == self.nodes@[i].children@.len() - 1 {
                    assert(self.nodes@[i].children@[k1] == old_nodes[i].children@[k1]);
                } else {
                    assert(self.nodes@[i].children@[k1] == old_nodes[i].children@[k1]);
                    assert(self.nodes@[i].children@[k2] == old_nodes[i].children@[k2]);
                }
            } else if i < r {
                assert(self.nodes@[i] == old_nodes[i]);
            }
        }
        assert forall|i: int|
            0 <= i < self.nodes@.len() implies match (#[trigger] self.nodes@[i]).parent {
                Some(p) => p < i && self.nodes@[p as int].children@.contains(i as usize),
                None => true,
            } by {
            if i == r {
                assert(self.nodes@[parent as int].children@.last() == r);
            } else if i != parent {
                assert(self.nodes@[i] == old_nodes[i]);
                if let Some(p) = old_nodes[i].parent {
                    if p == parent {
                        let k = choose|k: int| 0 <= k < old_nodes[p as int].children@.len() && old_nodes[p as int].children@[k] == i as usize;
                        assert(self.nodes@[p as int].children@[k] == i as usize);
                    }
                }
            } else {
                if let Some(p) = old_nodes[i].parent {
                    assert(p != parent);
                    assert(self.nodes@[p as int] == old_nodes[p as int]);
                }
            }
        }
        r
    }
}

/// The children of node `n`.
pub open spec fn children_of(doc: Document, n: int) -> Seq<usize> {
    doc.nodes@[n].children@
}

/// Whether a node is an element.
pub open spec fn element_pred(doc: Document) -> spec_fn(usize) -> bool {
    |c: usize| doc.nodes@[c as int].node is Element
}

/// Whether a node is a text.
pub open spec fn text_pred(doc: Document) -> spec_fn(usize) -> bool {
    |c: usize| doc.nodes@[c as int].node is Text
}

/// The child a CFI step `k` picks below node `cur`: for an even `k`, the
/// element child of index `k / 2 - 1`; for an odd `k`, the text child of
/// index `k / 2`.
pub open spec fn pick(doc: Document, cur: int, k: nat) -> Option<usize> {
    let kids = children_of(doc, cur);
    if k % 2 == 0 {
        let es = keep(kids, element_pred(doc));
        let idx = k as int / 2 - 1;
        if 0 <= idx < es.len() {
            Some(es[idx])
        } else {
            None
        }
    } else {
        let ts = keep(kids, text_pred(doc));
        let idx = k as int / 2;
        if idx < ts.len() {
            Some(ts[idx])
        } else {
            None
        }
    }
}

/// The node the CFI steps `ks` lead to from `cur`.
pub open spec fn cfi_walk(doc: Document, cur: int, ks: Seq<usize>) -> Option<usize>
    decreases ks.len(),
{
    if ks.len() == 0 {
        Some(cur as usize)
    } else {
        match pick(doc, cur, ks[0] as nat) {
            Some(c) => cfi_walk(doc, c as int, ks.drop_first()),
            None => None,
        }
    }
}

/// A CFI step lands on a child of the node it starts from: an element for
/// an even step, a text for an odd one.
pub proof fn lemma_pick_is_child(doc: Document, cur: int, k: nat)
    requires
        doc.wf(),
        0 <= cur < doc.nodes@.len(),
    ensures
        pick(doc, cur, k) matches Some(c) ==> {
            &&& cur < c < doc.nodes@.len()
            &&& doc.nodes@[c as int].parent == Some(cur as usize)
            &&& (k % 2 == 0 ==> doc.nodes@[c as int].node is Element)
            &&& (k % 2 == 1 ==> doc.nodes@[c as int].node is Text)
        },
{
    let kids = children_of(doc, cur);
    lemma_keep_members(kids, element_pred(doc));
    lemma_keep_members(kids, text_pred(doc));
    if let Some(c) = pick(doc, cur, k) {
        let es = keep(kids, element_pred(doc));
        let ts = keep(kids, text_pred(doc));
        if k % 2 == 0 {
            assert(es[k as int / 2 - 1] == c);
            assert(kids.contains(c));
        } else {
            assert(ts[k as int / 2] == c);
            assert(kids.contains(c));
        }
        let w = choose|w: int| 0 <= w < kids.len() && kids[w] == c;
        assert(doc.nodes@[cur].children@[w] == c);
    }
}

/// Walking the steps `a` and then the steps `b` is walking `a + b`.
pub proof fn lemma_cfi_walk_concat(doc: Document, cur: int, a: Seq<usize>, b: Seq<usize>)
    requires
        0 <= cur <= usize::MAX,
    ensures
        cfi_walk(doc, cur, a + b) == match cfi_walk(doc, cur, a) {
            Some(m) => cfi_walk(doc, m as int, b),
            None => None,
        },
    decreases a.len(),
{
    if a.len() == 0 {
        assert(a + b =~= b);
    } else {
        assert((a + b)[0] == a[0]);
        assert((a + b).drop_first() =~= a.drop_first() + b);
        if let Some(c) = pick(doc, cur, a[0] as nat) {
            lemma_cfi_walk_concat(doc, c as int, a.drop_first(), b);
        }
    }
}

/// Whether walking the CFI steps `ks` from `cur` meets the step 0 (whose
/// index `0 / 2 - 1` does not exist).
pub open spec fn cfi_walk_meets_zero(doc: Document, cur: int, ks: Seq<usize>) -> bool
    decreases ks.len(),
{
    if ks.len() == 0 {
        false
    } else if ks[0] == 0 {
        true
    } else {
        match pick(doc, cur, ks[0] as nat) {
            Some(c) => cfi_walk_meets_zero(doc, c as int, ks.drop_first()),
            None => false,
        }
    }
}

/// The node that the steps `ss` (their indexes as written) lead to from
/// `cur`, `res` being the node reached so far; none where an index does not
/// read as a number or picks no child, and none for no step at all.
pub open spec fn steps_walk(doc: Document, cur: int, res: Option<usize>, ss: Seq<Step>) -> Option<
    usize,
>
    decreases ss.len(),
{
    if ss.len() == 0 {
        res
    } else {
        match parse_usize(ss[0].integer@) {
            None => None,
            Some(k) => match pick(doc, cur, k) {
                Some(c) => steps_walk(doc, c as int, Some(c), ss.drop_first()),
                None => None,
            },
        }
    }
}

/// Whether walking the steps `ss` from `cur` meets a step of index 0.
pub open spec fn steps_meet_zero(doc: Document, cur: int, ss: Seq<Step>) -> bool
    decreases ss.len(),
{
    if ss.len() == 0 {
        false
    } else {
        match parse_usize(ss[0].integer@) {
            None => false,
            Some(k) => if k == 0 {
                true
            } else {
                match pick(doc, cur, k) {
                    Some(c) => steps_meet_zero(doc, c as int, ss.drop_first()),
                    None => false,
                }
            },
        }
    }
}

/// The child that the step `k` picks below `cur` (see `pick`).
fn pick_child(doc: &Document, cur: usize, k: usize) -> (r: Option<usize>)
    requires
        doc.wf(),
        cur < doc.nodes@.len(),
        k != 0,
    ensures
        r == pick(*doc, cur as int, k as nat),
        r matches Some(c) ==> cur < c < doc.nodes@.len(),
{
    let even = k % 2 == 0;
    let index: usize = if even {
        k / 2 - 1
    } else {
        k / 2
    };
    let kids = &doc.nodes[cur].children;
    let ghost p = if even {
        element_pred(*doc)
    } else {
        text_pred(*doc)
    };
    let mut count: usize = 0;
    let mut i: usize = 0;
    assert(kids@.take(0) =~= Seq::<usize>::empty());
    while i < kids.len()
        invariant
            0 <= i <= kids.len(),
            doc.wf(),
            cur < doc.nodes@.len(),
            kids@ == children_of(*doc, cur as int),
            p == (if even {
                element_pred(*doc)
            } else {
                text_pred(*doc)
            }),
            count == keep(kids@.take(i as int), p).len(),
            k != 0,
            even == (k % 2 == 0),
            index == (if even {
                k / 2 - 1
            } else {
                (k / 2) as int
            }),
            count <= index,
            count <= i,
        decreases kids.len() - i,
    {
        let c = kids[i];
        assert(kids@.take(i + 1).drop_last() =~= kids@.take(i as int));
        assert(kids@.take(i + 1).last() == c);
        assert(c < doc.nodes@.len() && cur < c) by {
            assert(doc.nodes@[cur as int].children@[i as int] == c);
        }
        let m = if even {
            doc.nodes[c].node.is_element()
        } else {
            doc.nodes[c].node.is_text()
        };
        assert(m == p(c));
        if m {
            if count == index {
                proof {
                    lemma_keep_prefix_index(kids@, p, i as int);
                }
                return Some(c);
            }
            count = count + 1;
        }
        i = i + 1;
    }
    assert(kids@.take(kids.len() as int) =~= kids@);
    None
}

/// The element of index `count` among those `keep` selects is the one at
/// `i`, once the prefix before it holds `count` of them.
proof fn lemma_keep_prefix_index(s: Seq<usize>, p: spec_fn(usize) -> bool, i: int)
    requires
        0 <= i < s.len(),
        p(s[i]),
    ensures
        keep(s, p).len() > keep(s.take(i), p).len(),
        keep(s, p)[keep(s.take(i), p).len() as int] == s[i],
    decreases s.len(),
{
    if i == s.len() - 1 {
        assert(s.drop_last() =~= s.take(i));
    } else {
        lemma_keep_prefix_index(s.drop_last(), p, i);
        assert(s.drop_last().take(i) =~= s.take(i));
    }
}

/// An edge of the walk over a tree: the start or the end of a node.
#[derive(Clone, Copy, Debug, PartialEq, Eq, Structural)]
pub enum NodeEdge {
    Start(usize),
    End(usize),
}

/// The node of an edge.
pub open spec fn edge_node(e: NodeEdge) -> usize {
    match e {
        NodeEdge::Start(n) => n,
        NodeEdge::End(n) => n,
    }
}

/// The first child of `n`.
pub open spec fn first_child(doc: Document, n: int) -> Option<usize> {
    if children_of(doc, n).len() > 0 {
        Some(children_of(doc, n)[0])
    } else {
        None
    }
}

/// What follows `n` in `s`.
pub open spec fn sibling_after(s: Seq<usize>, n: usize) -> Option<usize>
    decreases s.len(),
{
    if s.len() < 2 {
        None
    } else if s[0] == n {
        Some(s[1])
    } else {
        sibling_after(s.drop_first(), n)
    }
}

/// The next sibling of `n`.
pub open spec fn next_sibling(doc: Document, n: int) -> Option<usize> {
    match doc.nodes@[n].parent {
        Some(p) => sibling_after(children_of(doc, p as int), n as usize),
        None => None,
    }
}

/// The edge after `e` in a walk that stops at the end of `root` or of `to`:
/// into the first child, else to the end of the node; from an end, to the
/// next sibling, else to the end of the parent.
pub open spec fn next_edge(doc: Document, root: usize, to: usize, e: NodeEdge) -> Option<NodeEdge> {
    match e {
        NodeEdge::Start(n) => match first_child(doc, n as int) {
            Some(c) => Some(NodeEdge::Start(c)),
            None => Some(NodeEdge::End(n)),
        },
        NodeEdge::End(n) => if n == root || n == to {
            None
        } else {
            match next_sibling(doc, n as int) {
                Some(s) => Some(NodeEdge::Start(s)),
                None => match doc.nodes@[n as int].parent {
                    Some(p) => Some(NodeEdge::End(p)),
                    None => None,
                },
            }
        },
    }
}

/// The edges of the walk from `next`, at most `fuel` of them.
pub open spec fn walk(doc: Document, root: usize, to: usize, next: Option<NodeEdge>, fuel: nat) -> Seq<
    NodeEdge,
>
    decreases fuel,
{
    match next {
        None => Seq::empty(),
        Some(e) => if fuel == 0 {
            Seq::empty()
        } else {
            seq![e] + walk(doc, root, to, next_edge(doc, root, to, e), (fuel - 1) as nat)
        },
    }
}

/// The edges from the start of `from` to the end of `to` (or of `root`):
/// the walk, which in a tree visits each edge at most once, bounded by the
/// number of edges there are.
pub open spec fn range_edges(doc: Document, root: usize, from: usize, to: usize) -> Seq<NodeEdge> {
    walk(doc, root, to, Some(NodeEdge::Start(from)), (2 * doc.nodes@.len() + 2) as nat)
}

/// The edges written out: the start of a node at its start edge, its end at
/// its end edge.
pub open spec fn edges_text(doc: Document, es: Seq<NodeEdge>) -> Seq<char>
    decreases es.len(),
{
    if es.len() == 0 {
        Seq::empty()
    } else {
        edges_text(doc, es.drop_last()) + match es.last() {
            NodeEdge::Start(n) => doc.nodes@[n as int].node.start_text(),
            NodeEdge::End(n) => doc.nodes@[n as int].node.end_text(),
        }
    }
}

/// The nodes started by the edges, in order.
pub open spec fn started_nodes(doc: Document, es: Seq<NodeEdge>) -> Seq<Node>
    decreases es.len(),
{
    if es.len() == 0 {
        Seq::empty()
    } else {
        started_nodes(doc, es.drop_last()) + match es.last() {
            NodeEdge::Start(n) => seq![doc.nodes@[n as int].node],
            NodeEdge::End(n) => Seq::empty(),
        }
    }
}

/// The nodes that a sequence of references points to.
pub open spec fn node_derefs(s: Seq<&Node>) -> Seq<Node> {
    Seq::new(s.len(), |i: int| *s[i])
}

/// Whether `a` is the node `c` or one of its ancestors.
pub open spec fn is_ancestor(doc: Document, a: int, c: int) -> bool
    decreases c,
{
    if c == a {
        true
    } else if c < 0 || c >= doc.nodes@.len() {
        false
    } else {
        match doc.nodes@[c].parent {
            Some(p) => if (p as int) < c {
                is_ancestor(doc, a, p as int)
            } else {
                false
            },
            None => false,
        }
    }
}

/// A step of a walk below `root` stays below `root`.
proof fn lemma_next_edge_below(doc: Document, root: usize, to: usize, e: NodeEdge)
    requires
        doc.wf(),
        edge_node(e) < doc.nodes@.len(),
        is_ancestor(doc, root as int, edge_node(e) as int),
    ensures
        next_edge(doc, root, to, e) matches Some(f) ==> is_ancestor(doc, root as int, edge_node(f) as int),
{
    lemma_next_edge_valid(doc, root, to, e);
    let x = edge_node(e) as int;
    match e {
        NodeEdge::Start(_) => {
            if children_of(doc, x).len() > 0 {
                let c = children_of(doc, x)[0];
                assert(doc.nodes@[x].children@[0] == c);
                assert(doc.nodes@[c as int].parent == Some(x as usize));
                if c as int != root as int {
                    assert(is_ancestor(doc, root as int, c as int) == is_ancestor(doc, root as int, x));
                }
            }
        },
        NodeEdge::End(_) => {
            if x != root as int && x != to as int {
                if let Some(p) = doc.nodes@[x].parent {
                    assert(p < x);
                    assert(is_ancestor(doc, root as int, p as int));
                    lemma_sibling_after_in(children_of(doc, p as int), x as usize);
                    if let Some(sb) = sibling_after(children_of(doc, p as int), x as usize) {
                        let k = choose|k: int| 0 <= k < children_of(doc, p as int).len() && children_of(doc, p as int)[k] == sb;
                        assert(doc.nodes@[p as int].children@[k] == sb);
                        assert(doc.nodes@[sb as int].parent == Some(p));
                        if sb as int != root as int {
                            assert(is_ancestor(doc, root as int, sb as int) == is_ancestor(doc, root as int, p as int));
                        }
                    }
                }
            }
        },
    }
}

/// Every edge of a walk below `root` is of a node below `root`.
proof fn lemma_walk_below(doc: Document, root: usize, to: usize, next: Option<NodeEdge>, fuel: nat)
    requires
        doc.wf(),
        next matches Some(e) ==> edge_node(e) < doc.nodes@.len() && is_ancestor(doc, root as int, edge_node(e) as int),
    ensures
        forall|i: int| 0 <= i < walk(doc, root, to, next, fuel).len() ==> {
            let n = edge_node(#[trigger] walk(doc, root, to, next, fuel)[i]);
            n < doc.nodes@.len() && is_ancestor(doc, root as int, n as int)
        },
    decreases fuel,
{
    if let Some(e) = next {
        if fuel > 0 {
            lemma_next_edge_valid(doc, root, to, e);
            lemma_next_edge_below(doc, root, to, e);
            let rest = walk(doc, root, to, next_edge(doc, root, to, e), (fuel - 1) as nat);
            lemma_walk_below(doc, root, to, next_edge(doc, root, to, e), (fuel - 1) as nat);
            assert forall|i: int| 0 <= i < walk(doc, root, to, next, fuel).len() implies {
                let n = edge_node(#[trigger] walk(doc, root, to, next, fuel)[i]);
                n < doc.nodes@.len() && is_ancestor(doc, root as int, n as int)
            } by {
                if i > 0 {
                    assert(walk(doc, root, to, next, fuel)[i] == rest[i - 1]);
                }
            }
        }
    }
}

/// A walk below a node never leaves it: every node it meets, from a node
/// below `root`, is `root` or below it.
pub proof fn lemma_range_stays_below(doc: Document, root: usize, from: usize, to: usize)
    requires
        doc.wf(),
        from < doc.nodes@.len(),
        is_ancestor(doc, root as int, from as int),
    ensures
        forall|i: int| 0 <= i < range_edges(doc, root, from, to).len() ==> {
            let n = edge_node(#[trigger] range_edges(doc, root, from, to)[i]);
            n < doc.nodes@.len() && is_ancestor(doc, root as int, n as int)
        },
{
    lemma_walk_below(doc, root, to, Some(NodeEdge::Start(from)), (2 * doc.nodes@.len() + 2) as nat);
}

/// In a tree, the edge after a valid edge is valid.
proof fn lemma_next_edge_valid(doc: Document, root: usize, to: usize, e: NodeEdge)
    requires
        doc.wf(),
        edge_node(e) < doc.nodes@.len(),
    ensures
        next_edge(doc, root, to, e) matches Some(f) ==> edge_node(f) < doc.nodes@.len(),
{
    let n = edge_node(e) as int;
    if children_of(doc, n).len() > 0 {
        assert(doc.nodes@[n].children@[0] == children_of(doc, n)[0]);
    }
    if let Some(p) = doc.nodes@[n].parent {
        assert(doc.nodes@[n].parent == Some(p));
        lemma_sibling_after_in(children_of(doc, p as int), n as usize);
        if let Some(sb) = sibling_after(children_of(doc, p as int), n as usize) {
            let k = choose|k: int| 0 <= k < children_of(doc, p as int).len() && children_of(doc, p as int)[k] == sb;
            assert(doc.nodes@[p as int].children@[k] == sb);
        }
    }
}

/// What follows a node among siblings is one of them.
proof fn lemma_sibling_after_in(s: Seq<usize>, n: usize)
    ensures
        sibling_after(s, n) matches Some(x) ==> exists|k: int| 0 <= k < s.len() && s[k] == x,
    decreases s.len(),
{
    if s.len() >= 2 {
        if s[0] == n {
            assert(s[1] == s[1]);
        } else {
            lemma_sibling_after_in(s.drop_first(), n);
            if let Some(x) = sibling_after(s.drop_first(), n) {
                let k = choose|k: int| 0 <= k < s.drop_first().len() && s.drop_first()[k] == x;
                assert(s[k + 1] == x);
            }
        }
    }
}

/// The last element of `s` that is an element node.
pub open spec fn last_element(doc: Document, s: Seq<usize>) -> Option<usize>
    decreases s.len(),
{
    if s.len() == 0 {
        None
    } else if doc.nodes@[s.last() as int].node is Element {
        Some(s.last())
    } else {
        last_element(doc, s.drop_last())
    }
}

/// Whether a node is `n`.
pub open spec fn eq_pred(n: usize) -> spec_fn(usize) -> bool {
    |c: usize| c == n
}

/// The nearest earlier sibling of `n` that is an element.
pub open spec fn prev_element_sibling(doc: Document, n: usize) -> Option<usize> {
    match doc.nodes@[n as int].parent {
        Some(p) => match first_index(children_of(doc, p as int), eq_pred(n)) {
            Some(k) => last_element(doc, children_of(doc, p as int).take(k)),
            None => None,
        },
        None => None,
    }
}

/// Whether walking the fragment from the first child of node `id` meets a
/// step of index 0.
pub open spec fn fragment_meets_zero(doc: Document, id: Option<usize>, f: Fragment) -> bool {
    match id {
        None => false,
        Some(n) => match first_child(doc, n as int) {
            None => false,
            Some(c) => steps_meet_zero(doc, c as int, f.path.local_path.steps@) || match (
                steps_walk(doc, c as int, None, f.path.local_path.steps@),
                f.range,
            ) {
                (Some(r), Some(rg)) => steps_meet_zero(doc, r as int, rg.start.steps@)
                    || steps_meet_zero(doc, r as int, rg.end.steps@),
                _ => false,
            },
        },
    }
}

/// The text of a fragment: its path leads from the first child of node
/// `id` to a root, its range (if any) from that root to a start and an end;
/// the nodes from the start to the end are written out.
pub open spec fn fragment_text(doc: Document, id: Option<usize>, f: Fragment) -> Seq<char> {
    match id {
        None => Seq::empty(),
        Some(n) => match first_child(doc, n as int) {
            None => Seq::empty(),
            Some(c) => {
                let root = steps_walk(doc, c as int, None, f.path.local_path.steps@);
                match root {
                    None => Seq::empty(),
                    Some(r) => {
                        let (s, e) = match f.range {
                            Some(rg) => (
                                steps_walk(doc, r as int, None, rg.start.steps@),
                                steps_walk(doc, r as int, None, rg.end.steps@),
                            ),
                            None => (Some(r), Some(r)),
                        };
                        match (s, e) {
                            (Some(s), Some(e)) => edges_text(doc, range_edges(doc, r, s, e)),
                            _ => Seq::empty(),
                        }
                    },
                }
            },
        },
    }
}

/// A walk over the nodes of a document from the start of `from` to the end
/// of `to` (or of `root`).
pub struct Range<'a> {
    pub arena: &'a Document,
    pub root: usize,
    pub from: usize,
    pub to: usize,
    pub next: Option<NodeEdge>,
}

impl<'a> Range<'a> {
    /// The walk from the start of `from`.
    pub fn new(arena: &'a Document, root: usize, from: usize, to: usize) -> (r: Self)
        ensures
            r.arena == arena,
            r.root == root,
            r.from == from,
            r.to == to,
            r.next == Some(NodeEdge::Start(from)),
    {
        Range { arena, root, from, to, next: Some(NodeEdge::Start(from)) }
    }


    /// The edge after `next`.
    pub fn next_of_next(&self, next: NodeEdge) -> (r: Option<NodeEdge>)
        requires
            self.arena.wf(),
            edge_node(next) < self.arena.nodes@.len(),
        ensures
            r == next_edge(*self.arena, self.root, self.to, next),
            r matches Some(f) ==> edge_node(f) < self.arena.nodes@.len(),
    {
        proof {
            lemma_next_edge_valid(*self.arena, self.root, self.to, next);
        }
        match next {
            NodeEdge::Start(node) => {
                if self.arena.nodes[node].children.len() > 0 {
                    Some(NodeEdge::Start(self.arena.nodes[node].children[0]))
                } else {
                    Some(NodeEdge::End(node))
                }
            },
            NodeEdge::End(node) => {
                if node == self.root || node == self.to {
                    return None;
                }
                match next_sibling_in(self.arena, node) {
                    Some(s) => Some(NodeEdge::Start(s)),
                    None => match self.arena.nodes[node].parent {
                        Some(p) => Some(NodeEdge::End(p)),
                        None => None,
                    },
                }
            },
        }
    }

    /// The next edge of the walk. What repeated calls give, from a range
    /// just made, is stated by `preorder::lemma_range_steps` (each step is the
    /// next edge of the root's preorder, until the end of `to` or of the
    /// root, and then nothing) and `preorder::lemma_range_is_run`.
    pub fn next(&mut self) -> (r: Option<NodeEdge>)
        requires
            old(self).arena.wf(),
            old(self).next matches Some(e) ==> edge_node(e) < old(self).arena.nodes@.len(),
        ensures
            r == old(self).next,
            final(self).next == match old(self).next {
                Some(e) => next_edge(*old(self).arena, old(self).root, old(self).to, e),
                None => None,
            },
            final(self).arena == old(self).arena,
            final(self).root == old(self).root,
            final(self).to == old(self).to,
            final(self).from == old(self).from,
            final(self).next matches Some(e) ==> edge_node(e) < final(self).arena.nodes@.len(),
    {
        match self.next {
            None => None,
            Some(e) => {
                self.next = self.next_of_next(e);
                Some(e)
            },
        }
    }
}

/// The next sibling of `n`.
fn next_sibling_in(doc: &Document, n: usize) -> (r: Option<usize>)
    requires
        doc.wf(),
        n < doc.nodes@.len(),
    ensures
        r == next_sibling(*doc, n as int),
{
    match doc.nodes[n].parent {
        None => None,
        Some(p) => {
            assert(p < n);
            let kids = &doc.nodes[p].children;
            if kids.len() < 2 {
                return None;
            }
            let mut i: usize = 0;
            assert(kids@.skip(0) =~= kids@);
            while i < kids.len() - 1
                invariant
                    0 <= i <= kids.len() - 1,
                    kids.len() >= 2,
                    kids@ == children_of(*doc, p as int),
                    n < doc.nodes@.len(),
                    doc.nodes@[n as int].parent == Some(p),
                    sibling_after(kids@, n) == sibling_after(kids@.skip(i as int), n),
                decreases kids.len() - i,
            {
                assert(kids@.skip(i as int)[0] == kids@[i as int]);
                assert(kids@.skip(i as int)[1] == kids@[i + 1]);
                assert(kids@.skip(i as int).drop_first() =~= kids@.skip(i + 1));
                if kids[i] == n {
                    return Some(kids[i + 1]);
                }
                i = i + 1;
            }
            None
        },
    }
}

/// The edges that repeated calls of `Range::next` give on a range just
/// made, up to the bound of `range_edges` (which the walk never reaches:
/// see `preorder::lemma_range_is_run`).
pub fn collect_range(doc: &Document, root: usize, from: usize, to: usize) -> (r: Vec<NodeEdge>)
    requires
        doc.wf(),
        from < doc.nodes@.len(),
    ensures
        r@ == range_edges(*doc, root, from, to),
        forall|i: int| 0 <= i < r@.len() ==> edge_node(#[trigger] r@[i]) < doc.nodes@.len(),
{
    let mut range = Range::new(doc, root, from, to);
    let fuel: u128 = (doc.nodes.len() as u128) * 2 + 2;
    let ghost total = range_edges(*doc, root, from, to);
    let mut out: Vec<NodeEdge> = Vec::new();
    let mut k: u128 = 0;
    assert(out@ + walk(*doc, root, to, range.next, (fuel - k) as nat) =~= total);
    while k < fuel && range.next.is_some()
        invariant
            0 <= k <= fuel,
            fuel == 2 * doc.nodes@.len() + 2,
            doc.wf(),
            range.arena == doc,
            range.root == root,
            range.to == to,
            range.next matches Some(e) ==> edge_node(e) < doc.nodes@.len(),
            total == range_edges(*doc, root, from, to),
            out@ + walk(*doc, root, to, range.next, (fuel - k) as nat) == total,
            forall|i: int| 0 <= i < out@.len() ==> edge_node(#[trigger] out@[i]) < doc.nodes@.len(),
        decreases fuel - k,
    {
        let ghost before = out@;
        let ghost nx = range.next;
        match range.next() {
            Some(e) => {
                out.push(e);
                assert(walk(*doc, root, to, nx, (fuel - k) as nat) == seq![e] + walk(
                    *doc,
                    root,
                    to,
                    range.next,
                    (fuel - k - 1) as nat,
                ));
                assert(out@ + walk(*doc, root, to, range.next, (fuel - k - 1) as nat) =~= before
                    + walk(*doc, root, to, nx, (fuel - k) as nat));
            },
            None => {},
        }
        k = k + 1;
    }
    assert(walk(*doc, root, to, range.next, (fuel - k) as nat) =~= Seq::<NodeEdge>::empty());
    assert(out@ =~= total);
    out
}

/// The edges written out (see `edges_text`).
pub(crate) fn edges_fmt(doc: &Document, es: &Vec<NodeEdge>) -> (r: String)
    requires
        forall|i: int| 0 <= i < es@.len() ==> edge_node(#[trigger] es@[i]) < doc.nodes@.len(),
    ensures
        r@ == edges_text(*doc, es@),
{
    let mut out = String::new();
    let mut i: usize = 0;
    assert(es@.take(0) =~= Seq::<NodeEdge>::empty());
    while i < es.len()
        invariant
            0 <= i <= es.len(),
            forall|j: int| 0 <= j < es@.len() ==> edge_node(#[trigger] es@[j]) < doc.nodes@.len(),
            out@ == edges_text(*doc, es@.take(i as int)),
        decreases es.len() - i,
    {
        assert(es@.take(i + 1).drop_last() =~= es@.take(i as int));
        assert(es@.take(i + 1).last() == es@[i as int]);
        assert(edge_node(es@[i as int]) < doc.nodes@.len());
        let piece = match es[i] {
            NodeEdge::Start(n) => doc.nodes[n].node.start_fmt(),
            NodeEdge::End(n) => doc.nodes[n].node.end_fmt(),
        };
        out.append(piece.as_str());
        i = i + 1;
    }
    assert(es@.take(es.len() as int) =~= es@);
    out
}

/// The nodes whose start edges are in `es`, in order.
pub open spec fn start_ids(es: Seq<NodeEdge>) -> Seq<usize>
    decreases es.len(),
{
    if es.len() == 0 {
        Seq::empty()
    } else {
        start_ids(es.drop_last()) + match es.last() {
            NodeEdge::Start(n) => seq![n],
            NodeEdge::End(_) => Seq::empty(),
        }
    }
}

/// The nodes the walk over `n` starts, in document order: `n`, then the
/// nodes below it.
pub open spec fn subtree(doc: Document, n: usize) -> Seq<usize> {
    start_ids(range_edges(doc, n, n, n))
}

/// The nodes that the start edges of `es` begin.
pub(crate) fn start_ids_of(es: &Vec<NodeEdge>) -> (r: Vec<usize>)
    ensures
        r@ == start_ids(es@),
{
    let mut r: Vec<usize> = Vec::new();
    let mut i: usize = 0;
    while i < es.len()
        invariant
            0 <= i <= es.len(),
            r@ == start_ids(es@.take(i as int)),
        decreases es.len() - i,
    {
        assert(es@.take(i + 1).drop_last() =~= es@.take(i as int));
        assert(es@.take(i + 1).last() == es@[i as int]);
        match es[i] {
            NodeEdge::Start(n) => {
                r.push(n);
                assert(r@ =~= start_ids(es@.take(i + 1)));
            },
            NodeEdge::End(_) => {
                assert(r@ =~= start_ids(es@.take(i + 1)));
            },
        }
        i = i + 1;
    }
    assert(es@.take(es.len() as int) =~= es@);
    r
}

/// Each node that the start edges of `es` begin has its start edge in
/// `es`.
pub(crate) proof fn lemma_start_ids_from(es: Seq<NodeEdge>)
    ensures
        forall|j: int| 0 <= j < start_ids(es).len() ==> exists|k: int| 0 <= k < es.len() && es[k] == NodeEdge::Start(#[trigger] start_ids(es)[j]),
    decreases es.len(),
{
    if es.len() > 0 {
        let t = es.drop_last();
        lemma_start_ids_from(t);
        assert forall|j: int| 0 <= j < start_ids(es).len() implies exists|k: int| 0 <= k < es.len() && es[k] == NodeEdge::Start(#[trigger] start_ids(es)[j]) by {
            if j < start_ids(t).len() {
                assert(start_ids(es)[j] == start_ids(t)[j]);
                let k = choose|k: int| 0 <= k < t.len() && t[k] == NodeEdge::Start(start_ids(t)[j]);
                assert(es[k] == t[k]);
            } else {
                assert(es[es.len() - 1] == es.last());
            }
        }
    }
}

/// The subtree of `n` holds `n` and nodes below it only.
pub proof fn lemma_subtree_below(doc: Document, n: usize)
    requires
        doc.wf(),
        n < doc.nodes@.len(),
    ensures
        forall|j: int| 0 <= j < subtree(doc, n).len() ==> {
            let c = #[trigger] subtree(doc, n)[j];
            c < doc.nodes@.len() && is_ancestor(doc, n as int, c as int)
        },
{
    lemma_range_stays_below(doc, n, n, n);
    let es = range_edges(doc, n, n, n);
    lemma_start_ids_from(es);
    assert forall|j: int| 0 <= j < subtree(doc, n).len() implies {
        let c = #[trigger] subtree(doc, n)[j];
        c < doc.nodes@.len() && is_ancestor(doc, n as int, c as int)
    } by {
        let c = subtree(doc, n)[j];
        let k = choose|k: int| 0 <= k < es.len() && es[k] == NodeEdge::Start(start_ids(es)[j]);
        assert(edge_node(es[k]) == c);
    }
}

/// The ids the start edges of `es` begin are nodes of the tree when the
/// edges' nodes are.
proof fn lemma_start_ids_in(doc: Document, es: Seq<NodeEdge>)
    requires
        forall|i: int| 0 <= i < es.len() ==> edge_node(#[trigger] es[i]) < doc.nodes@.len(),
    ensures
        forall|i: int| 0 <= i < start_ids(es).len() ==> #[trigger] start_ids(es)[i] < doc.nodes@.len(),
    decreases es.len(),
{
    if es.len() > 0 {
        let t = es.drop_last();
        assert forall|i: int| 0 <= i < t.len() implies edge_node(#[trigger] t[i]) < doc.nodes@.len() by {
            assert(t[i] == es[i]);
        }
        lemma_start_ids_in(doc, t);
        assert(edge_node(es[es.len() - 1]) < doc.nodes@.len());
        let tail = match es.last() {
            NodeEdge::Start(n) => seq![n],
            NodeEdge::End(_) => Seq::<usize>::empty(),
        };
        assert(start_ids(es) == start_ids(t) + tail);
        assert forall|i: int| 0 <= i < start_ids(es).len() implies #[trigger] start_ids(es)[i]
            < doc.nodes@.len() by {
            if i < start_ids(t).len() {
                assert(start_ids(es)[i] == start_ids(t)[i]);
            } else {
                assert(start_ids(es)[i] == tail[i - start_ids(t).len()]);
            }
        }
    }
}

/// The ids of the subtree of `n`.
pub(crate) fn subtree_of(doc: &Document, n: usize) -> (r: Vec<usize>)
    requires
        doc.wf(),
        n < doc.nodes@.len(),
    ensures
        r@ == subtree(*doc, n),
        forall|i: int| 0 <= i < r@.len() ==> #[trigger] r@[i] < doc.nodes@.len(),
{
    let es = collect_range(doc, n, n, n);
    proof {
        lemma_start_ids_in(*doc, es@);
    }
    start_ids_of(&es)
}

/// A reference to a node of a document (or to none).
#[derive(Clone, Copy)]
pub struct ElementRef<'a> {
    pub id: Option<usize>,
    pub doc: &'a Document,
}

impl<'a> ElementRef<'a> {
    /// Whether the document is a tree and the node is in it.
    pub open spec fn wf(&self) -> bool {
        self.doc.wf() && (self.id matches Some(i) ==> i < self.doc.nodes@.len())
    }

    /// The reference to node `id` of `doc`.
    pub fn new(id: Option<usize>, doc: &'a Document) -> (r: Self)
        ensures
            r.id == id,
            r.doc == doc,
    {
        ElementRef { id, doc }
    }

    /// The node the CFI steps `cfi_components` (their node indexes) lead to
    /// from the referenced node; none where a step picks no child.
    pub fn select_cfi_node_id(&self, cfi_components: &Vec<usize>) -> (r: Option<usize>)
        requires
            self.wf(),
            self.id matches Some(i) ==> !cfi_walk_meets_zero(*self.doc, i as int, cfi_components@),
        ensures
            r == match self.id {
                Some(i) => cfi_walk(*self.doc, i as int, cfi_components@),
                None => None,
            },
            r matches Some(n) ==> n < self.doc.nodes@.len(),
    {
        match self.id {
            None => None,
            Some(node_id) => {
                let mut current = node_id;
                let mut i: usize = 0;
                assert(cfi_components@.skip(0) =~= cfi_components@);
                while i < cfi_components.len()
                    invariant
                        0 <= i <= cfi_components.len(),
                        self.wf(),
                        self.id == Some(node_id),
                        current < self.doc.nodes@.len(),
                        cfi_walk(*self.doc, node_id as int, cfi_components@) == cfi_walk(
                            *self.doc,
                            current as int,
                            cfi_components@.skip(i as int),
                        ),
                        !cfi_walk_meets_zero(*self.doc, current as int, cfi_components@.skip(i as int)),
                    decreases cfi_components.len() - i,
                {
                    assert(cfi_components@.skip(i as int)[0] == cfi_components@[i as int]);
                    assert(cfi_components@.skip(i as int).drop_first() =~= cfi_components@.skip(i + 1));
                    let next = pick_child(self.doc, current, cfi_components[i]);
                    assert(cfi_walk(*self.doc, current as int, cfi_components@.skip(i as int)) == match next {
                        Some(c) => cfi_walk(*self.doc, c as int, cfi_components@.skip(i + 1)),
                        None => None,
                    });
                    match next {
                        Some(c) => {
                            current = c;
                        },
                        None => {
                            return None;
                        },
                    }
                    i = i + 1;
                }
                assert(cfi_components@.skip(i as int) =~= Seq::<usize>::empty());
                Some(current)
            },
        }
    }

    /// The node the CFI steps lead to (see `select_cfi_node_id`).
    pub fn select_cfi(&self, cfi_components: &Vec<usize>) -> (r: Option<&'a Node>)
        requires
            self.wf(),
            self.id matches Some(i) ==> !cfi_walk_meets_zero(*self.doc, i as int, cfi_components@),
        ensures
            match (match self.id {
                Some(i) => cfi_walk(*self.doc, i as int, cfi_components@),
                None => None,
            }) {
                Some(n) => r == Some(&self.doc.nodes@[n as int].node),
                None => r is None,
            },
    {
        match self.select_cfi_node_id(cfi_components) {
            Some(n) => Some(&self.doc.nodes[n].node),
            None => None,
        }
    }

    /// The node that the steps lead to from `root_node` (see `steps_walk`).
    pub fn select_steps(&self, root_node: usize, steps: &Vec<Step>) -> (r: Option<usize>)
        requires
            self.doc.wf(),
            root_node < self.doc.nodes@.len(),
            !steps_meet_zero(*self.doc, root_node as int, steps@),
        ensures
            r == steps_walk(*self.doc, root_node as int, None, steps@),
            r matches Some(n) ==> n < self.doc.nodes@.len(),
    {
        let mut current = root_node;
        let mut result: Option<usize> = None;
        let mut i: usize = 0;
        assert(steps@.skip(0) =~= steps@);
        while i < steps.len()
            invariant
                0 <= i <= steps.len(),
                self.doc.wf(),
                current < self.doc.nodes@.len(),
                result matches Some(n) ==> n < self.doc.nodes@.len(),
                steps_walk(*self.doc, root_node as int, None, steps@) == steps_walk(
                    *self.doc,
                    current as int,
                    result,
                    steps@.skip(i as int),
                ),
                !steps_meet_zero(*self.doc, current as int, steps@.skip(i as int)),
            decreases steps.len() - i,
        {
            assert(steps@.skip(i as int)[0] == steps@[i as int]);
            assert(steps@.skip(i as int).drop_first() =~= steps@.skip(i + 1));
            let k = match parse_usize_str(steps[i].integer.as_str()) {
                Some(k) => k,
                None => {
                    return None;
                },
            };
            result = pick_child(self.doc, current, k);
            match result {
                Some(c) => {
                    current = c;
                },
                None => {
                    return None;
                },
            }
            i = i + 1;
        }
        assert(steps@.skip(i as int) =~= Seq::<Step>::empty());
        result
    }
    /// The node `node_id` and all below it, written out.
    pub fn fmt_node(&self, node_id: usize) -> (r: String)
        requires
            self.doc.wf(),
            node_id < self.doc.nodes@.len(),
        ensures
            r@ == edges_text(*self.doc, range_edges(*self.doc, node_id, node_id, node_id)),
    {
        let es = collect_range(self.doc, node_id, node_id, node_id);
        edges_fmt(self.doc, &es)
    }

    /// The nodes started in the walk from the node the CFI steps `from` lead
    /// to, to the one `to` leads to (or to the end of the referenced node).
    pub fn select_cfi_range(&self, from: &Vec<usize>, to: &Vec<usize>) -> (r: Vec<&'a Node>)
        requires
            self.wf(),
            self.id matches Some(i) ==> !cfi_walk_meets_zero(*self.doc, i as int, from@)
                && !cfi_walk_meets_zero(*self.doc, i as int, to@),
        ensures
            node_derefs(r@) == match self.id {
                Some(i) => match (
                    cfi_walk(*self.doc, i as int, from@),
                    cfi_walk(*self.doc, i as int, to@),
                ) {
                    (Some(f), Some(t)) => started_nodes(*self.doc, range_edges(*self.doc, i, f, t)),
                    _ => Seq::empty(),
                },
                None => Seq::empty(),
            },
    {
        let mut result: Vec<&'a Node> = Vec::new();
        if let Some(from_id) = self.select_cfi_node_id(from) {
            if let Some(to_id) = self.select_cfi_node_id(to) {
                if let Some(root) = self.id {
                    let es = collect_range(self.doc, root, from_id, to_id);
                    let mut i: usize = 0;
                    assert(es@.take(0) =~= Seq::<NodeEdge>::empty());
                    assert(node_derefs(result@) =~= Seq::<Node>::empty());
                    while i < es.len()
                        invariant
                            0 <= i <= es.len(),
                            self.wf(),
                            forall|j: int| 0 <= j < es@.len() ==> edge_node(#[trigger] es@[j]) < self.doc.nodes@.len(),
                            node_derefs(result@) == started_nodes(*self.doc, es@.take(i as int)),
                        decreases es.len() - i,
                    {
                        assert(es@.take(i + 1).drop_last() =~= es@.take(i as int));
                        assert(es@.take(i + 1).last() == es@[i as int]);
                        assert(edge_node(es@[i as int]) < self.doc.nodes@.len());
                        let ghost before = node_derefs(result@);
                        match es[i] {
                            NodeEdge::Start(n) => {
                                result.push(&self.doc.nodes[n].node);
                                assert(node_derefs(result@) =~= before.push(self.doc.nodes@[n as int].node));
                            },
                            NodeEdge::End(_) => {
                                assert(node_derefs(result@) =~= before + Seq::<Node>::empty());
                            },
                        }
                        i = i + 1;
                    }
                    assert(es@.take(es.len() as int) =~= es@);
                    return result;
                }
            }
        }
        assert(node_derefs(result@) =~= Seq::<Node>::empty());
        result
    }

    /// The text of a CFI fragment (see `fragment_text`).
    pub fn select_cfi_fragment_fmt(&self, cfi_fragment: &Fragment) -> (r: String)
        requires
            self.wf(),
            !fragment_meets_zero(*self.doc, self.id, *cfi_fragment),
        ensures
            r@ == fragment_text(*self.doc, self.id, *cfi_fragment),
    {
        let mut result = String::new();
        if let Some(node_id) = self.id {
            if self.doc.nodes[node_id].children.len() > 0 {
                let current_node = self.doc.nodes[node_id].children[0];
                assert(current_node == first_child(*self.doc, node_id as int)->Some_0);
                assert(current_node < self.doc.nodes@.len()) by {
                    assert(self.doc.nodes@[node_id as int].children@[0] == current_node);
                }
                let root_node = self.select_steps(current_node, &cfi_fragment.path.local_path.steps);
                let (start_node, end_node) = match (root_node, &cfi_fragment.range) {
                    (Some(rnode), Some(range)) => (
                        self.select_steps(rnode, &range.start.steps),
                        self.select_steps(rnode, &range.end.steps),
                    ),
                    _ => (root_node, root_node),
                };
                if let (Some(root_f), Some(start_f), Some(end_f)) = (root_node, start_node, end_node) {
                    let es = collect_range(self.doc, root_f, start_f, end_f);
                    result = edges_fmt(self.doc, &es);
                }
            }
        }
        result
    }

    /// The parent of the referenced node.
    pub fn parent_element(&self) -> (r: Option<ElementRef<'a>>)
        requires
            self.wf(),
        ensures
            match self.id {
                Some(n) => match self.doc.nodes@[n as int].parent {
                    Some(p) => r matches Some(e) && e.id == Some(p) && e.doc == self.doc,
                    None => r is None,
                },
                None => r is None,
            },
    {
        match self.id {
            Some(n) => match self.doc.nodes[n].parent {
                Some(p) => Some(ElementRef { id: Some(p), doc: self.doc }),
                None => None,
            },
            None => None,
        }
    }

    /// Whether the referenced node's parent is the document node.
    pub fn is_root(&self) -> (r: bool)
        requires
            self.wf(),
        ensures
            r == match self.id {
                Some(n) => match self.doc.nodes@[n as int].parent {
                    Some(p) => self.doc.nodes@[p as int].node is Document,
                    None => false,
                },
                None => false,
            },
    {
        match self.id {
            Some(n) => match self.doc.nodes[n].parent {
                Some(p) => self.doc.nodes[p].node.is_document(),
                None => false,
            },
            None => false,
        }
    }

    /// The node that follows the referenced one among its siblings.
    pub fn next_sibling_element(&self) -> (r: Option<ElementRef<'a>>)
        requires
            self.wf(),
        ensures
            match self.id {
                Some(n) => match next_sibling(*self.doc, n as int) {
                    Some(s) => r matches Some(e) && e.id == Some(s) && e.doc == self.doc && e.wf(),
                    None => r is None,
                },
                None => r is None,
            },
    {
        match self.id {
            Some(n) => {
                proof {
                    if let Some(p) = self.doc.nodes@[n as int].parent {
                        lemma_sibling_after_in(children_of(*self.doc, p as int), n);
                        if let Some(x) = sibling_after(children_of(*self.doc, p as int), n) {
                            let k = choose|k: int| 0 <= k < children_of(*self.doc, p as int).len() && children_of(*self.doc, p as int)[k] == x;
                            assert(self.doc.nodes@[p as int].children@[k] == x);
                        }
                    }
                }
                match next_sibling_in(self.doc, n) {
                    Some(s) => Some(ElementRef { id: Some(s), doc: self.doc }),
                    None => None,
                }
            },
            None => None,
        }
    }

    /// Whether the referenced node is an element whose id is `id`, compared
    /// as `case_sensitivity` says.
    pub fn has_id(&self, id: &str, case_sensitivity: CaseSensitivity) -> (r: bool)
        requires
            self.wf(),
        ensures
            r == match self.id {
                Some(n) => match self.doc.nodes@[n as int].node {
                    Node::Element(e) => match e@.id {
                        Some(v) => cs_eq(case_sensitivity, encode_utf8(id@), encode_utf8(v)),
                        None => false,
                    },
                    _ => false,
                },
                None => false,
            },
    {
        match self.id {
            Some(n) => match self.doc.nodes[n].node.as_element() {
                Some(e) => match e.id() {
                    Some(v) => case_sensitivity.eq(id.as_bytes(), v.as_bytes()),
                    None => false,
                },
                None => false,
            },
            None => false,
        }
    }

    /// Whether the referenced node is a `link` element.
    pub fn is_link(&self) -> (r: bool)
        requires
            self.wf(),
        ensures
            r == match self.id {
                Some(n) => match self.doc.nodes@[n as int].node {
                    Node::Element(e) => e@.name.local == "link"@,
                    _ => false,
                },
                None => false,
            },
    {
        match self.id {
            Some(n) => match self.doc.nodes[n].node.as_element() {
                Some(e) => str_eq(e.name(), "link"),
                None => false,
            },
            None => false,
        }
    }

    /// Whether some child of the referenced node is an element or a text.
    pub fn is_empty(&self) -> (r: bool)
        requires
            self.wf(),
        ensures
            r == match self.id {
                Some(n) => exists|k: int|
                    0 <= k < children_of(*self.doc, n as int).len() && {
                        let c = #[trigger] children_of(*self.doc, n as int)[k];
                        self.doc.nodes@[c as int].node is Element || self.doc.nodes@[c as int].node is Text
                    },
                None => false,
            },
    {
        match self.id {
            Some(n) => {
                let kids = &self.doc.nodes[n].children;
                let mut k: usize = 0;
                while k < kids.len()
                    invariant
                        0 <= k <= kids.len(),
                        self.wf(),
                        self.id == Some(n),
                        n < self.doc.nodes@.len(),
                        kids == &self.doc.nodes@[n as int].children,
                        forall|j: int| 0 <= j < k ==> {
                            let c = #[trigger] children_of(*self.doc, n as int)[j];
                            !(self.doc.nodes@[c as int].node is Element || self.doc.nodes@[c as int].node is Text)
                        },
                    decreases kids.len() - k,
                {
                    let c = kids[k];
                    assert(children_of(*self.doc, n as int)[k as int] == c);
                    if self.doc.nodes[c].node.is_element() || self.doc.nodes[c].node.is_text() {
                        return true;
                    }
                    k = k + 1;
                }
                false
            },
            None => false,
        }
    }

    /// The nearest earlier sibling of the referenced node that is an
    /// element.
    pub fn prev_sibling_element(&self) -> (r: Option<ElementRef<'a>>)
        requires
            self.wf(),
        ensures
            match self.id {
                Some(n) => match prev_element_sibling(*self.doc, n) {
                    Some(s) => r matches Some(e) && e.id == Some(s) && e.doc == self.doc,
                    None => r is None,
                },
                None => r is None,
            },
    {
        match self.id {
            None => None,
            Some(n) => match self.doc.nodes[n].parent {
                None => None,
                Some(p) => {
                    assert(p < n);
                    let kids = &self.doc.nodes[p].children;
                    let ghost pred = eq_pred(n);
                    let mut k: usize = 0;
                    while k < kids.len() && kids[k] != n
                        invariant
                            0 <= k <= kids.len(),
                            kids@ == children_of(*self.doc, p as int),
                            pred == eq_pred(n),
                            forall|j: int| 0 <= j < k ==> !pred(#[trigger] kids@[j]),
                        decreases kids.len() - k,
                    {
                        k = k + 1;
                    }
                    proof {
                        lemma_first_index(kids@, pred, k as int);
                    }
                    if k == kids.len() {
                        return None;
                    }
                    let mut j: usize = k;
                    assert(kids@.take(k as int).take(j as int) =~= kids@.take(k as int));
                    while j > 0
                        invariant
                            j <= k < kids.len(),
                            self.wf(),
                            kids@ == children_of(*self.doc, p as int),
                            p < self.doc.nodes@.len(),
                            self.id == Some(n),
                            n < self.doc.nodes@.len(),
                            self.doc.nodes@[n as int].parent == Some(p),
                            first_index(kids@, eq_pred(n)) == Some(k as int),
                            last_element(*self.doc, kids@.take(k as int)) == last_element(
                                *self.doc,
                                kids@.take(j as int),
                            ),
                        decreases j,
                    {
                        let c = kids[j - 1];
                        assert(kids@.take(j as int).drop_last() =~= kids@.take(j - 1));
                        assert(kids@.take(j as int).last() == c);
                        assert(c < self.doc.nodes@.len()) by {
                            assert(self.doc.nodes@[p as int].children@[j - 1] == c);
                        }
                        if self.doc.nodes[c].node.is_element() {
                            return Some(ElementRef { id: Some(c), doc: self.doc });
                        }
                        j = j - 1;
                    }
                    assert(kids@.take(0) =~= Seq::<usize>::empty());
                    None
                },
            },
        }
    }

    /// Whether the referenced node is an element of local name
    /// `local_name`.
    pub fn has_local_name(&self, local_name: &str) -> (r: bool)
        requires
            self.wf(),
        ensures
            r == match self.id {
                Some(n) => match self.doc.nodes@[n as int].node {
                    Node::Element(e) => e@.name.local == local_name@,
                    _ => false,
                },
                None => false,
            },
    {
        match self.id {
            Some(n) => match self.doc.nodes[n].node.as_element() {
                Some(e) => crate::strings::str_eq(e.name(), local_name),
                None => false,
            },
            None => false,
        }
    }
}

} // verus!
