//! The walk over a node seen as the preorder of its subtree: it meets the
//! node and every node below it, each once, parents before children and
//! children in order.
use vstd::prelude::*;
use vstd::set_lib::{lemma_len_subset, lemma_set_disjoint_lens};
use crate::element::{
    children_of, edges_text, first_child, fragment_text, is_ancestor, lemma_pick_is_child,
    lemma_start_ids_from, next_edge, pick, range_edges, sibling_after, start_ids, steps_walk,
    subtree, walk, Document, NodeEdge,
};
use crate::cfi::{Fragment, Step};
use crate::selection::range_text;
use crate::strings::parse_usize;

verus! {

/// The nodes at or below `x`.
pub open spec fn below(doc: Document, x: int) -> Set<usize> {
    Set::new(|y: usize| (y as int) < doc.nodes@.len() && is_ancestor(doc, x, y as int))
}

/// The nodes at or below the children of `p` from the `k`-th on.
pub open spec fn below_from(doc: Document, p: int, k: int) -> Set<usize>
    decreases children_of(doc, p).len() - k,
{
    if 0 <= k < children_of(doc, p).len() {
        below(doc, children_of(doc, p)[k] as int) + below_from(doc, p, k + 1)
    } else {
        Set::empty()
    }
}

/// The edges of the subtree of `x` in document order: the start of `x`, the
/// subtrees of its children one after the other, the end of `x`.
pub open spec fn preorder(doc: Document, x: int) -> Seq<NodeEdge>
    decreases doc.nodes@.len() - x, 1int, 0int,
{
    if 0 <= x < doc.nodes@.len() {
        seq![NodeEdge::Start(x as usize)] + preorder_from(doc, x, 0) + seq![NodeEdge::End(x as usize)]
    } else {
        Seq::empty()
    }
}

/// The edges of the subtrees of the children of `p` from the `k`-th on.
pub open spec fn preorder_from(doc: Document, p: int, k: int) -> Seq<NodeEdge>
    decreases doc.nodes@.len() - p, 0int, children_of(doc, p).len() - k,
{
    if 0 <= p < doc.nodes@.len() && 0 <= k < children_of(doc, p).len() {
        let c = children_of(doc, p)[k] as int;
        (if p < c && c < doc.nodes@.len() {
            preorder(doc, c)
        } else {
            Seq::empty()
        }) + preorder_from(doc, p, k + 1)
    } else {
        Seq::empty()
    }
}

/// An ancestor comes no later than its descendant.
proof fn lemma_ancestor_le(doc: Document, a: int, c: int)
    requires
        is_ancestor(doc, a, c),
    ensures
        a <= c,
    decreases c,
{
    if c != a {
        let p = doc.nodes@[c].parent.unwrap();
        lemma_ancestor_le(doc, a, p as int);
    }
}

/// Below a node below `a` is below `a`.
proof fn lemma_ancestor_trans(doc: Document, a: int, b: int, c: int)
    requires
        is_ancestor(doc, a, b),
        is_ancestor(doc, b, c),
    ensures
        is_ancestor(doc, a, c),
    decreases c,
{
    if c != b {
        let p = doc.nodes@[c].parent.unwrap();
        lemma_ancestor_trans(doc, a, b, p as int);
    }
}

/// Two nodes above a third lie one above the other.
proof fn lemma_ancestors_ordered(doc: Document, a: int, b: int, y: int)
    requires
        is_ancestor(doc, a, y),
        is_ancestor(doc, b, y),
    ensures
        is_ancestor(doc, a, b) || is_ancestor(doc, b, a),
    decreases y,
{
    if y != a && y != b {
        let p = doc.nodes@[y].parent.unwrap();
        lemma_ancestors_ordered(doc, a, b, p as int);
    }
}

/// A child is below its parent.
proof fn lemma_child_below(doc: Document, p: usize, k: int)
    requires
        doc.wf(),
        (p as int) < doc.nodes@.len(),
        0 <= k < children_of(doc, p as int).len(),
    ensures
        p < children_of(doc, p as int)[k],
        (children_of(doc, p as int)[k] as int) < doc.nodes@.len(),
        doc.nodes@[children_of(doc, p as int)[k] as int].parent == Some(p),
        is_ancestor(doc, p as int, children_of(doc, p as int)[k] as int),
{
    let c = doc.nodes@[p as int].children@[k];
    assert(p < c < doc.nodes@.len());
    assert(doc.nodes@[c as int].parent == Some(p));
    assert(is_ancestor(doc, p as int, p as int));
}

/// A node strictly below `x` is at or below one of its children: the index
/// of that child.
proof fn lemma_below_child(doc: Document, x: usize, y: usize) -> (k: int)
    requires
        doc.wf(),
        (x as int) < doc.nodes@.len(),
        is_ancestor(doc, x as int, y as int),
        y != x,
    ensures
        0 <= k < children_of(doc, x as int).len(),
        is_ancestor(doc, children_of(doc, x as int)[k] as int, y as int),
    decreases y,
{
    let p = doc.nodes@[y as int].parent.unwrap();
    assert(doc.nodes@[y as int].parent == Some(p));
    assert(is_ancestor(doc, p as int, p as int));
    assert(is_ancestor(doc, p as int, y as int));
    if p == x {
        assert(doc.nodes@[x as int].children@.contains(y));
        let k = choose|k: int| 0 <= k < children_of(doc, x as int).len() && children_of(doc, x as int)[k] == y;
        assert(is_ancestor(doc, y as int, y as int));
        k
    } else {
        let k = lemma_below_child(doc, x, p);
        lemma_ancestor_trans(doc, children_of(doc, x as int)[k] as int, p as int, y as int);
        k
    }
}

/// Nothing is below two different children of one node.
proof fn lemma_children_apart(doc: Document, x: usize, i: int, j: int, y: int)
    requires
        doc.wf(),
        (x as int) < doc.nodes@.len(),
        0 <= i < j < children_of(doc, x as int).len(),
    ensures
        !(is_ancestor(doc, children_of(doc, x as int)[i] as int, y) && is_ancestor(
            doc,
            children_of(doc, x as int)[j] as int,
            y,
        )),
{
    let ci = children_of(doc, x as int)[i] as int;
    let cj = children_of(doc, x as int)[j] as int;
    lemma_child_below(doc, x, i);
    lemma_child_below(doc, x, j);
    assert(doc.nodes@[x as int].children@[i] < doc.nodes@[x as int].children@[j]);
    if is_ancestor(doc, ci, y) && is_ancestor(doc, cj, y) {
        lemma_ancestors_ordered(doc, ci, cj, y);
        if is_ancestor(doc, ci, cj) {
            lemma_ancestor_le(doc, ci, x as int);
        } else {
            lemma_ancestor_le(doc, cj, x as int);
        }
    }
}

/// A node below the `j`-th child of `p` is in `below_from(p, k)` for
/// `k <= j`.
proof fn lemma_in_below_from(doc: Document, p: int, k: int, j: int, y: usize)
    requires
        0 <= k <= j < children_of(doc, p).len(),
        below(doc, children_of(doc, p)[j] as int).contains(y),
    ensures
        below_from(doc, p, k).contains(y),
    decreases j - k,
{
    if k < j {
        lemma_in_below_from(doc, p, k + 1, j, y);
    }
}

/// A node of `below_from(p, k)` is below one of the children of `p` from
/// the `k`-th on: the index of that child.
proof fn lemma_from_below_from(doc: Document, p: int, k: int, y: usize) -> (j: int)
    requires
        below_from(doc, p, k).contains(y),
    ensures
        0 <= k <= j < children_of(doc, p).len(),
        below(doc, children_of(doc, p)[j] as int).contains(y),
    decreases children_of(doc, p).len() - k,
{
    if below(doc, children_of(doc, p)[k] as int).contains(y) {
        k
    } else {
        lemma_from_below_from(doc, p, k + 1, y)
    }
}

/// The start edges of two sequences of edges put together.
proof fn lemma_start_ids_concat(a: Seq<NodeEdge>, b: Seq<NodeEdge>)
    ensures
        start_ids(a + b) == start_ids(a) + start_ids(b),
    decreases b.len(),
{
    if b.len() == 0 {
        assert(a + b =~= a);
        assert(start_ids(a) + start_ids(b) =~= start_ids(a));
    } else {
        lemma_start_ids_concat(a, b.drop_last());
        assert((a + b).drop_last() =~= a + b.drop_last());
        assert((a + b).last() == b.last());
        assert(start_ids(a + b) =~= start_ids(a) + start_ids(b));
    }
}

/// The start edges of a single edge.
proof fn lemma_start_ids_one(e: NodeEdge)
    ensures
        start_ids(seq![e]) == match e {
            NodeEdge::Start(n) => seq![n],
            NodeEdge::End(_) => Seq::<usize>::empty(),
        },
{
    assert(seq![e].drop_last() =~= Seq::<NodeEdge>::empty());
    assert(seq![e].last() == e);
    assert(start_ids(Seq::<NodeEdge>::empty()) =~= Seq::<usize>::empty());
    assert(start_ids(seq![e]) =~= match e {
        NodeEdge::Start(n) => seq![n],
        NodeEdge::End(_) => Seq::<usize>::empty(),
    });
}

/// The preorder of `x` starts `x`, then the children's subtrees, and ends
/// `x`; its start edges are `x` and those of the children's subtrees.
proof fn lemma_preorder_parts(doc: Document, x: usize)
    requires
        (x as int) < doc.nodes@.len(),
    ensures
        preorder(doc, x as int).len() == preorder_from(doc, x as int, 0).len() + 2,
        start_ids(preorder(doc, x as int)) == seq![x] + start_ids(preorder_from(doc, x as int, 0)),
{
    let pf = preorder_from(doc, x as int, 0);
    let s = seq![NodeEdge::Start(x)];
    let e = seq![NodeEdge::End(x)];
    lemma_start_ids_concat(s + pf, e);
    lemma_start_ids_concat(s, pf);
    lemma_start_ids_one(NodeEdge::Start(x));
    lemma_start_ids_one(NodeEdge::End(x));
    assert(start_ids(preorder(doc, x as int)) =~= seq![x] + start_ids(pf));
}

/// The subtrees of the children of `p` from the `k`-th on: the `k`-th
/// child's, then those after it.
proof fn lemma_preorder_from_parts(doc: Document, p: usize, k: int)
    requires
        doc.wf(),
        (p as int) < doc.nodes@.len(),
        0 <= k < children_of(doc, p as int).len(),
    ensures
        preorder_from(doc, p as int, k) == preorder(doc, children_of(doc, p as int)[k] as int)
            + preorder_from(doc, p as int, k + 1),
        start_ids(preorder_from(doc, p as int, k)) == start_ids(
            preorder(doc, children_of(doc, p as int)[k] as int),
        ) + start_ids(preorder_from(doc, p as int, k + 1)),
{
    lemma_child_below(doc, p, k);
    lemma_start_ids_concat(
        preorder(doc, children_of(doc, p as int)[k] as int),
        preorder_from(doc, p as int, k + 1),
    );
}

/// The preorder of `x` holds two edges, and one start edge, for each node
/// at or below `x`.
proof fn lemma_preorder_count(doc: Document, x: usize)
    requires
        doc.wf(),
        (x as int) < doc.nodes@.len(),
    ensures
        below(doc, x as int).finite(),
        preorder(doc, x as int).len() == 2 * below(doc, x as int).len(),
        start_ids(preorder(doc, x as int)).len() == below(doc, x as int).len(),
    decreases doc.nodes@.len() - x, 1int, 0int,
{
    lemma_preorder_from_count(doc, x, 0);
    lemma_preorder_parts(doc, x);
    let rest = below_from(doc, x as int, 0);
    assert forall|y: usize| #[trigger] below(doc, x as int).contains(y) == (set![x] + rest).contains(y) by {
        if below(doc, x as int).contains(y) && y != x {
            let k = lemma_below_child(doc, x, y);
            lemma_child_below(doc, x, k);
            lemma_in_below_from(doc, x as int, 0, k, y);
        }
        if rest.contains(y) {
            let j = lemma_from_below_from(doc, x as int, 0, y);
            lemma_child_below(doc, x, j);
            lemma_ancestor_trans(doc, x as int, children_of(doc, x as int)[j] as int, y as int);
        }
        if y == x {
            assert(is_ancestor(doc, x as int, x as int));
        }
    }
    assert(below(doc, x as int) =~= set![x] + rest);
    assert forall|y: usize| set![x].contains(y) implies !rest.contains(y) by {
        if rest.contains(y) {
            let j = lemma_from_below_from(doc, x as int, 0, y);
            lemma_child_below(doc, x, j);
            lemma_ancestor_le(doc, children_of(doc, x as int)[j] as int, y as int);
        }
    }
    assert(set![x].disjoint(rest));
    assert(set![x].len() == 1) by {
        assert(set![x] =~= Set::<usize>::empty().insert(x));
    }
    lemma_set_disjoint_lens(set![x], rest);
}

/// The subtrees of the children of `p` from the `k`-th on hold two edges,
/// and one start edge, for each node below those children.
proof fn lemma_preorder_from_count(doc: Document, p: usize, k: int)
    requires
        doc.wf(),
        (p as int) < doc.nodes@.len(),
        0 <= k <= children_of(doc, p as int).len(),
    ensures
        below_from(doc, p as int, k).finite(),
        preorder_from(doc, p as int, k).len() == 2 * below_from(doc, p as int, k).len(),
        start_ids(preorder_from(doc, p as int, k)).len() == below_from(doc, p as int, k).len(),
    decreases doc.nodes@.len() - p, 0int, children_of(doc, p as int).len() - k,
{
    if k < children_of(doc, p as int).len() {
        let c = children_of(doc, p as int)[k];
        lemma_child_below(doc, p, k);
        lemma_preorder_count(doc, c);
        lemma_preorder_from_count(doc, p, k + 1);
        lemma_preorder_from_parts(doc, p, k);
        let rest = below_from(doc, p as int, k + 1);
        assert forall|y: usize| below(doc, c as int).contains(y) implies !rest.contains(y) by {
            if rest.contains(y) {
                let j = lemma_from_below_from(doc, p as int, k + 1, y);
                lemma_children_apart(doc, p, k, j, y as int);
            }
        }
        assert(below(doc, c as int).disjoint(rest));
        lemma_set_disjoint_lens(below(doc, c as int), rest);
    } else {
        assert(start_ids(Seq::<NodeEdge>::empty()) =~= Seq::<usize>::empty());
        assert(below_from(doc, p as int, k) =~= Set::<usize>::empty());
    }
}

/// The children of a node come in increasing order.
proof fn lemma_children_increasing(doc: Document, p: int)
    requires
        doc.wf(),
        0 <= p < doc.nodes@.len(),
    ensures
        forall|i: int, j: int|
            #![trigger children_of(doc, p)[i], children_of(doc, p)[j]]
            0 <= i < j < children_of(doc, p).len() ==> children_of(doc, p)[i] < children_of(doc, p)[j],
{
    assert forall|i: int, j: int| 0 <= i < j < children_of(doc, p).len() implies children_of(doc, p)[i]
        < children_of(doc, p)[j] by {
        assert(doc.nodes@[p].children@[i] < doc.nodes@[p].children@[j]);
    }
}

/// In increasing siblings, what follows the `k`-th is the next one.
proof fn lemma_sibling_after_at(s: Seq<usize>, k: int)
    requires
        0 <= k < s.len(),
        forall|i: int, j: int| #![trigger s[i], s[j]] 0 <= i < j < s.len() ==> s[i] < s[j],
    ensures
        sibling_after(s, s[k]) == if k + 1 < s.len() {
            Some(s[k + 1])
        } else {
            None
        },
    decreases s.len(),
{
    if s.len() >= 2 && k > 0 {
        let t = s.drop_first();
        assert(s[0] < s[k]);
        assert forall|i: int, j: int| #![trigger t[i], t[j]] 0 <= i < j < t.len() implies t[i] < t[j] by {
            assert(s[i + 1] < s[j + 1]);
        }
        lemma_sibling_after_at(t, k - 1);
        assert(t[k - 1] == s[k]);
        if k < s.len() - 1 {
            assert(t[k] == s[k + 1]);
        }
    }
}

/// Walking from the start of a node below `root`, the walk first covers the
/// node's subtree, then goes on from the node's end.
proof fn lemma_walk_preorder(doc: Document, root: usize, x: usize, f: nat)
    requires
        doc.wf(),
        (x as int) < doc.nodes@.len(),
        is_ancestor(doc, root as int, x as int),
        f >= preorder(doc, x as int).len(),
    ensures
        walk(doc, root, root, Some(NodeEdge::Start(x)), f) == preorder(doc, x as int) + walk(
            doc,
            root,
            root,
            next_edge(doc, root, root, NodeEdge::End(x)),
            (f - preorder(doc, x as int).len()) as nat,
        ),
    decreases doc.nodes@.len() - x, 1int, 0int,
{
    let pf = preorder_from(doc, x as int, 0);
    let g = (f - preorder(doc, x as int).len()) as nat;
    let after = walk(doc, root, root, next_edge(doc, root, root, NodeEdge::End(x)), g);
    lemma_preorder_parts(doc, x);
    let w_end = walk(doc, root, root, Some(NodeEdge::End(x)), (g + 1) as nat);
    assert(w_end == seq![NodeEdge::End(x)] + after);
    if children_of(doc, x as int).len() > 0 {
        assert(first_child(doc, x as int) == Some(children_of(doc, x as int)[0]));
        lemma_walk_preorder_from(doc, root, x, 0, (f - 1) as nat);
        assert(walk(doc, root, root, Some(NodeEdge::Start(x)), f) == seq![NodeEdge::Start(x)] + walk(
            doc,
            root,
            root,
            Some(NodeEdge::Start(children_of(doc, x as int)[0])),
            (f - 1) as nat,
        ));
    } else {
        assert(pf =~= Seq::<NodeEdge>::empty());
        assert(first_child(doc, x as int) is None);
        assert(next_edge(doc, root, root, NodeEdge::Start(x)) == Some(NodeEdge::End(x)));
        assert(f - 1 == g + 1);
        assert(walk(doc, root, root, Some(NodeEdge::Start(x)), f) == seq![NodeEdge::Start(x)] + walk(
            doc,
            root,
            root,
            Some(NodeEdge::End(x)),
            (f - 1) as nat,
        ));
    }
    assert(walk(doc, root, root, Some(NodeEdge::Start(x)), f) =~= preorder(doc, x as int) + after);
}

/// Walking from the start of the `k`-th child of a node `p` below `root`,
/// the walk first covers the subtrees of the children from the `k`-th on,
/// then reaches the end of `p`.
proof fn lemma_walk_preorder_from(doc: Document, root: usize, p: usize, k: int, f: nat)
    requires
        doc.wf(),
        (p as int) < doc.nodes@.len(),
        is_ancestor(doc, root as int, p as int),
        0 <= k < children_of(doc, p as int).len(),
        f >= preorder_from(doc, p as int, k).len(),
    ensures
        walk(doc, root, root, Some(NodeEdge::Start(children_of(doc, p as int)[k])), f) == preorder_from(
            doc,
            p as int,
            k,
        ) + walk(doc, root, root, Some(NodeEdge::End(p)), (f - preorder_from(doc, p as int, k).len()) as nat),
    decreases doc.nodes@.len() - p, 0int, children_of(doc, p as int).len() - k,
{
    let cs = children_of(doc, p as int);
    let c = cs[k];
    lemma_child_below(doc, p, k);
    lemma_ancestor_trans(doc, root as int, p as int, c as int);
    lemma_ancestor_le(doc, root as int, p as int);
    lemma_preorder_from_parts(doc, p, k);
    lemma_walk_preorder(doc, root, c, f);
    let g = (f - preorder(doc, c as int).len()) as nat;
    lemma_children_increasing(doc, p as int);
    lemma_sibling_after_at(cs, k);
    assert(c != root);
    if k + 1 < cs.len() {
        assert(next_edge(doc, root, root, NodeEdge::End(c)) == Some(NodeEdge::Start(cs[k + 1])));
        lemma_walk_preorder_from(doc, root, p, k + 1, g);
    } else {
        assert(next_edge(doc, root, root, NodeEdge::End(c)) == Some(NodeEdge::End(p)));
        assert(preorder_from(doc, p as int, k + 1) =~= Seq::<NodeEdge>::empty());
    }
    assert(walk(doc, root, root, Some(NodeEdge::Start(cs[k])), f) =~= preorder_from(doc, p as int, k)
        + walk(doc, root, root, Some(NodeEdge::End(p)), (f - preorder_from(doc, p as int, k).len()) as nat));
}

/// The nodes from `lo` on, before `hi`.
spec fn nodes_between(lo: usize, hi: int) -> Set<usize> {
    Set::new(|i: usize| lo <= i && (i as int) < hi)
}

/// There are at most `hi - lo` nodes from `lo` on, before `hi`.
proof fn lemma_nodes_between(lo: usize, hi: int)
    requires
        lo <= hi,
    ensures
        nodes_between(lo, hi).finite(),
        nodes_between(lo, hi).len() <= hi - lo,
    decreases hi - lo,
{
    if hi == lo {
        assert(nodes_between(lo, hi) =~= Set::<usize>::empty());
    } else {
        lemma_nodes_between(lo, hi - 1);
        if hi - 1 <= usize::MAX {
            assert(nodes_between(lo, hi) =~= nodes_between(lo, hi - 1).insert((hi - 1) as usize));
        } else {
            assert(nodes_between(lo, hi) =~= nodes_between(lo, hi - 1));
        }
    }
}

/// The walk over a node from its start to its end is the preorder of its
/// subtree: the node, then each child's subtree in turn, each node started
/// and ended once.
pub proof fn lemma_range_is_preorder(doc: Document, n: usize)
    requires
        doc.wf(),
        (n as int) < doc.nodes@.len(),
    ensures
        range_edges(doc, n, n, n) == preorder(doc, n as int),
{
    let len = doc.nodes@.len() as int;
    lemma_preorder_count(doc, n);
    lemma_nodes_between(n, len);
    assert forall|y: usize| below(doc, n as int).contains(y) implies nodes_between(n, len).contains(y) by {
        lemma_ancestor_le(doc, n as int, y as int);
    }
    lemma_len_subset(below(doc, n as int), nodes_between(n, len));
    assert(is_ancestor(doc, n as int, n as int));
    let fuel = (2 * doc.nodes@.len() + 2) as nat;
    lemma_walk_preorder(doc, n, n, fuel);
    assert(next_edge(doc, n, n, NodeEdge::End(n)) is None);
    assert(range_edges(doc, n, n, n) =~= preorder(doc, n as int));
}

/// A node at or below `x` has its start edge in the preorder of `x`.
proof fn lemma_in_preorder(doc: Document, x: usize, y: usize)
    requires
        doc.wf(),
        (x as int) < doc.nodes@.len(),
        is_ancestor(doc, x as int, y as int),
    ensures
        start_ids(preorder(doc, x as int)).contains(y),
    decreases doc.nodes@.len() - x, 1int, 0int,
{
    lemma_preorder_parts(doc, x);
    let tail = start_ids(preorder_from(doc, x as int, 0));
    if y == x {
        assert(start_ids(preorder(doc, x as int))[0] == y);
    } else {
        let k = lemma_below_child(doc, x, y);
        lemma_in_preorder_from(doc, x, 0, k, y);
        let i = choose|i: int| 0 <= i < tail.len() && tail[i] == y;
        assert(start_ids(preorder(doc, x as int))[i + 1] == y);
    }
}

/// A node at or below the `j`-th child of `p` has its start edge in the
/// subtrees of the children from the `k`-th on, for `k <= j`.
proof fn lemma_in_preorder_from(doc: Document, p: usize, k: int, j: int, y: usize)
    requires
        doc.wf(),
        (p as int) < doc.nodes@.len(),
        0 <= k <= j < children_of(doc, p as int).len(),
        is_ancestor(doc, children_of(doc, p as int)[j] as int, y as int),
    ensures
        start_ids(preorder_from(doc, p as int, k)).contains(y),
    decreases doc.nodes@.len() - p, 0int, children_of(doc, p as int).len() - k,
{
    let c = children_of(doc, p as int)[k];
    lemma_child_below(doc, p, k);
    lemma_preorder_from_parts(doc, p, k);
    let a = start_ids(preorder(doc, c as int));
    let b = start_ids(preorder_from(doc, p as int, k + 1));
    if k == j {
        lemma_in_preorder(doc, c, y);
        let i = choose|i: int| 0 <= i < a.len() && a[i] == y;
        assert((a + b)[i] == y);
    } else {
        lemma_in_preorder_from(doc, p, k + 1, j, y);
        let i = choose|i: int| 0 <= i < b.len() && b[i] == y;
        assert((a + b)[a.len() + i] == y);
    }
}

/// The subtree of `n` holds every node at or below `n`, and has exactly as
/// many entries as there are such nodes, so each of them comes once.
pub proof fn lemma_subtree_complete(doc: Document, n: usize)
    requires
        doc.wf(),
        (n as int) < doc.nodes@.len(),
    ensures
        forall|y: usize| is_ancestor(doc, n as int, y as int) ==> #[trigger] subtree(doc, n).contains(y),
        subtree(doc, n).len() == below(doc, n as int).len(),
{
    lemma_range_is_preorder(doc, n);
    lemma_preorder_count(doc, n);
    assert forall|y: usize| is_ancestor(doc, n as int, y as int) implies #[trigger] subtree(doc, n).contains(y) by {
        lemma_in_preorder(doc, n, y);
    }
}

/// Whether the walk stops after the edge `e`: it is the end of `root` or of
/// `to`.
pub open spec fn stops_at(e: NodeEdge, root: usize, to: usize) -> bool {
    e == NodeEdge::End(root) || e == NodeEdge::End(to)
}

/// The first index from `m` on whose edge stops the walk (the length of `s`
/// where there is none).
pub open spec fn first_stop(s: Seq<NodeEdge>, m: int, root: usize, to: usize) -> int
    decreases s.len() - m,
{
    if m < 0 || m >= s.len() {
        s.len() as int
    } else if stops_at(s[m], root, to) {
        m
    } else {
        first_stop(s, m + 1, root, to)
    }
}

/// Whether, in `s`, the walk goes from each edge that does not end `to` to
/// the edge that follows it.
pub open spec fn steps_follow(doc: Document, root: usize, to: usize, s: Seq<NodeEdge>) -> bool {
    forall|k: int|
        0 <= k < s.len() - 1 && s[k] != NodeEdge::End(to) ==> #[trigger] next_edge(doc, root, to, s[k])
            == Some(s[k + 1])
}

/// Two runs of edges in which the walk follows the edges, joined where it
/// goes from the last of the first to the first of the second.
proof fn lemma_steps_follow_concat(doc: Document, root: usize, to: usize, a: Seq<NodeEdge>, b: Seq<NodeEdge>)
    requires
        steps_follow(doc, root, to, a),
        steps_follow(doc, root, to, b),
        a.len() > 0,
        b.len() > 0,
        a.last() != NodeEdge::End(to) ==> next_edge(doc, root, to, a.last()) == Some(b[0]),
    ensures
        steps_follow(doc, root, to, a + b),
{
    let s = a + b;
    assert forall|k: int| 0 <= k < s.len() - 1 && s[k] != NodeEdge::End(to) implies #[trigger] next_edge(
        doc,
        root,
        to,
        s[k],
    ) == Some(s[k + 1]) by {
        if k < a.len() - 1 {
            assert(s[k] == a[k] && s[k + 1] == a[k + 1]);
        } else if k == a.len() - 1 {
            assert(s[k] == a.last() && s[k + 1] == b[0]);
        } else {
            assert(s[k] == b[k - a.len()] && s[k + 1] == b[k - a.len() + 1]);
        }
    }
}

/// In the preorder of a node below `root`, the walk goes from each edge to
/// the next; the preorder starts `x` and ends `x`.
proof fn lemma_preorder_steps(doc: Document, root: usize, to: usize, x: usize)
    requires
        doc.wf(),
        (x as int) < doc.nodes@.len(),
        is_ancestor(doc, root as int, x as int),
    ensures
        steps_follow(doc, root, to, preorder(doc, x as int)),
        preorder(doc, x as int).len() >= 2,
        preorder(doc, x as int)[0] == NodeEdge::Start(x),
        preorder(doc, x as int).last() == NodeEdge::End(x),
    decreases doc.nodes@.len() - x, 1int, 0int,
{
    let pf = preorder_from(doc, x as int, 0);
    let s = seq![NodeEdge::Start(x)];
    let e = seq![NodeEdge::End(x)];
    lemma_preorder_parts(doc, x);
    assert(preorder(doc, x as int) == s + pf + e);
    assert(steps_follow(doc, root, to, s));
    assert(steps_follow(doc, root, to, e));
    let cs = children_of(doc, x as int);
    if cs.len() > 0 {
        lemma_preorder_from_steps(doc, root, to, x, 0);
        assert(first_child(doc, x as int) == Some(cs[0]));
        assert(next_edge(doc, root, to, NodeEdge::Start(x)) == Some(NodeEdge::Start(cs[0])));
        lemma_steps_follow_concat(doc, root, to, s, pf);
        let last = cs[cs.len() - 1];
        lemma_child_below(doc, x, cs.len() - 1);
        lemma_ancestor_le(doc, root as int, x as int);
        lemma_children_increasing(doc, x as int);
        lemma_sibling_after_at(cs, cs.len() - 1);
        assert((s + pf).last() == pf.last());
        if last != to {
            assert(next_edge(doc, root, to, NodeEdge::End(last)) == Some(NodeEdge::End(x)));
        }
        lemma_steps_follow_concat(doc, root, to, s + pf, e);
    } else {
        assert(pf =~= Seq::<NodeEdge>::empty());
        assert(s + pf =~= s);
        assert(first_child(doc, x as int) is None);
        assert(next_edge(doc, root, to, NodeEdge::Start(x)) == Some(NodeEdge::End(x)));
        lemma_steps_follow_concat(doc, root, to, s, e);
    }
    assert((s + pf + e)[0] == NodeEdge::Start(x));
    assert((s + pf + e).last() == NodeEdge::End(x));
}

/// In the subtrees of the children of `p` from the `k`-th on, the walk goes
/// from each edge to the next; they start the `k`-th child and end the last.
proof fn lemma_preorder_from_steps(doc: Document, root: usize, to: usize, p: usize, k: int)
    requires
        doc.wf(),
        (p as int) < doc.nodes@.len(),
        is_ancestor(doc, root as int, p as int),
        0 <= k < children_of(doc, p as int).len(),
    ensures
        steps_follow(doc, root, to, preorder_from(doc, p as int, k)),
        preorder_from(doc, p as int, k).len() > 0,
        preorder_from(doc, p as int, k)[0] == NodeEdge::Start(children_of(doc, p as int)[k]),
        preorder_from(doc, p as int, k).last() == NodeEdge::End(
            children_of(doc, p as int)[children_of(doc, p as int).len() - 1],
        ),
    decreases doc.nodes@.len() - p, 0int, children_of(doc, p as int).len() - k,
{
    let cs = children_of(doc, p as int);
    let c = cs[k];
    lemma_child_below(doc, p, k);
    lemma_ancestor_trans(doc, root as int, p as int, c as int);
    lemma_preorder_from_parts(doc, p, k);
    lemma_preorder_steps(doc, root, to, c);
    let a = preorder(doc, c as int);
    let b = preorder_from(doc, p as int, k + 1);
    if k + 1 < cs.len() {
        lemma_preorder_from_steps(doc, root, to, p, k + 1);
        lemma_ancestor_le(doc, root as int, p as int);
        lemma_children_increasing(doc, p as int);
        lemma_sibling_after_at(cs, k);
        if c != to {
            assert(next_edge(doc, root, to, NodeEdge::End(c)) == Some(NodeEdge::Start(cs[k + 1])));
        }
        lemma_steps_follow_concat(doc, root, to, a, b);
        assert((a + b)[0] == a[0]);
        assert((a + b).last() == b.last());
    } else {
        assert(b =~= Seq::<NodeEdge>::empty());
        assert(a + b =~= a);
    }
}

/// Where the walk follows the edges of `s`, which ends with a stop, walking
/// from the `m`-th edge gives the edges up to the first stop.
proof fn lemma_walk_run(doc: Document, root: usize, to: usize, s: Seq<NodeEdge>, m: int, f: nat)
    requires
        steps_follow(doc, root, to, s),
        s.len() > 0,
        stops_at(s.last(), root, to),
        0 <= m < s.len(),
        f > s.len() - m,
    ensures
        m <= first_stop(s, m, root, to) < s.len(),
        walk(doc, root, to, Some(s[m]), f) == s.subrange(m, first_stop(s, m, root, to) + 1),
    decreases s.len() - m,
{
    let j = first_stop(s, m, root, to);
    if stops_at(s[m], root, to) {
        assert(next_edge(doc, root, to, s[m]) is None);
        assert(walk(doc, root, to, None, (f - 1) as nat) =~= Seq::<NodeEdge>::empty());
        assert(walk(doc, root, to, Some(s[m]), f) =~= s.subrange(m, j + 1));
    } else {
        assert(m < s.len() - 1) by {
            if m == s.len() - 1 {
                assert(s[m] == s.last());
            }
        }
        assert(next_edge(doc, root, to, s[m]) == Some(s[m + 1]));
        lemma_walk_run(doc, root, to, s, m + 1, (f - 1) as nat);
        assert(walk(doc, root, to, Some(s[m]), f) =~= s.subrange(m, j + 1));
    }
}

/// The walk over a range: from the start of any node `from` below `root`,
/// it gives the run of the preorder of `root` that begins with the start of
/// `from` and ends with the first end of `to` or of `root` after it.
pub proof fn lemma_range_is_run(doc: Document, root: usize, from: usize, to: usize)
    requires
        doc.wf(),
        (root as int) < doc.nodes@.len(),
        is_ancestor(doc, root as int, from as int),
    ensures
        ({
            let p = preorder(doc, root as int);
            exists|i: int|
                0 <= i < p.len() && p[i] == NodeEdge::Start(from) && i <= first_stop(p, i, root, to) < p.len()
                    && #[trigger] range_edges(doc, root, from, to) == p.subrange(
                    i,
                    first_stop(p, i, root, to) + 1,
                )
        }),
{
    let p = preorder(doc, root as int);
    let len = doc.nodes@.len() as int;
    lemma_ancestor_le(doc, root as int, from as int);
    lemma_preorder_steps(doc, root, to, root);
    lemma_preorder_count(doc, root);
    lemma_nodes_between(root, len);
    assert forall|y: usize| below(doc, root as int).contains(y) implies nodes_between(root, len).contains(y) by {
        lemma_ancestor_le(doc, root as int, y as int);
    }
    lemma_len_subset(below(doc, root as int), nodes_between(root, len));
    lemma_in_preorder(doc, root, from);
    let ids = start_ids(p);
    let jj = choose|jj: int| 0 <= jj < ids.len() && ids[jj] == from;
    lemma_start_ids_from(p);
    let i = choose|i: int| 0 <= i < p.len() && p[i] == NodeEdge::Start(ids[jj]);
    let fuel = (2 * doc.nodes@.len() + 2) as nat;
    lemma_walk_run(doc, root, to, p, i, fuel);
    assert(range_edges(doc, root, from, to) == walk(doc, root, to, Some(p[i]), fuel));
}

/// The first stop from `m` on is a stop, and no edge before it is, where the
/// last edge is one.
proof fn lemma_first_stop_facts(s: Seq<NodeEdge>, m: int, root: usize, to: usize)
    requires
        0 <= m < s.len(),
        stops_at(s.last(), root, to),
    ensures
        m <= first_stop(s, m, root, to) < s.len(),
        stops_at(s[first_stop(s, m, root, to)], root, to),
        forall|k: int| m <= k < first_stop(s, m, root, to) ==> !stops_at(#[trigger] s[k], root, to),
    decreases s.len() - m,
{
    if !stops_at(s[m], root, to) {
        if m == s.len() - 1 {
            assert(s[m] == s.last());
        }
        lemma_first_stop_facts(s, m + 1, root, to);
    }
}

/// What repeated calls of `Range::next` give on a range just made (its next
/// edge is the start of `from`): each step goes to the edge that follows in
/// the preorder of `root`, until the end of `to` or of `root`; the step after
/// that end gives nothing, and so does every later one.
pub proof fn lemma_range_steps(doc: Document, root: usize, from: usize, to: usize)
    requires
        doc.wf(),
        (root as int) < doc.nodes@.len(),
        is_ancestor(doc, root as int, from as int),
    ensures
        ({
            let p = preorder(doc, root as int);
            exists|i: int|
                #![trigger p[i]]
                0 <= i < p.len() && p[i] == NodeEdge::Start(from) && i <= first_stop(p, i, root, to) < p.len()
                    && (forall|k: int|
                    i <= k < first_stop(p, i, root, to) ==> #[trigger] next_edge(doc, root, to, p[k]) == Some(
                        p[k + 1],
                    )) && next_edge(doc, root, to, p[first_stop(p, i, root, to)]) is None
        }),
{
    let p = preorder(doc, root as int);
    lemma_ancestor_le(doc, root as int, from as int);
    lemma_preorder_steps(doc, root, to, root);
    lemma_in_preorder(doc, root, from);
    let ids = start_ids(p);
    let jj = choose|jj: int| 0 <= jj < ids.len() && ids[jj] == from;
    lemma_start_ids_from(p);
    let i = choose|i: int| 0 <= i < p.len() && p[i] == NodeEdge::Start(ids[jj]);
    lemma_first_stop_facts(p, i, root, to);
    let j = first_stop(p, i, root, to);
    assert forall|k: int| i <= k < j implies #[trigger] next_edge(doc, root, to, p[k]) == Some(p[k + 1]) by {
        assert(!stops_at(p[k], root, to));
    }
    assert(next_edge(doc, root, to, p[j]) is None);
}

/// The walk of a range is the run of the root's preorder from the start of
/// `from` to the first end of `to` or of the root after it.
proof fn lemma_range_run_bounds(doc: Document, root: usize, from: usize, to: usize) -> (ij: (int, int))
    requires
        doc.wf(),
        (root as int) < doc.nodes@.len(),
        is_ancestor(doc, root as int, from as int),
    ensures
        ({
            let p = preorder(doc, root as int);
            let (i, j) = ij;
            &&& 0 <= i <= j < p.len()
            &&& p[i] == NodeEdge::Start(from)
            &&& (p[j] == NodeEdge::End(to) || p[j] == NodeEdge::End(root))
            &&& forall|k: int| i <= k < j ==> #[trigger] p[k] != NodeEdge::End(to) && p[k] != NodeEdge::End(root)
            &&& range_edges(doc, root, from, to) == p.subrange(i, j + 1)
        }),
{
    let p = preorder(doc, root as int);
    lemma_range_is_run(doc, root, from, to);
    let i = choose|i: int|
        0 <= i < p.len() && p[i] == NodeEdge::Start(from) && i <= first_stop(p, i, root, to) < p.len()
            && #[trigger] range_edges(doc, root, from, to) == p.subrange(i, first_stop(p, i, root, to) + 1);
    lemma_ancestor_le(doc, root as int, from as int);
    lemma_preorder_steps(doc, root, to, root);
    lemma_first_stop_facts(p, i, root, to);
    let j = first_stop(p, i, root, to);
    assert forall|k: int| i <= k < j implies #[trigger] p[k] != NodeEdge::End(to) && p[k] != NodeEdge::End(root) by {
        assert(!stops_at(p[k], root, to));
    }
    (i, j)
}

/// Walking CFI steps from `cur` ends at `cur` or below it.
proof fn lemma_steps_walk_below(doc: Document, cur: int, res: Option<usize>, ss: Seq<Step>)
    requires
        doc.wf(),
        0 <= cur < doc.nodes@.len(),
        res matches Some(x) ==> x as int == cur,
    ensures
        steps_walk(doc, cur, res, ss) matches Some(x) ==> (x as int) < doc.nodes@.len() && is_ancestor(
            doc,
            cur,
            x as int,
        ),
    decreases ss.len(),
{
    if ss.len() == 0 {
        assert(is_ancestor(doc, cur, cur));
    } else {
        if let Some(k) = parse_usize(ss[0].integer@) {
            lemma_pick_is_child(doc, cur, k);
            if let Some(c) = pick(doc, cur, k) {
                lemma_steps_walk_below(doc, c as int, Some(c), ss.drop_first());
                assert(is_ancestor(doc, cur, cur));
                assert(is_ancestor(doc, cur, c as int));
                if let Some(x) = steps_walk(doc, c as int, Some(c), ss.drop_first()) {
                    lemma_ancestor_trans(doc, cur, c as int, x as int);
                }
            }
        }
    }
}

/// The text of a CFI fragment with a range whose start and end both lead
/// somewhere: the nodes of the range's root in document order, from the
/// start of the start node up to the first end of the end node (or of the
/// root, where the end node's end does not come after the start) —
/// the end node bounds the text, not the root alone.
pub proof fn lemma_fragment_range_run(doc: Document, n: usize, f: Fragment, c: usize, r: usize, s: usize, e: usize)
    requires
        doc.wf(),
        (n as int) < doc.nodes@.len(),
        first_child(doc, n as int) == Some(c),
        steps_walk(doc, c as int, None, f.path.local_path.steps@) == Some(r),
        f.range matches Some(rg) && steps_walk(doc, r as int, None, rg.start.steps@) == Some(s)
            && steps_walk(doc, r as int, None, rg.end.steps@) == Some(e),
    ensures
        ({
            let p = preorder(doc, r as int);
            exists|i: int, j: int|
                #![trigger p[i], p[j]]
                0 <= i <= j < p.len() && p[i] == NodeEdge::Start(s) && (p[j] == NodeEdge::End(e) || p[j]
                    == NodeEdge::End(r)) && (forall|k: int|
                    i <= k < j ==> #[trigger] p[k] != NodeEdge::End(e) && p[k] != NodeEdge::End(r))
                    && fragment_text(doc, Some(n), f) == edges_text(doc, p.subrange(i, j + 1))
        }),
{
    assert(doc.nodes@[n as int].children@[0] == c);
    lemma_steps_walk_below(doc, c as int, None, f.path.local_path.steps@);
    let rg = f.range->Some_0;
    lemma_steps_walk_below(doc, r as int, None, rg.start.steps@);
    let (i, j) = lemma_range_run_bounds(doc, r, s, e);
    let p = preorder(doc, r as int);
    assert(p[i] == NodeEdge::Start(s));
    assert(p[j] == p[j]);
}

/// The text between two CSS selector paths: the nodes of the root in
/// document order, from the start of the first node the start path leads to
/// (index 0, not any later one) up to the first end, after it, of the first
/// node the end path leads to, or of the root.
pub proof fn lemma_range_text_run(doc: Document, r: usize, from: Seq<usize>, to: Seq<usize>)
    requires
        doc.wf(),
        (r as int) < doc.nodes@.len(),
        from.len() > 0,
        to.len() > 0,
        is_ancestor(doc, r as int, from[0] as int),
    ensures
        ({
            let p = preorder(doc, r as int);
            exists|i: int, j: int|
                #![trigger p[i], p[j]]
                0 <= i <= j < p.len() && p[i] == NodeEdge::Start(from[0]) && (p[j] == NodeEdge::End(to[0])
                    || p[j] == NodeEdge::End(r)) && (forall|k: int|
                    i <= k < j ==> #[trigger] p[k] != NodeEdge::End(to[0]) && p[k] != NodeEdge::End(r))
                    && range_text(doc, Some(r), from, to) == edges_text(doc, p.subrange(i, j + 1))
        }),
{
    let (i, j) = lemma_range_run_bounds(doc, r, from[0], to[0]);
    let p = preorder(doc, r as int);
    assert(p[i] == NodeEdge::Start(from[0]));
    assert(p[j] == p[j]);
}

/// The text of a CFI fragment with no range: the whole subtree of the node
/// its path leads to, in document order (its preorder), written out.
pub proof fn lemma_fragment_path_text(doc: Document, n: usize, f: Fragment, c: usize, r: usize)
    requires
        doc.wf(),
        (n as int) < doc.nodes@.len(),
        first_child(doc, n as int) == Some(c),
        steps_walk(doc, c as int, None, f.path.local_path.steps@) == Some(r),
        f.range is None,
    ensures
        fragment_text(doc, Some(n), f) == edges_text(doc, preorder(doc, r as int)),
{
    assert(doc.nodes@[n as int].children@[0] == c);
    lemma_steps_walk_below(doc, c as int, None, f.path.local_path.steps@);
    lemma_range_is_preorder(doc, r);
}

} // verus!
