//! Selecting elements below a node: among all the elements of its subtree,
//! or step by step along a path of selectors, each step among the element
//! children of the nodes the previous one selected. Whether an element
//! matches a selector is answered by the caller.
use vstd::prelude::*;
use crate::element::{
    collect_range, edge_node, edges_fmt, edges_text, element_pred, range_edges, started_nodes,
    subtree, subtree_of, node_derefs, Document, ElementRef, NodeEdge,
};
use crate::locator::DOMRange;
use crate::node::Node;
use crate::publication::{keep, lemma_keep_members, lemma_select_members, select};
use crate::xmldoc::children_all;

verus! {

/// The pieces of `s` between spaces outside double quotes, the quotes
/// around a piece removed, as splitty's `split_unquoted_char(s, ' ')` with
/// `unwrap_quotes(true)` gives them.
pub uninterp spec fn unquoted_pieces(s: Seq<char>) -> Seq<Seq<char>>;

/// The pieces of `s` between unquoted spaces.
///
/// Calls splitty's `split_unquoted_char(s, ' ').unwrap_quotes(true)` and
/// copies each piece; the contract claims only that the pieces are the ones
/// named by `unquoted_pieces` for `s`.
#[verifier::external_body]
fn split_unquoted(s: &str) -> (r: Vec<String>)
    ensures
        r.deep_view() == unquoted_pieces(s@),
{
    splitty::split_unquoted_char(s, ' ').unwrap_quotes(true).map(String::from).collect()
}

/// The selectors of a path, in order: the pieces of `selector_str` between
/// unquoted spaces.
pub fn selector_path(selector_str: &str) -> (r: Vec<String>)
    ensures
        r.deep_view() == unquoted_pieces(selector_str@),
{
    split_unquoted(selector_str)
}

/// The elements of the subtree of `id`, in document order.
pub open spec fn element_candidates(doc: Document, id: Option<usize>) -> Seq<usize> {
    match id {
        Some(n) => keep(subtree(doc, n), element_pred(doc)),
        None => Seq::empty(),
    }
}

/// The elements among the children of `roots`, in order.
pub open spec fn child_elements(doc: Document, roots: Seq<usize>) -> Seq<usize> {
    keep(children_all(doc, roots), element_pred(doc))
}

/// The nodes a path leads to from `roots`, the answers of step `j` for the
/// child elements it looks at being `bss[j]`.
pub open spec fn path_nodes(doc: Document, roots: Seq<usize>, bss: Seq<Seq<bool>>) -> Seq<usize>
    decreases bss.len(),
{
    if bss.len() == 0 {
        roots
    } else {
        select(child_elements(doc, path_nodes(doc, roots, bss.drop_last())), bss.last())
    }
}

/// The node a reference starts a path from, if any.
pub open spec fn start_of(id: Option<usize>) -> Seq<usize> {
    match id {
        Some(n) => seq![n],
        None => Seq::empty(),
    }
}

/// The nodes started in the walk from `from` to `to` below `root`.
pub open spec fn range_nodes(doc: Document, root: Option<usize>, from: Seq<usize>, to: Seq<usize>) -> Seq<Node> {
    match root {
        Some(r) => if from.len() > 0 && to.len() > 0 {
            started_nodes(doc, range_edges(doc, r, from[0], to[0]))
        } else {
            Seq::empty()
        },
        None => Seq::empty(),
    }
}

/// The walk from `from` to `to` below `root`, written out.
pub open spec fn range_text(doc: Document, root: Option<usize>, from: Seq<usize>, to: Seq<usize>) -> Seq<char> {
    match root {
        Some(r) => if from.len() > 0 && to.len() > 0 {
            edges_text(doc, range_edges(doc, r, from[0], to[0]))
        } else {
            Seq::empty()
        },
        None => Seq::empty(),
    }
}

/// Node `n` and all below it, written out.
pub open spec fn subtree_text(doc: Document, n: usize) -> Seq<char> {
    edges_text(doc, range_edges(doc, n, n, n))
}

/// Whether `bss` are answers `f` may give along a path of `k` steps from
/// `roots`: for step `j`, one answer for each child element it looks at,
/// asked with the index of the step and the element.
pub open spec fn path_answers<F: Fn(usize, usize) -> bool>(
    f: F,
    doc: Document,
    roots: Seq<usize>,
    k: nat,
    bss: Seq<Seq<bool>>,
) -> bool {
    &&& bss.len() == k
    &&& forall|j: int|
        0 <= j < k ==> (#[trigger] bss[j]).len() == child_elements(
            doc,
            path_nodes(doc, roots, bss.take(j)),
        ).len()
    &&& forall|j: int, i: int|
        0 <= j < k && 0 <= i < bss[j].len() ==> f.ensures(
            (j as usize, child_elements(doc, path_nodes(doc, roots, bss.take(j)))[i]),
            #[trigger] bss[j][i],
        )
}

/// Whatever the answers, a selection below a node holds only elements of
/// the document, each in the subtree of that node.
pub proof fn lemma_selected_are_elements(doc: Document, id: Option<usize>, bs: Seq<bool>)
    ensures
        forall|j: int|
            0 <= j < select(element_candidates(doc, id), bs).len() ==> {
                let c = #[trigger] select(element_candidates(doc, id), bs)[j];
                &&& doc.nodes@[c as int].node is Element
                &&& id matches Some(n) && subtree(doc, n).contains(c)
            },
{
    lemma_select_members(element_candidates(doc, id), bs);
    if let Some(n) = id {
        lemma_keep_members(subtree(doc, n), element_pred(doc));
        assert forall|j: int|
            0 <= j < select(element_candidates(doc, id), bs).len() implies {
                let c = #[trigger] select(element_candidates(doc, id), bs)[j];
                &&& doc.nodes@[c as int].node is Element
                &&& id matches Some(n) && subtree(doc, n).contains(c)
            } by {
            let c = select(element_candidates(doc, id), bs)[j];
            let cands = element_candidates(doc, id);
            let w = choose|w: int| 0 <= w < cands.len() && cands[w] == c;
            assert(element_pred(doc)(cands[w]));
            assert(subtree(doc, n).contains(cands[w]));
        }
    } else {
        assert(element_candidates(doc, id) =~= Seq::<usize>::empty());
        assert(select(Seq::<usize>::empty(), bs) =~= Seq::<usize>::empty());
    }
}

/// The element children of `roots`, in order.
fn child_elements_of(doc: &Document, roots: &Vec<usize>) -> (r: Vec<usize>)
    requires
        doc.wf(),
        forall|i: int| 0 <= i < roots@.len() ==> #[trigger] roots@[i] < doc.nodes@.len(),
    ensures
        r@ == child_elements(*doc, roots@),
        forall|i: int| 0 <= i < r@.len() ==> #[trigger] r@[i] < doc.nodes@.len(),
{
    let ghost p = element_pred(*doc);
    let mut out: Vec<usize> = Vec::new();
    let mut i: usize = 0;
    while i < roots.len()
        invariant
            0 <= i <= roots.len(),
            doc.wf(),
            p == element_pred(*doc),
            forall|k: int| 0 <= k < roots@.len() ==> #[trigger] roots@[k] < doc.nodes@.len(),
            out@ == keep(children_all(*doc, roots@.take(i as int)), p),
            forall|k: int| 0 <= k < out@.len() ==> #[trigger] out@[k] < doc.nodes@.len(),
        decreases roots.len() - i,
    {
        let n = roots[i];
        assert(roots@.take(i + 1).drop_last() =~= roots@.take(i as int));
        assert(roots@.take(i + 1).last() == n);
        let kids = &doc.nodes[n].children;
        let ghost before = children_all(*doc, roots@.take(i as int));
        let mut j: usize = 0;
        while j < kids.len()
            invariant
                0 <= j <= kids.len(),
                n < doc.nodes@.len(),
                doc.wf(),
                p == element_pred(*doc),
                kids == &doc.nodes@[n as int].children,
                out@ == keep(before + kids@.take(j as int), p),
                forall|k: int| 0 <= k < out@.len() ==> #[trigger] out@[k] < doc.nodes@.len(),
            decreases kids.len() - j,
        {
            let c = kids[j];
            assert(doc.nodes@[n as int].children@[j as int] == c);
            assert((before + kids@.take(j + 1)).drop_last() =~= before + kids@.take(j as int));
            assert((before + kids@.take(j + 1)).last() == c);
            if doc.nodes[c].node.is_element() {
                out.push(c);
            }
            j = j + 1;
        }
        assert(kids@.take(kids.len() as int) =~= kids@);
        i = i + 1;
    }
    assert(roots@.take(roots.len() as int) =~= roots@);
    out
}

impl<'a> ElementRef<'a> {
    /// The elements of the subtree of the referenced node (itself first),
    /// in document order, for which `matches` answers true.
    pub fn select_ids<F>(&self, matches: F) -> (r: Vec<usize>) where F: Fn(usize) -> bool
        requires
            self.wf(),
            forall|c: usize| #[trigger] matches.requires((c,)),
        ensures
            forall|i: int| 0 <= i < r@.len() ==> #[trigger] r@[i] < self.doc.nodes@.len(),
            exists|bs: Seq<bool>|
                bs.len() == element_candidates(*self.doc, self.id).len() && (forall|i: int|
                    0 <= i < bs.len() ==> matches.ensures(
                        (element_candidates(*self.doc, self.id)[i],),
                        #[trigger] bs[i],
                    )) && r@ == select(element_candidates(*self.doc, self.id), bs),
    {
        let mut out: Vec<usize> = Vec::new();
        match self.id {
            None => {
                let ghost w = Seq::<bool>::empty();
                assert(w.len() == element_candidates(*self.doc, self.id).len() && (forall|i: int|
                    0 <= i < w.len() ==> matches.ensures(
                        (element_candidates(*self.doc, self.id)[i],),
                        #[trigger] w[i],
                    )) && out@ == select(element_candidates(*self.doc, self.id), w));
                out
            },
            Some(n) => {
                let ids = subtree_of(self.doc, n);
                let ghost p = element_pred(*self.doc);
                let ghost mut bs: Seq<bool> = Seq::empty();
                let mut i: usize = 0;
                while i < ids.len()
                    invariant
                        0 <= i <= ids.len(),
                        self.wf(),
                        self.id == Some(n),
                        ids@ == subtree(*self.doc, n),
                        forall|k: int| 0 <= k < ids@.len() ==> #[trigger] ids@[k] < self.doc.nodes@.len(),
                        p == element_pred(*self.doc),
                        forall|c: usize| #[trigger] matches.requires((c,)),
                        bs.len() == keep(ids@.take(i as int), p).len(),
                        forall|k: int|
                            0 <= k < bs.len() ==> matches.ensures(
                                (keep(ids@.take(i as int), p)[k],),
                                #[trigger] bs[k],
                            ),
                        out@ == select(keep(ids@.take(i as int), p), bs),
                        forall|k: int| 0 <= k < out@.len() ==> #[trigger] out@[k] < self.doc.nodes@.len(),
                    decreases ids.len() - i,
                {
                    let c = ids[i];
                    let ghost before = keep(ids@.take(i as int), p);
                    assert(ids@.take(i + 1).drop_last() =~= ids@.take(i as int));
                    assert(ids@.take(i + 1).last() == c);
                    if self.doc.nodes[c].node.is_element() {
                        assert(keep(ids@.take(i + 1), p) == before.push(c));
                        let b = matches(c);
                        let ghost old_bs = bs;
                        proof {
                            bs = bs.push(b);
                        }
                        assert(bs.drop_last() =~= old_bs);
                        assert(before.push(c).drop_last() =~= before);
                        if b {
                            out.push(c);
                        }
                        assert forall|k: int|
                            0 <= k < bs.len() implies matches.ensures(
                            (keep(ids@.take(i + 1), p)[k],),
                            #[trigger] bs[k],
                        ) by {
                            if k < old_bs.len() {
                                assert(bs[k] == old_bs[k]);
                                assert(before.push(c)[k] == before[k]);
                            }
                        }
                    } else {
                        assert(keep(ids@.take(i + 1), p) == before);
                    }
                    i = i + 1;
                }
                assert(ids@.take(ids.len() as int) =~= ids@);
                assert(element_candidates(*self.doc, self.id) == keep(ids@, p));
                assert(bs.len() == element_candidates(*self.doc, self.id).len() && (forall|k: int|
                    0 <= k < bs.len() ==> matches.ensures(
                        (element_candidates(*self.doc, self.id)[k],),
                        #[trigger] bs[k],
                    )) && out@ == select(element_candidates(*self.doc, self.id), bs));
                out
            },
        }
    }

    /// The elements of the subtree for which `matches` answers true, as
    /// nodes.
    pub fn select<F>(&self, matches: F) -> (r: Vec<&'a Node>) where F: Fn(usize) -> bool
        requires
            self.wf(),
            forall|c: usize| #[trigger] matches.requires((c,)),
        ensures
            exists|bs: Seq<bool>|
                bs.len() == element_candidates(*self.doc, self.id).len() && (forall|i: int|
                    0 <= i < bs.len() ==> matches.ensures(
                        (element_candidates(*self.doc, self.id)[i],),
                        #[trigger] bs[i],
                    )) && node_derefs(r@) == select(element_candidates(*self.doc, self.id), bs).map_values(
                    |id: usize| self.doc.nodes@[id as int].node,
                ),
    {
        let ids = self.select_ids(matches);
        let mut out: Vec<&'a Node> = Vec::new();
        let mut i: usize = 0;
        while i < ids.len()
            invariant
                0 <= i <= ids.len(),
                forall|k: int| 0 <= k < ids@.len() ==> #[trigger] ids@[k] < self.doc.nodes@.len(),
                node_derefs(out@) == ids@.take(i as int).map_values(|id: usize| self.doc.nodes@[id as int].node),
            decreases ids.len() - i,
        {
            let ghost before = node_derefs(out@);
            out.push(&self.doc.nodes[ids[i]].node);
            assert(node_derefs(out@) =~= before.push(self.doc.nodes@[ids@[i as int] as int].node));
            assert(ids@.take(i + 1).map_values(|id: usize| self.doc.nodes@[id as int].node) =~= ids@.take(
                i as int,
            ).map_values(|id: usize| self.doc.nodes@[id as int].node).push(
                self.doc.nodes@[ids@[i as int] as int].node,
            ));
            i = i + 1;
        }
        assert(ids@.take(ids.len() as int) =~= ids@);
        out
    }

    /// Each element of the subtree for which `matches` answers true, written
    /// out with all below it.
    pub fn select_fmt<F>(&self, matches: F) -> (r: Vec<String>) where F: Fn(usize) -> bool
        requires
            self.wf(),
            forall|c: usize| #[trigger] matches.requires((c,)),
        ensures
            exists|bs: Seq<bool>|
                bs.len() == element_candidates(*self.doc, self.id).len() && (forall|i: int|
                    0 <= i < bs.len() ==> matches.ensures(
                        (element_candidates(*self.doc, self.id)[i],),
                        #[trigger] bs[i],
                    )) && r.deep_view() == select(element_candidates(*self.doc, self.id), bs).map_values(
                    |id: usize| subtree_text(*self.doc, id),
                ),
    {
        let ids = self.select_ids(matches);
        self.fmt_all(&ids)
    }

    /// As `select_fmt`.
    pub fn select_fmt_alt<F>(&self, matches: F) -> (r: Vec<String>) where F: Fn(usize) -> bool
        requires
            self.wf(),
            forall|c: usize| #[trigger] matches.requires((c,)),
        ensures
            exists|bs: Seq<bool>|
                bs.len() == element_candidates(*self.doc, self.id).len() && (forall|i: int|
                    0 <= i < bs.len() ==> matches.ensures(
                        (element_candidates(*self.doc, self.id)[i],),
                        #[trigger] bs[i],
                    )) && r.deep_view() == select(element_candidates(*self.doc, self.id), bs).map_values(
                    |id: usize| subtree_text(*self.doc, id),
                ),
    {
        self.select_fmt(matches)
    }

    /// The nodes a path of selectors leads to: starting from the referenced
    /// node, each selector of `selector_str` (see `selector_path`) keeps the
    /// element children of the nodes kept so far for which `matches`,
    /// asked with the index of the selector and the element, answers true.
    pub fn select_ids_with_path<F>(&self, selector_str: &str, matches: F) -> (r: Vec<usize>) where
        F: Fn(usize, usize) -> bool,
        requires
            self.wf(),
            forall|j: usize, c: usize| #[trigger] matches.requires((j, c)),
        ensures
            forall|i: int| 0 <= i < r@.len() ==> #[trigger] r@[i] < self.doc.nodes@.len(),
            exists|bss: Seq<Seq<bool>>|
                path_answers(
                    matches,
                    *self.doc,
                    start_of(self.id),
                    unquoted_pieces(selector_str@).len(),
                    bss,
                ) && r@ == path_nodes(*self.doc, start_of(self.id), bss),
    {
        let pieces = split_unquoted(selector_str);
        let n = pieces.len();
        let mut roots: Vec<usize> = Vec::new();
        if let Some(id) = self.id {
            roots.push(id);
        }
        let ghost roots0 = roots@;
        assert(roots0 =~= start_of(self.id));
        let ghost mut bss: Seq<Seq<bool>> = Seq::empty();
        let mut j: usize = 0;
        while j < n
            invariant
                0 <= j <= n,
                n == unquoted_pieces(selector_str@).len(),
                self.wf(),
                forall|a: usize, c: usize| #[trigger] matches.requires((a, c)),
                roots0 == start_of(self.id),
                path_answers(matches, *self.doc, roots0, j as nat, bss),
                roots@ == path_nodes(*self.doc, roots0, bss),
                forall|k: int| 0 <= k < roots@.len() ==> #[trigger] roots@[k] < self.doc.nodes@.len(),
            decreases n - j,
        {
            let cands = child_elements_of(self.doc, &roots);
            let mut next: Vec<usize> = Vec::new();
            let ghost mut bs: Seq<bool> = Seq::empty();
            let mut i: usize = 0;
            while i < cands.len()
                invariant
                    0 <= i <= cands.len(),
                    forall|a: usize, c: usize| #[trigger] matches.requires((a, c)),
                    forall|k: int| 0 <= k < cands@.len() ==> #[trigger] cands@[k] < self.doc.nodes@.len(),
                    bs.len() == i,
                    forall|k: int| 0 <= k < i ==> matches.ensures((j, cands@[k]), #[trigger] bs[k]),
                    next@ == select(cands@.take(i as int), bs),
                    forall|k: int| 0 <= k < next@.len() ==> #[trigger] next@[k] < self.doc.nodes@.len(),
                decreases cands.len() - i,
            {
                let c = cands[i];
                let b = matches(j, c);
                let ghost old_bs = bs;
                proof {
                    bs = bs.push(b);
                }
                assert(bs.drop_last() =~= old_bs);
                assert(cands@.take(i + 1).drop_last() =~= cands@.take(i as int));
                assert(cands@.take(i + 1).last() == c);
                if b {
                    next.push(c);
                }
                assert forall|k: int| 0 <= k < i + 1 implies matches.ensures(
                    (j, cands@[k]),
                    #[trigger] bs[k],
                ) by {
                    if k < i {
                        assert(bs[k] == old_bs[k]);
                    }
                }
                i = i + 1;
            }
            assert(cands@.take(cands.len() as int) =~= cands@);
            let ghost old_bss = bss;
            proof {
                bss = bss.push(bs);
                assert(bss.drop_last() =~= old_bss);
                assert(bss.take(j as int) =~= old_bss);
                assert forall|a: int|
                    0 <= a < j + 1 implies (#[trigger] bss[a]).len() == child_elements(
                    *self.doc,
                    path_nodes(*self.doc, roots0, bss.take(a)),
                ).len() by {
                    if a < j {
                        assert(bss.take(a) =~= old_bss.take(a));
                        assert(bss[a] == old_bss[a]);
                    }
                }
                assert forall|a: int, k: int|
                    0 <= a < j + 1 && 0 <= k < bss[a].len() implies matches.ensures(
                    (a as usize, child_elements(*self.doc, path_nodes(*self.doc, roots0, bss.take(a)))[k]),
                    #[trigger] bss[a][k],
                ) by {
                    if a < j {
                        assert(bss.take(a) =~= old_bss.take(a));
                        assert(bss[a] == old_bss[a]);
                    } else {
                        assert(bss[a] == bs);
                    }
                }
            }
            roots = next;
            j = j + 1;
        }
        roots
    }

    /// The nodes a path of selectors leads to (see `select_ids_with_path`),
    /// each written out with all below it.
    pub fn select_with_path<F>(&self, selector_str: &str, matches: F) -> (r: Vec<String>) where
        F: Fn(usize, usize) -> bool,
        requires
            self.wf(),
            forall|j: usize, c: usize| #[trigger] matches.requires((j, c)),
        ensures
            exists|bss: Seq<Seq<bool>>|
                path_answers(
                    matches,
                    *self.doc,
                    start_of(self.id),
                    unquoted_pieces(selector_str@).len(),
                    bss,
                ) && r.deep_view() == path_nodes(*self.doc, start_of(self.id), bss).map_values(
                    |id: usize| subtree_text(*self.doc, id),
                ),
    {
        let ids = self.select_ids_with_path(selector_str, matches);
        self.fmt_all(&ids)
    }

    /// The nodes started in the walk below the referenced node from the
    /// first node the path of the range's start selector leads to, to the
    /// first one the path of its end selector leads to; `start_matches` and
    /// `end_matches` answer for the selectors of each path.
    pub fn select_nodes_with_range<F, G>(&self, range: &DOMRange, start_matches: F, end_matches: G) -> (r:
        Vec<&'a Node>) where F: Fn(usize, usize) -> bool, G: Fn(usize, usize) -> bool,
        requires
            self.wf(),
            forall|j: usize, c: usize| #[trigger] start_matches.requires((j, c)),
            forall|j: usize, c: usize| #[trigger] end_matches.requires((j, c)),
        ensures
            exists|b1: Seq<Seq<bool>>, b2: Seq<Seq<bool>>|
                path_answers(
                    start_matches,
                    *self.doc,
                    start_of(self.id),
                    unquoted_pieces(range.start.css_selector@).len(),
                    b1,
                ) && path_answers(
                    end_matches,
                    *self.doc,
                    start_of(self.id),
                    unquoted_pieces(range.end.css_selector@).len(),
                    b2,
                ) && node_derefs(r@) == range_nodes(
                    *self.doc,
                    self.id,
                    path_nodes(*self.doc, start_of(self.id), b1),
                    path_nodes(*self.doc, start_of(self.id), b2),
                ),
    {
        let from = self.select_ids_with_path(range.start.css_selector.as_str(), start_matches);
        let to = self.select_ids_with_path(range.end.css_selector.as_str(), end_matches);
        let r = self.nodes_between(&from, &to);
        proof {
            let b1 = choose|b1: Seq<Seq<bool>>|
                path_answers(
                    start_matches,
                    *self.doc,
                    start_of(self.id),
                    unquoted_pieces(range.start.css_selector@).len(),
                    b1,
                ) && from@ == path_nodes(*self.doc, start_of(self.id), b1);
            let b2 = choose|b2: Seq<Seq<bool>>|
                path_answers(
                    end_matches,
                    *self.doc,
                    start_of(self.id),
                    unquoted_pieces(range.end.css_selector@).len(),
                    b2,
                ) && to@ == path_nodes(*self.doc, start_of(self.id), b2);
            assert(path_answers(
                start_matches,
                *self.doc,
                start_of(self.id),
                unquoted_pieces(range.start.css_selector@).len(),
                b1,
            ) && path_answers(
                end_matches,
                *self.doc,
                start_of(self.id),
                unquoted_pieces(range.end.css_selector@).len(),
                b2,
            ) && node_derefs(r@) == range_nodes(
                *self.doc,
                self.id,
                path_nodes(*self.doc, start_of(self.id), b1),
                path_nodes(*self.doc, start_of(self.id), b2),
            ));
        }
        r
    }

    /// The nodes started in the walk below the referenced node from the
    /// first of `from` to the first of `to`.
    fn nodes_between(&self, from: &Vec<usize>, to: &Vec<usize>) -> (r: Vec<&'a Node>)
        requires
            self.wf(),
            forall|k: int| 0 <= k < from@.len() ==> #[trigger] from@[k] < self.doc.nodes@.len(),
            forall|k: int| 0 <= k < to@.len() ==> #[trigger] to@[k] < self.doc.nodes@.len(),
        ensures
            node_derefs(r@) == range_nodes(*self.doc, self.id, from@, to@),
    {
        let mut result: Vec<&'a Node> = Vec::new();
        if from.len() > 0 && to.len() > 0 {
            if let Some(root) = self.id {
                let es = collect_range(self.doc, root, from[0], to[0]);
                let mut i: usize = 0;
                while i < es.len()
                    invariant
                        0 <= i <= es.len(),
                        forall|k: int| 0 <= k < es@.len() ==> edge_node(#[trigger] es@[k]) < self.doc.nodes@.len(),
                        node_derefs(result@) == started_nodes(*self.doc, es@.take(i as int)),
                    decreases es.len() - i,
                {
                    assert(es@.take(i + 1).drop_last() =~= es@.take(i as int));
                    assert(es@.take(i + 1).last() == es@[i as int]);
                    let ghost before = node_derefs(result@);
                    match es[i] {
                        NodeEdge::Start(n) => {
                            assert(edge_node(es@[i as int]) == n);
                            result.push(&self.doc.nodes[n].node);
                            assert(node_derefs(result@) =~= before + seq![self.doc.nodes@[n as int].node]);
                        },
                        NodeEdge::End(_) => {
                            assert(before + Seq::<Node>::empty() =~= before);
                        },
                    }
                    i = i + 1;
                }
                assert(es@.take(es.len() as int) =~= es@);
                return result;
            }
        }
        assert(node_derefs(result@) =~= Seq::<Node>::empty());
        result
    }

    /// The walk of `select_nodes_with_range`, written out: each node at its
    /// start and at its end.
    pub fn select_nodes_with_range_fmt<F, G>(&self, range: &DOMRange, start_matches: F, end_matches: G) -> (r:
        String) where F: Fn(usize, usize) -> bool, G: Fn(usize, usize) -> bool,
        requires
            self.wf(),
            forall|j: usize, c: usize| #[trigger] start_matches.requires((j, c)),
            forall|j: usize, c: usize| #[trigger] end_matches.requires((j, c)),
        ensures
            exists|b1: Seq<Seq<bool>>, b2: Seq<Seq<bool>>|
                path_answers(
                    start_matches,
                    *self.doc,
                    start_of(self.id),
                    unquoted_pieces(range.start.css_selector@).len(),
                    b1,
                ) && path_answers(
                    end_matches,
                    *self.doc,
                    start_of(self.id),
                    unquoted_pieces(range.end.css_selector@).len(),
                    b2,
                ) && r@ == range_text(
                    *self.doc,
                    self.id,
                    path_nodes(*self.doc, start_of(self.id), b1),
                    path_nodes(*self.doc, start_of(self.id), b2),
                ),
    {
        let from = self.select_ids_with_path(range.start.css_selector.as_str(), start_matches);
        let to = self.select_ids_with_path(range.end.css_selector.as_str(), end_matches);
        let r = self.text_between(&from, &to);
        proof {
            let b1 = choose|b1: Seq<Seq<bool>>|
                path_answers(
                    start_matches,
                    *self.doc,
                    start_of(self.id),
                    unquoted_pieces(range.start.css_selector@).len(),
                    b1,
                ) && from@ == path_nodes(*self.doc, start_of(self.id), b1);
            let b2 = choose|b2: Seq<Seq<bool>>|
                path_answers(
                    end_matches,
                    *self.doc,
                    start_of(self.id),
                    unquoted_pieces(range.end.css_selector@).len(),
                    b2,
                ) && to@ == path_nodes(*self.doc, start_of(self.id), b2);
            assert(path_answers(
                start_matches,
                *self.doc,
                start_of(self.id),
                unquoted_pieces(range.start.css_selector@).len(),
                b1,
            ) && path_answers(
                end_matches,
                *self.doc,
                start_of(self.id),
                unquoted_pieces(range.end.css_selector@).len(),
                b2,
            ) && r@ == range_text(
                *self.doc,
                self.id,
                path_nodes(*self.doc, start_of(self.id), b1),
                path_nodes(*self.doc, start_of(self.id), b2),
            ));
        }
        r
    }

    /// The walk below the referenced node from the first of `from` to the
    /// first of `to`, written out.
    fn text_between(&self, from: &Vec<usize>, to: &Vec<usize>) -> (r: String)
        requires
            self.wf(),
            forall|k: int| 0 <= k < from@.len() ==> #[trigger] from@[k] < self.doc.nodes@.len(),
            forall|k: int| 0 <= k < to@.len() ==> #[trigger] to@[k] < self.doc.nodes@.len(),
        ensures
            r@ == range_text(*self.doc, self.id, from@, to@),
    {
        if from.len() > 0 && to.len() > 0 {
            if let Some(root) = self.id {
                let es = collect_range(self.doc, root, from[0], to[0]);
                return edges_fmt(self.doc, &es);
            }
        }
        proof {
            reveal_strlit("");
        }
        String::new()
    }

    /// Each of `ids` written out with all below it.
    fn fmt_all(&self, ids: &Vec<usize>) -> (r: Vec<String>)
        requires
            self.doc.wf(),
            forall|k: int| 0 <= k < ids@.len() ==> #[trigger] ids@[k] < self.doc.nodes@.len(),
        ensures
            r.deep_view() == ids@.map_values(|id: usize| subtree_text(*self.doc, id)),
    {
        let mut out: Vec<String> = Vec::new();
        let mut i: usize = 0;
        while i < ids.len()
            invariant
                0 <= i <= ids.len(),
                self.doc.wf(),
                forall|k: int| 0 <= k < ids@.len() ==> #[trigger] ids@[k] < self.doc.nodes@.len(),
                out.deep_view() == ids@.take(i as int).map_values(|id: usize| subtree_text(*self.doc, id)),
            decreases ids.len() - i,
        {
            let s = self.fmt_node(ids[i]);
            let ghost before = out.deep_view();
            out.push(s);
            assert(out.deep_view() =~= before.push(s@));
            assert(out.deep_view() =~= ids@.take(i + 1).map_values(|id: usize| subtree_text(*self.doc, id)));
            i = i + 1;
        }
        assert(ids@.take(ids.len() as int) =~= ids@);
        out
    }
}

} // verus!
