//! Documents read from XML: a tree of nodes with its root, and sets of its
//! nodes to navigate by children, descendants and element names.
use vstd::prelude::*;
use crate::element::{Document as Tree, children_of, element_pred, subtree, subtree_of};
use crate::node::{Element, Node};
use crate::publication::{first_index, keep, lemma_first_index, select};
use crate::strings::{concat_str, debug_str, str_debug, str_eq};

verus! {

/// An error met while reading a document.
pub struct XMLError {
    pub error: String,
}

/// A test that a reader applies to the nodes it meets.
pub trait Filter<N> {
    /// Whether the node passes.
    fn filter(&self, n: &N) -> bool;
}

/// The children of each node of `ns`, in order.
pub open spec fn children_all(doc: Tree, ns: Seq<usize>) -> Seq<usize>
    decreases ns.len(),
{
    if ns.len() == 0 {
        Seq::empty()
    } else {
        children_all(doc, ns.drop_last()) + children_of(doc, ns.last() as int)
    }
}

/// The subtree of each node of `ns`, in order.
pub open spec fn subtrees_all(doc: Tree, ns: Seq<usize>) -> Seq<usize>
    decreases ns.len(),
{
    if ns.len() == 0 {
        Seq::empty()
    } else {
        subtrees_all(doc, ns.drop_last()) + subtree(doc, ns.last())
    }
}

/// Whether a node is an element of local name `tag`.
pub open spec fn named(doc: Tree, tag: Seq<char>) -> spec_fn(usize) -> bool {
    |n: usize| doc.nodes@[n as int].node matches Node::Element(e) && e@.name.local == tag
}

/// The message for an element that is not found.
pub open spec fn not_found_text(tag: Seq<char>) -> Seq<char> {
    "Not found "@ + str_debug(tag)
}

/// A document: its tree and the root of it, if it has one.
pub struct Document {
    pub tree: Tree,
    pub root: Option<usize>,
}

impl Document {
    /// The tree is well formed and the root is one of its nodes.
    pub open spec fn wf(&self) -> bool {
        &&& self.tree.wf()
        &&& self.root matches Some(r) ==> r < self.tree.nodes@.len()
    }

    /// The index in the subtree of the root of the first element named
    /// `tag`.
    pub open spec fn first_named(&self, tag: Seq<char>) -> Option<(usize, int)> {
        match self.root {
            Some(r) => match first_index(subtree(self.tree, r), named(self.tree, tag)) {
                Some(i) => Some((subtree(self.tree, r)[i], i)),
                None => None,
            },
            None => None,
        }
    }

    fn find_id(&self, tag: &str) -> (r: Option<usize>)
        requires
            self.wf(),
        ensures
            match self.first_named(tag@) {
                Some((n, _)) => r == Some(n) && n < self.tree.nodes@.len() && named(self.tree, tag@)(n),
                None => r is None,
            },
    {
        match self.root {
            None => None,
            Some(root) => {
                let ids = subtree_of(&self.tree, root);
                let ghost p = named(self.tree, tag@);
                let mut i: usize = 0;
                while i < ids.len()
                    invariant
                        0 <= i <= ids.len(),
                        self.wf(),
                        self.root == Some(root),
                        ids@ == subtree(self.tree, root),
                        forall|k: int| 0 <= k < ids@.len() ==> #[trigger] ids@[k] < self.tree.nodes@.len(),
                        p == named(self.tree, tag@),
                        forall|j: int| 0 <= j < i ==> !p(#[trigger] ids@[j]),
                    decreases ids.len() - i,
                {
                    let n = ids[i];
                    let found = match self.tree.nodes[n].node.as_element() {
                        Some(e) => str_eq(e.name(), tag),
                        None => false,
                    };
                    if found {
                        proof {
                            lemma_first_index(ids@, p, i as int);
                        }
                        return Some(n);
                    }
                    i = i + 1;
                }
                proof {
                    lemma_first_index(ids@, p, i as int);
                }
                None
            },
        }
    }

    /// The first element named `tag` below the root, in document order.
    pub fn find_element(&self, tag: &str) -> (r: Result<&Element, XMLError>)
        requires
            self.wf(),
        ensures
            match self.first_named(tag@) {
                Some((n, _)) => r matches Ok(e) && self.tree.nodes@[n as int].node == Node::Element(*e),
                None => r matches Err(x) && x.error@ == not_found_text(tag@),
            },
    {
        match self.find_id(tag) {
            Some(n) => match self.tree.nodes[n].node.as_element() {
                Some(e) => Ok(e),
                None => Err(XMLError { error: concat_str("Not found ", debug_str(tag).as_str()) }),
            },
            None => {
                proof {
                    reveal_strlit("Not found ");
                }
                Err(XMLError { error: concat_str("Not found ", debug_str(tag).as_str()) })
            },
        }
    }

    /// The set holding the first element named `tag` below the root.
    pub fn find<'a>(&'a self, tag: &str) -> (r: Result<NodeSet<'a>, XMLError>)
        requires
            self.wf(),
        ensures
            match self.first_named(tag@) {
                Some((n, _)) => r matches Ok(s) && s.wf() && s.document == self && s.nodes@ == seq![n],
                None => r matches Err(x) && x.error@ == not_found_text(tag@),
            },
    {
        match self.find_id(tag) {
            Some(n) => {
                let nodes: Vec<usize> = vec![n];
                Ok(NodeSet { document: self, nodes })
            },
            None => {
                proof {
                    reveal_strlit("Not found ");
                }
                Err(XMLError { error: concat_str("Not found ", debug_str(tag).as_str()) })
            },
        }
    }
}

/// Nodes of a document.
pub struct NodeSet<'a> {
    pub document: &'a Document,
    pub nodes: Vec<usize>,
}

impl<'a> NodeSet<'a> {
    /// The document is well formed and the nodes are nodes of it.
    pub open spec fn wf(&self) -> bool {
        &&& self.document.wf()
        &&& forall|i: int| 0 <= i < self.nodes@.len() ==> #[trigger] self.nodes@[i] < self.document.tree.nodes@.len()
    }

    /// The children of the nodes, in order.
    pub fn children(&self) -> (r: Self)
        requires
            self.wf(),
        ensures
            r.wf(),
            r.document == self.document,
            r.nodes@ == children_all(self.document.tree, self.nodes@),
    {
        let tree = &self.document.tree;
        let mut out: Vec<usize> = Vec::new();
        let mut i: usize = 0;
        while i < self.nodes.len()
            invariant
                0 <= i <= self.nodes.len(),
                self.wf(),
                tree == &self.document.tree,
                out@ == children_all(*tree, self.nodes@.take(i as int)),
                forall|k: int| 0 <= k < out@.len() ==> #[trigger] out@[k] < tree.nodes@.len(),
            decreases self.nodes.len() - i,
        {
            let n = self.nodes[i];
            assert(self.nodes@.take(i + 1).drop_last() =~= self.nodes@.take(i as int));
            let kids = &tree.nodes[n].children;
            let ghost before = out@;
            let mut j: usize = 0;
            while j < kids.len()
                invariant
                    0 <= j <= kids.len(),
                    n < tree.nodes@.len(),
                    tree.wf(),
                    kids == &tree.nodes@[n as int].children,
                    out@ == before + kids@.take(j as int),
                    forall|k: int| 0 <= k < out@.len() ==> #[trigger] out@[k] < tree.nodes@.len(),
                decreases kids.len() - j,
            {
                assert(kids@[j as int] == tree.nodes@[n as int].children@[j as int]);
                out.push(kids[j]);
                assert(out@ =~= before + kids@.take(j + 1));
                j = j + 1;
            }
            assert(kids@.take(kids.len() as int) =~= kids@);
            assert(out@ =~= children_all(*tree, self.nodes@.take(i + 1)));
            i = i + 1;
        }
        assert(self.nodes@.take(self.nodes.len() as int) =~= self.nodes@);
        NodeSet { document: self.document, nodes: out }
    }

    /// Each node followed by the nodes below it, in document order.
    pub fn descendants(&self) -> (r: Self)
        requires
            self.wf(),
        ensures
            r.wf(),
            r.document == self.document,
            r.nodes@ == subtrees_all(self.document.tree, self.nodes@),
    {
        let tree = &self.document.tree;
        let mut out: Vec<usize> = Vec::new();
        let mut i: usize = 0;
        while i < self.nodes.len()
            invariant
                0 <= i <= self.nodes.len(),
                self.wf(),
                tree == &self.document.tree,
                out@ == subtrees_all(*tree, self.nodes@.take(i as int)),
                forall|k: int| 0 <= k < out@.len() ==> #[trigger] out@[k] < tree.nodes@.len(),
            decreases self.nodes.len() - i,
        {
            let n = self.nodes[i];
            assert(self.nodes@.take(i + 1).drop_last() =~= self.nodes@.take(i as int));
            let mut sub = subtree_of(tree, n);
            let ghost before = out@;
            let ghost s = sub@;
            out.append(&mut sub);
            assert(out@ =~= before + s);
            assert(out@ =~= subtrees_all(*tree, self.nodes@.take(i + 1)));
            assert forall|k: int| 0 <= k < out@.len() implies #[trigger] out@[k] < tree.nodes@.len() by {
                if k >= before.len() {
                    assert(out@[k] == s[k - before.len()]);
                }
            }
            i = i + 1;
        }
        assert(self.nodes@.take(self.nodes.len() as int) =~= self.nodes@);
        NodeSet { document: self.document, nodes: out }
    }

    /// The nodes that pass `predicate`, in order.
    pub fn filter<P>(&self, predicate: P) -> (r: Self) where P: Fn(&Node) -> bool
        requires
            self.wf(),
            forall|n: &Node| #[trigger] predicate.requires((n,)),
        ensures
            r.wf(),
            r.document == self.document,
            exists|bs: Seq<bool>|
                bs.len() == self.nodes@.len() && (forall|i: int|
                    0 <= i < bs.len() ==> predicate.ensures(
                        (&self.document.tree.nodes@[self.nodes@[i] as int].node,),
                        #[trigger] bs[i],
                    )) && r.nodes@ == select(self.nodes@, bs),
    {
        let tree = &self.document.tree;
        let mut out: Vec<usize> = Vec::new();
        let ghost mut bs: Seq<bool> = Seq::empty();
        let mut i: usize = 0;
        while i < self.nodes.len()
            invariant
                0 <= i <= self.nodes.len(),
                self.wf(),
                tree == &self.document.tree,
                forall|n: &Node| #[trigger] predicate.requires((n,)),
                bs.len() == i,
                forall|k: int|
                    0 <= k < i ==> predicate.ensures(
                        (&tree.nodes@[self.nodes@[k] as int].node,),
                        #[trigger] bs[k],
                    ),
                out@ == select(self.nodes@.take(i as int), bs),
                forall|k: int| 0 <= k < out@.len() ==> #[trigger] out@[k] < tree.nodes@.len(),
            decreases self.nodes.len() - i,
        {
            let n = self.nodes[i];
            let keep_it = predicate(&tree.nodes[n].node);
            let ghost old_bs = bs;
            proof {
                bs = bs.push(keep_it);
            }
            assert(self.nodes@.take(i + 1).drop_last() =~= self.nodes@.take(i as int));
            assert(bs.drop_last() =~= old_bs);
            if keep_it {
                out.push(n);
            }
            assert(out@ =~= select(self.nodes@.take(i + 1), bs));
            assert forall|k: int|
                0 <= k < i + 1 implies predicate.ensures(
                (&tree.nodes@[self.nodes@[k] as int].node,),
                #[trigger] bs[k],
            ) by {
                if k < i {
                    assert(bs[k] == old_bs[k]);
                }
            }
            i = i + 1;
        }
        assert(self.nodes@.take(self.nodes.len() as int) =~= self.nodes@);
        NodeSet { document: self.document, nodes: out }
    }

    /// The nodes that `axis` gives from this set and that pass `predicate`,
    /// in order.
    pub fn nav<P, A>(&self, predicate: P, axis: A) -> (r: Self) where
        P: Fn(&Node) -> bool,
        A: Fn(&NodeSet<'a>) -> NodeSet<'a>,
        requires
            self.wf(),
            forall|n: &Node| #[trigger] predicate.requires((n,)),
            axis.requires((self,)),
            forall|s: NodeSet<'a>| #[trigger] axis.ensures((self,), s) ==> s.wf() && s.document == self.document,
        ensures
            r.wf(),
            r.document == self.document,
            exists|s: NodeSet<'a>, bs: Seq<bool>|
                #![trigger axis.ensures((self,), s), select(s.nodes@, bs)]
                axis.ensures((self,), s) && bs.len() == s.nodes@.len() && (forall|i: int|
                    0 <= i < bs.len() ==> predicate.ensures(
                        (&self.document.tree.nodes@[s.nodes@[i] as int].node,),
                        #[trigger] bs[i],
                    )) && r.nodes@ == select(s.nodes@, bs),
    {
        let s = axis(self);
        let r = s.filter(predicate);
        NodeSet { document: self.document, nodes: r.nodes }
    }

    /// The nodes that are elements, in order.
    pub fn elements(&self) -> (r: Self)
        requires
            self.wf(),
        ensures
            r.wf(),
            r.document == self.document,
            r.nodes@ == keep(self.nodes@, element_pred(self.document.tree)),
    {
        let tree = &self.document.tree;
        let ghost p = element_pred(*tree);
        let mut out: Vec<usize> = Vec::new();
        let mut i: usize = 0;
        while i < self.nodes.len()
            invariant
                0 <= i <= self.nodes.len(),
                self.wf(),
                tree == &self.document.tree,
                p == element_pred(*tree),
                out@ == keep(self.nodes@.take(i as int), p),
                forall|k: int| 0 <= k < out@.len() ==> #[trigger] out@[k] < tree.nodes@.len(),
            decreases self.nodes.len() - i,
        {
            let n = self.nodes[i];
            assert(self.nodes@.take(i + 1).drop_last() =~= self.nodes@.take(i as int));
            assert(self.nodes@.take(i + 1).last() == n);
            if tree.nodes[n].node.is_element() {
                out.push(n);
            }
            i = i + 1;
        }
        assert(self.nodes@.take(self.nodes.len() as int) =~= self.nodes@);
        NodeSet { document: self.document, nodes: out }
    }

    /// The children of the nodes that are elements named `target`, in
    /// order.
    pub fn with_name(&self, target: &str) -> (r: Self)
        requires
            self.wf(),
        ensures
            r.wf(),
            r.document == self.document,
            r.nodes@ == keep(children_all(self.document.tree, self.nodes@), named(self.document.tree, target@)),
    {
        let kids = self.children();
        let tree = &self.document.tree;
        let ghost p = named(*tree, target@);
        let mut out: Vec<usize> = Vec::new();
        let mut i: usize = 0;
        while i < kids.nodes.len()
            invariant
                0 <= i <= kids.nodes.len(),
                kids.wf(),
                kids.document == self.document,
                tree == &self.document.tree,
                p == named(*tree, target@),
                out@ == keep(kids.nodes@.take(i as int), p),
                forall|k: int| 0 <= k < out@.len() ==> #[trigger] out@[k] < tree.nodes@.len(),
            decreases kids.nodes.len() - i,
        {
            let n = kids.nodes[i];
            assert(kids.nodes@.take(i + 1).drop_last() =~= kids.nodes@.take(i as int));
            assert(kids.nodes@.take(i + 1).last() == n);
            let found = match tree.nodes[n].node.as_element() {
                Some(e) => str_eq(e.name(), target),
                None => false,
            };
            if found {
                out.push(n);
            }
            i = i + 1;
        }
        assert(kids.nodes@.take(kids.nodes.len() as int) =~= kids.nodes@);
        NodeSet { document: self.document, nodes: out }
    }
}

} // verus!
