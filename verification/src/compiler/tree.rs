//! The syntax tree of a Jack class, as a table of nodes. Each node knows its
//! parent, its first child and its next sibling by their places in the
//! table; the root is the first node.

use vstd::prelude::*;

verus! {

/// One node of a syntax tree.
#[derive(Debug, PartialEq, Eq)]
pub struct Node {
    /// The name of the grammar rule or of the token.
    pub kind: String,
    /// Whether the node stands for a named rule of the grammar.
    pub named: bool,
    /// Whether the node is an extra, such as a comment.
    pub extra: bool,
    /// The source text that the node covers.
    pub text: String,
    pub parent: Option<usize>,
    pub first_child: Option<usize>,
    pub next_sibling: Option<usize>,
}

/// The mathematical model of a [`Node`].
pub struct NodeView {
    pub kind: Seq<char>,
    pub named: bool,
    pub extra: bool,
    pub text: Seq<char>,
    pub parent: Option<usize>,
    pub first_child: Option<usize>,
    pub next_sibling: Option<usize>,
}

impl View for Node {
    type V = NodeView;

    open spec fn view(&self) -> NodeView {
        NodeView {
            kind: self.kind@,
            named: self.named,
            extra: self.extra,
            text: self.text@,
            parent: self.parent,
            first_child: self.first_child,
            next_sibling: self.next_sibling,
        }
    }
}

/// A syntax tree.
#[derive(Debug, PartialEq, Eq)]
pub struct Tree {
    pub nodes: Vec<Node>,
}

impl View for Tree {
    type V = Seq<NodeView>;

    open spec fn view(&self) -> Seq<NodeView> {
        self.nodes@.map_values(|node: Node| node@)
    }
}

/// Whether the links of the node at `at` lead into the table, the child and
/// the sibling to later places.
pub open spec fn linked_at(nodes: Seq<NodeView>, at: int) -> bool {
    &&& nodes[at].parent matches Some(parent) ==> parent < nodes.len()
    &&& nodes[at].first_child matches Some(child) ==> at < child < nodes.len()
    &&& nodes[at].next_sibling matches Some(sibling) ==> at < sibling < nodes.len()
}

/// Whether the table holds a root and every link leads into the table, to
/// a later place where it leads to a child or a sibling.
pub open spec fn linked(nodes: Seq<NodeView>) -> bool {
    nodes.len() > 0 && forall|at: int| 0 <= at < nodes.len() ==> linked_at(nodes, at)
}

impl Tree {
    /// Whether the tree is linked.
    pub fn is_linked(&self) -> (b: bool)
        ensures
            b == linked(self@),
    {
        if self.nodes.len() == 0 {
            return false;
        }
        let n = self.nodes.len();
        let mut at: usize = 0;
        while at < n
            invariant
                at <= n,
                n == self.nodes.len(),
                forall|i: int| 0 <= i < at ==> linked_at(self@, i),
            decreases n - at,
        {
            let node = &self.nodes[at];
            assert(self@[at as int] == node@);
            let parent = match node.parent {
                Some(parent) => parent < n,
                None => true,
            };
            let child = match node.first_child {
                Some(child) => at < child && child < n,
                None => true,
            };
            let sibling = match node.next_sibling {
                Some(sibling) => at < sibling && sibling < n,
                None => true,
            };
            if !(parent && child && sibling) {
                assert(!linked_at(self@, at as int));
                return false;
            }
            at += 1;
        }
        true
    }
}

} // verus!
