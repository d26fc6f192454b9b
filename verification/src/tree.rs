//! The element tree: nested nodes, structural comparison and the list of
//! selectors that a snapshot was taken with.

use crate::properties::{props_map, Properties};
use vstd::prelude::*;
use vstd::std_specs::cmp::{PartialEqSpec, PartialEqSpecImpl};

verus! {

/// The characters of an optional string.
pub open spec fn opt_view(o: Option<String>) -> Option<Seq<char>> {
    match o {
        Some(s) => Some(s@),
        None => None,
    }
}

/// A node in the element tree.
#[derive(Debug)]
pub struct Node<S> {
    /// The interface's handle for this element.
    pub selector: S,
    /// The name associated with the element.
    pub name: Option<String>,
    /// A description of the element.
    pub description: Option<String>,
    /// A freeform role for this element, such as `button` or `link`.
    pub role: Option<String>,
    /// The state of this element, such as the contents of an input.
    pub state: Option<String>,
    /// An arbitrary list of properties.
    pub properties: Properties,
    /// Children within this element in the interface.
    pub children: Vec<Node<S>>,
}

/// The mathematical value of a [`Node`].
pub ghost struct NodeView<S> {
    pub selector: S,
    pub name: Option<Seq<char>>,
    pub description: Option<Seq<char>>,
    pub role: Option<Seq<char>>,
    pub state: Option<Seq<char>>,
    pub properties: Seq<(Seq<char>, Seq<char>)>,
    pub children: Seq<NodeView<S>>,
}

/// The value of a node, built from the values of its children.
pub open spec fn node_view<S>(node: Node<S>) -> NodeView<S>
    decreases node,
{
    NodeView {
        selector: node.selector,
        name: opt_view(node.name),
        description: opt_view(node.description),
        role: opt_view(node.role),
        state: opt_view(node.state),
        properties: node.properties@,
        children: Seq::new(
            node.children@.len(),
            |i: int|
                if 0 <= i < node.children@.len() {
                    node_view(node.children@[i])
                } else {
                    arbitrary()
                },
        ),
    }
}

impl<S> View for Node<S> {
    type V = NodeView<S>;

    open spec fn view(&self) -> NodeView<S> {
        node_view(*self)
    }
}

/// The children of a node's value are the values of its children.
pub proof fn lemma_node_children<S>(node: Node<S>)
    ensures
        node@.children == nodes_view(node.children@),
{
    assert(node@.children =~= nodes_view(node.children@));
}

/// The values of a list of nodes.
pub open spec fn nodes_view<S>(nodes: Seq<Node<S>>) -> Seq<NodeView<S>> {
    Seq::new(nodes.len(), |i: int| nodes[i]@)
}

/// The element tree for an interface: the top-level nodes, and every
/// selector of the snapshot in discovery order.
#[derive(Debug)]
pub struct Tree<S> {
    /// Nodes at the top level of the tree.
    pub roots: Vec<Node<S>>,
    /// All the selectors in the tree.
    pub selectors: Vec<S>,
}

/// The mathematical value of a [`Tree`].
pub ghost struct TreeView<S> {
    pub roots: Seq<NodeView<S>>,
    pub selectors: Seq<S>,
}

impl<S> View for Tree<S> {
    type V = TreeView<S>;

    open spec fn view(&self) -> TreeView<S> {
        TreeView { roots: nodes_view(self.roots@), selectors: self.selectors@ }
    }
}

/// Structural equality of two nodes: equal selectors, texts and property
/// mappings, and pairwise equal children.
pub open spec fn node_eq<S: PartialEq>(a: NodeView<S>, b: NodeView<S>) -> bool
    decreases a,
{
    &&& a.selector.eq_spec(&b.selector)
    &&& a.name == b.name
    &&& a.description == b.description
    &&& a.role == b.role
    &&& a.state == b.state
    &&& props_map(a.properties) == props_map(b.properties)
    &&& a.children.len() == b.children.len()
    &&& forall|i: int|
        0 <= i < a.children.len() ==> node_eq(#[trigger] a.children[i], b.children[i])
}

/// Structural equality of two lists of nodes.
pub open spec fn nodes_eq<S: PartialEq>(a: Seq<NodeView<S>>, b: Seq<NodeView<S>>) -> bool {
    &&& a.len() == b.len()
    &&& forall|i: int| 0 <= i < a.len() ==> node_eq(#[trigger] a[i], b[i])
}

/// Structural equality of two lists of selectors.
pub open spec fn selectors_eq<S: PartialEq>(a: Seq<S>, b: Seq<S>) -> bool {
    &&& a.len() == b.len()
    &&& forall|i: int| 0 <= i < a.len() ==> (#[trigger] a[i]).eq_spec(&b[i])
}

/// Structural equality of two trees.
pub open spec fn tree_eq<S: PartialEq>(a: TreeView<S>, b: TreeView<S>) -> bool {
    nodes_eq(a.roots, b.roots) && selectors_eq(a.selectors, b.selectors)
}

/// Whether two optional strings hold the same characters.
pub fn opt_string_eq(a: &Option<String>, b: &Option<String>) -> (r: bool)
    ensures
        r == (opt_view(*a) == opt_view(*b)),
{
    match (a, b) {
        (Some(x), Some(y)) => *x == *y,
        (None, None) => true,
        _ => false,
    }
}

impl<S: PartialEq> Node<S> {
    /// Whether `self` and `other` are structurally equal.
    pub fn same(&self, other: &Node<S>) -> (r: bool)
        ensures
            S::obeys_eq_spec() ==> r == node_eq(self@, other@),
        decreases self,
    {
        proof {
            lemma_node_children(*self);
            lemma_node_children(*other);
        }
        if !(self.selector == other.selector) {
            return false;
        }
        if !opt_string_eq(&self.name, &other.name) {
            return false;
        }
        if !opt_string_eq(&self.description, &other.description) {
            return false;
        }
        if !opt_string_eq(&self.role, &other.role) {
            return false;
        }
        if !opt_string_eq(&self.state, &other.state) {
            return false;
        }
        if !self.properties.same(&other.properties) {
            return false;
        }
        if self.children.len() != other.children.len() {
            return false;
        }
        let mut i: usize = 0;
        while i < self.children.len()
            invariant
                i <= self.children.len(),
                self.children.len() == other.children.len(),
                self@.children == nodes_view(self.children@),
                other@.children == nodes_view(other.children@),
                S::obeys_eq_spec() ==> forall|j: int|
                    0 <= j < i ==> node_eq(#[trigger] self@.children[j], other@.children[j]),
            decreases self.children.len() - i,
        {
            if !self.children[i].same(&other.children[i]) {
                proof {
                    assert(self@.children[i as int] == self.children@[i as int]@);
                    assert(other@.children[i as int] == other.children@[i as int]@);
                }
                return false;
            }
            i += 1;
        }
        true
    }
}

/// Whether two lists of nodes are structurally equal.
pub fn nodes_same<S: PartialEq>(a: &Vec<Node<S>>, b: &Vec<Node<S>>) -> (r: bool)
    ensures
        S::obeys_eq_spec() ==> r == nodes_eq(nodes_view(a@), nodes_view(b@)),
{
    if a.len() != b.len() {
        return false;
    }
    let mut i: usize = 0;
    while i < a.len()
        invariant
            i <= a.len(),
            a.len() == b.len(),
            S::obeys_eq_spec() ==> forall|j: int|
                0 <= j < i ==> node_eq(#[trigger] nodes_view(a@)[j], nodes_view(b@)[j]),
        decreases a.len() - i,
    {
        if !a[i].same(&b[i]) {
            proof {
                assert(nodes_view(a@)[i as int] == a@[i as int]@);
                assert(nodes_view(b@)[i as int] == b@[i as int]@);
            }
            return false;
        }
        i += 1;
    }
    true
}

/// Whether two lists of selectors are equal, position by position.
pub fn selectors_same<S: PartialEq>(a: &Vec<S>, b: &Vec<S>) -> (r: bool)
    ensures
        S::obeys_eq_spec() ==> r == selectors_eq(a@, b@),
{
    if a.len() != b.len() {
        return false;
    }
    let mut i: usize = 0;
    while i < a.len()
        invariant
            i <= a.len(),
            a.len() == b.len(),
            S::obeys_eq_spec() ==> forall|j: int| 0 <= j < i ==> (#[trigger] a@[j]).eq_spec(&b@[j]),
        decreases a.len() - i,
    {
        if !(a[i] == b[i]) {
            return false;
        }
        i += 1;
    }
    true
}

impl<S: PartialEq> PartialEq for Node<S> {
    fn eq(&self, other: &Node<S>) -> (r: bool) {
        self.same(other)
    }
}

impl<S: PartialEq> PartialEqSpecImpl for Node<S> {
    open spec fn obeys_eq_spec() -> bool {
        S::obeys_eq_spec()
    }

    open spec fn eq_spec(&self, other: &Node<S>) -> bool {
        node_eq(self@, other@)
    }
}

impl<S: PartialEq> PartialEq for Tree<S> {
    fn eq(&self, other: &Tree<S>) -> (r: bool) {
        nodes_same(&self.roots, &other.roots) && selectors_same(&self.selectors, &other.selectors)
    }
}

impl<S: PartialEq> PartialEqSpecImpl for Tree<S> {
    open spec fn obeys_eq_spec() -> bool {
        S::obeys_eq_spec()
    }

    open spec fn eq_spec(&self, other: &Tree<S>) -> bool {
        tree_eq(self@, other@)
    }
}

} // verus!
