//! The textual form of an element tree that is handed to the model: one line
//! per node, children indented one tab deeper than their parent.

use crate::decimal::{decimal_digits, push_decimal};
use crate::ids::{lemma_position, lemma_position_is, occurs, selector_to_id, virtual_id, SELECTOR_TO_ID_FACTOR};
use crate::tree::{nodes_view, opt_view, lemma_node_children, Node, NodeView, Tree, TreeView};
use vstd::prelude::*;
use vstd::std_specs::cmp::PartialEqSpec;

verus! {

/// A run of `n` tab characters.
pub open spec fn tabs(n: nat) -> Seq<char> {
    Seq::new(n, |i: int| '\t')
}

/// The name as it is shown: the placeholder `<null>` stands for a missing one.
pub open spec fn name_text(name: Option<Seq<char>>) -> Seq<char> {
    match name {
        Some(n) => n,
        None => "<null>"@,
    }
}

/// An optional section in round brackets, led by a space; nothing when absent.
pub open spec fn bracketed(section: Option<Seq<char>>) -> Seq<char> {
    match section {
        Some(s) => " ("@ + s + ")"@,
        None => Seq::empty(),
    }
}

/// The state section; nothing when absent.
pub open spec fn state_text(state: Option<Seq<char>>) -> Seq<char> {
    match state {
        Some(s) => " with state "@ + s,
        None => Seq::empty(),
    }
}

/// The entries as `key: value`, separated by a comma and a space.
pub open spec fn entries_text(entries: Seq<(Seq<char>, Seq<char>)>) -> Seq<char>
    decreases entries.len(),
{
    if entries.len() == 0 {
        Seq::empty()
    } else if entries.len() == 1 {
        entries[0].0 + ": "@ + entries[0].1
    } else {
        entries_text(entries.drop_last()) + ", "@ + entries.last().0 + ": "@ + entries.last().1
    }
}

/// The property section in braces, led by a space; nothing when there are no
/// properties.
pub open spec fn props_text(entries: Seq<(Seq<char>, Seq<char>)>) -> Seq<char> {
    if entries.len() == 0 {
        Seq::empty()
    } else {
        " {"@ + entries_text(entries) + "}"@
    }
}

/// The start of a node's line: indentation, identifier and quoted name.
pub open spec fn line_head<S: PartialEq>(
    node: NodeView<S>,
    indent: Seq<char>,
    selectors: Seq<S>,
) -> Seq<char> {
    indent + "- ["@ + decimal_digits(virtual_id(selectors, node.selector) as nat) + "] \""@
        + name_text(node.name) + "\""@
}

/// The optional sections of a node's line: role, description, properties and
/// state, in that order.
pub open spec fn line_tail<S>(node: NodeView<S>) -> Seq<char> {
    bracketed(node.role) + bracketed(node.description) + props_text(node.properties)
        + state_text(node.state)
}

/// The line of a node, without its children.
pub open spec fn node_line<S: PartialEq>(
    node: NodeView<S>,
    indent: Seq<char>,
    selectors: Seq<S>,
) -> Seq<char> {
    line_head(node, indent, selectors) + line_tail(node)
}

/// The text of a node: its line, then each child on a new line, one tab
/// deeper.
pub open spec fn node_text<S: PartialEq>(
    node: NodeView<S>,
    indent: Seq<char>,
    selectors: Seq<S>,
) -> Seq<char>
    decreases node,
{
    node_line(node, indent, selectors) + children_text(
        node.children,
        indent.push('\t'),
        selectors,
    )
}

/// The text of a list of children, each led by a line break.
pub open spec fn children_text<S: PartialEq>(
    children: Seq<NodeView<S>>,
    indent: Seq<char>,
    selectors: Seq<S>,
) -> Seq<char>
    decreases children,
{
    if children.len() == 0 {
        Seq::empty()
    } else {
        children_text(children.drop_last(), indent, selectors) + seq!['\n'] + node_text(
            children.last(),
            indent,
            selectors,
        )
    }
}

/// The text of the top-level nodes, each followed by a line break.
pub open spec fn roots_text<S: PartialEq>(roots: Seq<NodeView<S>>, selectors: Seq<S>) -> Seq<char>
    decreases roots.len(),
{
    if roots.len() == 0 {
        Seq::empty()
    } else {
        roots_text(roots.drop_last(), selectors) + node_text(
            roots.last(),
            Seq::empty(),
            selectors,
        ) + seq!['\n']
    }
}

/// The text of a tree as the model reads it.
pub open spec fn tree_text<S: PartialEq>(tree: TreeView<S>) -> Seq<char> {
    roots_text(tree.roots, tree.selectors)
}

/// Every node of the subtree has its selector in `selectors`.
pub open spec fn node_covered<S: PartialEq>(node: NodeView<S>, selectors: Seq<S>) -> bool
    decreases node,
{
    &&& occurs(selectors, node.selector)
    &&& forall|i: int|
        0 <= i < node.children.len() ==> node_covered(#[trigger] node.children[i], selectors)
}

/// Every node of the list, at any depth, has its selector in `selectors`.
pub open spec fn nodes_covered<S: PartialEq>(nodes: Seq<NodeView<S>>, selectors: Seq<S>) -> bool {
    forall|i: int| 0 <= i < nodes.len() ==> node_covered(#[trigger] nodes[i], selectors)
}

/// A tree can be shown to the model: selectors compare as `eq_spec` says,
/// every node has its selector in the list, and every identifier fits.
pub open spec fn tree_wf<S: PartialEq>(tree: TreeView<S>) -> bool {
    &&& S::obeys_eq_spec()
    &&& nodes_covered(tree.roots, tree.selectors)
    &&& tree.selectors.len() * SELECTOR_TO_ID_FACTOR <= usize::MAX
}

/// Appends an optional section between `open` and `close`.
fn push_optional(out: &mut String, open: &str, section: &Option<String>, close: &str)
    ensures
        final(out)@ == old(out)@ + (match opt_view(*section) {
            Some(s) => open@ + s + close@,
            None => Seq::empty(),
        }),
{
    match section {
        Some(s) => {
            out.append(open);
            out.append(s.as_str());
            out.append(close);
            assert(out@ =~= old(out)@ + (open@ + s@ + close@));
        },
        None => {
            assert(out@ =~= old(out)@ + Seq::<char>::empty());
        },
    }
}

impl<S: PartialEq> Node<S> {
    /// Appends the property section.
    fn push_properties(&self, out: &mut String)
        ensures
            final(out)@ == old(out)@ + props_text(self@.properties),
    {
        let n = self.properties.len();
        if n == 0 {
            assert(out@ =~= old(out)@ + Seq::<char>::empty());
            return ;
        }
        out.append(" {");
        let ghost entries = self.properties@;
        let mut i: usize = 0;
        while i < n
            invariant
                i <= n,
                n == entries.len(),
                entries == self.properties@,
                out@ == old(out)@ + " {"@ + entries_text(entries.take(i as int)),
            decreases n - i,
        {
            let ghost before = out@;
            if i > 0 {
                out.append(", ");
            }
            out.append(self.properties.key_at(i).as_str());
            out.append(": ");
            out.append(self.properties.value_at(i).as_str());
            proof {
                let t = entries.take(i as int + 1);
                assert(t.drop_last() =~= entries.take(i as int));
                assert(t.last() == entries[i as int]);
                if i == 0 {
                    assert(entries.take(0).len() == 0);
                    assert(out@ =~= old(out)@ + " {"@ + entries_text(t));
                } else {
                    assert(out@ =~= old(out)@ + " {"@ + entries_text(t));
                }
            }
            i += 1;
        }
        out.append("}");
        proof {
            assert(entries.take(n as int) =~= entries);
            assert(out@ =~= old(out)@ + (" {"@ + entries_text(entries) + "}"@));
        }
    }

    /// Appends the start of the node's line.
    fn push_head(&self, out: &mut String, indent: &str, selectors: &Vec<S>)
        requires
            S::obeys_eq_spec(),
            occurs(selectors@, self.selector),
            selectors.len() * SELECTOR_TO_ID_FACTOR <= usize::MAX,
        ensures
            final(out)@ == old(out)@ + line_head(self@, indent@, selectors@),
    {
        out.append(indent);
        out.append("- [");
        let id = selector_to_id(&self.selector, selectors);
        push_decimal(out, id);
        out.append("] \"");
        let ghost start = out@;
        assert(start =~= old(out)@ + (indent@ + "- ["@ + decimal_digits(id as nat) + "] \""@));
        match &self.name {
            Some(n) => {
                out.append(n.as_str());
            },
            None => {
                out.append("<null>");
            },
        }
        out.append("\"");
        assert(out@ =~= start + (name_text(self@.name) + "\""@));
        assert(out@ =~= old(out)@ + line_head(self@, indent@, selectors@));
    }

    /// Appends the optional sections of the node's line.
    fn push_tail(&self, out: &mut String)
        ensures
            final(out)@ == old(out)@ + line_tail(self@),
    {
        push_optional(out, " (", &self.role, ")");
        push_optional(out, " (", &self.description, ")");
        let ghost first = out@;
        assert(first =~= old(out)@ + (bracketed(self@.role) + bracketed(self@.description)));
        self.push_properties(out);
        match &self.state {
            Some(s) => {
                out.append(" with state ");
                out.append(s.as_str());
            },
            None => {},
        }
        assert(out@ =~= first + (props_text(self@.properties) + state_text(self@.state)));
        assert(out@ =~= old(out)@ + line_tail(self@));
    }

    /// Appends the node's line.
    fn push_line(&self, out: &mut String, indent: &str, selectors: &Vec<S>)
        requires
            S::obeys_eq_spec(),
            occurs(selectors@, self.selector),
            selectors.len() * SELECTOR_TO_ID_FACTOR <= usize::MAX,
        ensures
            final(out)@ == old(out)@ + node_line(self@, indent@, selectors@),
    {
        self.push_head(out, indent, selectors);
        self.push_tail(out);
        assert(out@ =~= old(out)@ + node_line(self@, indent@, selectors@));
    }

    /// Appends the text of the node and of its descendants.
    fn push_text(&self, out: &mut String, indent: &str, selectors: &Vec<S>)
        requires
            S::obeys_eq_spec(),
            node_covered(self@, selectors@),
            selectors.len() * SELECTOR_TO_ID_FACTOR <= usize::MAX,
        ensures
            final(out)@ == old(out)@ + node_text(self@, indent@, selectors@),
        decreases self,
    {
        proof {
            lemma_node_children(*self);
        }
        self.push_line(out, indent, selectors);
        let mut deeper = String::from_str(indent);
        deeper.push('\t');
        let ghost children = self@.children;
        let mut i: usize = 0;
        while i < self.children.len()
            invariant
                i <= self.children.len(),
                S::obeys_eq_spec(),
                children == self@.children,
                children == nodes_view(self.children@),
                node_covered(self@, selectors@),
                selectors.len() * SELECTOR_TO_ID_FACTOR <= usize::MAX,
                deeper@ == indent@.push('\t'),
                out@ == old(out)@ + node_line(self@, indent@, selectors@) + children_text(
                    children.take(i as int),
                    deeper@,
                    selectors@,
                ),
            decreases self.children.len() - i,
        {
            out.push('\n');
            proof {
                assert(children[i as int] == self.children@[i as int]@);
            }
            self.children[i].push_text(out, deeper.as_str(), selectors);
            proof {
                let t = children.take(i as int + 1);
                assert(t.drop_last() =~= children.take(i as int));
                assert(t.last() == children[i as int]);
                assert(out@ =~= old(out)@ + node_line(self@, indent@, selectors@) + children_text(
                    t,
                    deeper@,
                    selectors@,
                ));
            }
            i += 1;
        }
        proof {
            assert(children.take(self.children.len() as int) =~= children);
            assert(out@ =~= old(out)@ + node_text(self@, indent@, selectors@));
        }
    }

    /// Converts the node into a string suitable for the model: its line at
    /// `indent_level` tabs, then its children, each one tab deeper. The
    /// node's selector is shown as its identifier in `selectors`.
    pub fn to_string(&self, indent_level: usize, selectors: &Vec<S>) -> (r: String)
        requires
            S::obeys_eq_spec(),
            node_covered(self@, selectors@),
            selectors.len() * SELECTOR_TO_ID_FACTOR <= usize::MAX,
        ensures
            r@ == node_text(self@, tabs(indent_level as nat), selectors@),
    {
        let mut indent = String::new();
        let mut i: usize = 0;
        while i < indent_level
            invariant
                i <= indent_level,
                indent@ == tabs(i as nat),
            decreases indent_level - i,
        {
            indent.push('\t');
            i += 1;
            assert(indent@ =~= tabs(i as nat));
        }
        let mut out = String::new();
        self.push_text(&mut out, indent.as_str(), selectors);
        assert(out@ =~= node_text(self@, tabs(indent_level as nat), selectors@));
        out
    }
}

impl<S: PartialEq> Node<S> {
    /// Whether every node of the subtree has its selector in `selectors`.
    pub fn covered_by(&self, selectors: &Vec<S>) -> (r: bool)
        ensures
            S::obeys_eq_spec() ==> r == node_covered(self@, selectors@),
        decreases self,
    {
        proof {
            lemma_node_children(*self);
            lemma_position(selectors@, self.selector);
        }
        let mut k: usize = 0;
        while k < selectors.len() && !(selectors[k] == self.selector)
            invariant
                k <= selectors.len(),
                S::obeys_eq_spec() ==> forall|j: int|
                    0 <= j < k ==> !(#[trigger] selectors@[j]).eq_spec(&self.selector),
            decreases selectors.len() - k,
        {
            k += 1;
        }
        proof {
            if S::obeys_eq_spec() {
                lemma_position_is(selectors@, self.selector, k as int);
            }
        }
        if k >= selectors.len() {
            return false;
        }
        let mut i: usize = 0;
        while i < self.children.len()
            invariant
                i <= self.children.len(),
                self@.children == nodes_view(self.children@),
                S::obeys_eq_spec() ==> occurs(selectors@, self.selector),
                S::obeys_eq_spec() ==> forall|j: int|
                    0 <= j < i ==> node_covered(#[trigger] self@.children[j], selectors@),
            decreases self.children.len() - i,
        {
            if !self.children[i].covered_by(selectors) {
                proof {
                    assert(self@.children[i as int] == self.children@[i as int]@);
                }
                return false;
            }
            proof {
                assert(self@.children[i as int] == self.children@[i as int]@);
            }
            i += 1;
        }
        true
    }
}

impl<S: PartialEq> Tree<S> {
    /// Whether the tree can be shown to the model: every node has its
    /// selector in the tree's list, and every identifier fits.
    pub fn is_well_formed(&self) -> (r: bool)
        ensures
            S::obeys_eq_spec() ==> r == tree_wf(self@),
    {
        if self.selectors.len() > usize::MAX / SELECTOR_TO_ID_FACTOR {
            return false;
        }
        let mut i: usize = 0;
        while i < self.roots.len()
            invariant
                i <= self.roots.len(),
                S::obeys_eq_spec() ==> forall|j: int|
                    0 <= j < i ==> node_covered(
                        #[trigger] nodes_view(self.roots@)[j],
                        self.selectors@,
                    ),
            decreases self.roots.len() - i,
        {
            if !self.roots[i].covered_by(&self.selectors) {
                proof {
                    assert(nodes_view(self.roots@)[i as int] == self.roots@[i as int]@);
                }
                return false;
            }
            proof {
                assert(nodes_view(self.roots@)[i as int] == self.roots@[i as int]@);
            }
            i += 1;
        }
        true
    }

    /// The text of the whole tree: every top-level node with its descendants,
    /// each top-level node followed by a line break.
    pub fn to_string(&self) -> (r: String)
        requires
            tree_wf(self@),
        ensures
            r@ == tree_text(self@),
    {
        let mut out = String::new();
        let ghost roots = self@.roots;
        let mut i: usize = 0;
        while i < self.roots.len()
            invariant
                i <= self.roots.len(),
                roots == nodes_view(self.roots@),
                tree_wf(self@),
                out@ == roots_text(roots.take(i as int), self.selectors@),
            decreases self.roots.len() - i,
        {
            proof {
                assert(roots[i as int] == self.roots@[i as int]@);
            }
            self.roots[i].push_text(&mut out, "", &self.selectors);
            out.push('\n');
            proof {
                reveal_strlit("");
                let t = roots.take(i as int + 1);
                assert(t.drop_last() =~= roots.take(i as int));
                assert(t.last() == roots[i as int]);
                assert(""@ =~= Seq::<char>::empty());
                assert(out@ =~= roots_text(t, self.selectors@));
            }
            i += 1;
        }
        proof {
            assert(roots.take(self.roots.len() as int) =~= roots);
        }
        out
    }
}

} // verus!
