//! Rebuilds the nested, filtered element tree from a flat list of records
//! that name their parents.
//!
//! Every record is resolved to a location: the path of child indices at
//! which its own children attach. A record flagged for removal takes the
//! location of its parent, so that its children are spliced into its place.

use crate::error::ExecutionError;
use crate::properties::Properties;
use crate::tree::{lemma_node_children, nodes_view, opt_view, Node, NodeView, Tree, TreeView};
use vstd::hash_map::StringHashMap;
use vstd::prelude::*;

verus! {

/// Maximum number of passes over the records. This prevents infinite loops.
pub const MAX_ITERS: usize = 50;

/// A flat record of an element: its own identifier, that of its parent,
/// whether it is to be left out of the tree, and what the node will hold.
#[derive(Debug)]
pub struct IntermediateNode<S> {
    /// The identifier that other records name as their parent.
    pub id: String,
    /// The identifier of the parent record; none for a root.
    pub parent_id: Option<String>,
    /// The selector of the element.
    pub selector: S,
    pub name: Option<String>,
    pub description: Option<String>,
    pub role: Option<String>,
    pub value: Option<String>,
    pub properties: Properties,
    /// Whether this node should be removed from the tree structure as
    /// irrelevant.
    pub remove: bool,
}

/// The mathematical value of an [`IntermediateNode`].
pub ghost struct RecordView<S> {
    pub id: Seq<char>,
    pub parent_id: Option<Seq<char>>,
    pub remove: bool,
    /// The node that the record becomes; it has no children yet.
    pub node: NodeView<S>,
}

impl<S> View for IntermediateNode<S> {
    type V = RecordView<S>;

    open spec fn view(&self) -> RecordView<S> {
        RecordView {
            id: self.id@,
            parent_id: opt_view(self.parent_id),
            remove: self.remove,
            node: NodeView {
                selector: self.selector,
                name: opt_view(self.name),
                description: opt_view(self.description),
                role: opt_view(self.role),
                state: opt_view(self.value),
                properties: self.properties@,
                children: Seq::empty(),
            },
        }
    }
}

/// The values of a list of records.
pub open spec fn records_view<S>(records: Seq<IntermediateNode<S>>) -> Seq<RecordView<S>> {
    Seq::new(records.len(), |i: int| records[i]@)
}

impl<S> IntermediateNode<S> {
    /// Converts this record into a proper [`Node`], dropping the identifiers
    /// that only the reconstruction needs.
    pub fn into_final(self) -> (node: Node<S>)
        ensures
            node@ == self@.node,
    {
        let node = Node {
            selector: self.selector,
            name: self.name,
            description: self.description,
            role: self.role,
            state: self.value,
            properties: self.properties,
            children: Vec::new(),
        };
        proof {
            lemma_node_children(node);
            assert(node@.children =~= Seq::<NodeView<S>>::empty());
        }
        node
    }
}

/// The tree under construction.
pub ghost struct Build<S> {
    /// The top-level nodes placed so far.
    pub roots: Seq<NodeView<S>>,
    /// The selectors of the nodes placed so far, in the order of placing.
    pub selectors: Seq<S>,
    /// The location of every resolved record.
    pub locations: Map<Seq<char>, Seq<int>>,
    /// For each record, whether it is still unresolved.
    pub pending: Seq<bool>,
}

/// The list of children that `loc` addresses: `nodes` itself for the empty
/// path.
pub open spec fn children_at<S>(nodes: Seq<NodeView<S>>, loc: Seq<int>) -> Seq<NodeView<S>>
    decreases loc.len(),
{
    if loc.len() == 0 {
        nodes
    } else if 0 <= loc[0] < nodes.len() {
        children_at(nodes[loc[0]].children, loc.drop_first())
    } else {
        Seq::empty()
    }
}

/// Whether every index of `loc` names an existing node.
pub open spec fn valid_loc<S>(nodes: Seq<NodeView<S>>, loc: Seq<int>) -> bool
    decreases loc.len(),
{
    loc.len() == 0 || (0 <= loc[0] < nodes.len() && valid_loc(
        nodes[loc[0]].children,
        loc.drop_first(),
    ))
}

/// `nodes` with `node` appended to the list of children that `loc`
/// addresses.
pub open spec fn push_at<S>(nodes: Seq<NodeView<S>>, loc: Seq<int>, node: NodeView<S>) -> Seq<
    NodeView<S>,
>
    decreases loc.len(),
{
    if loc.len() == 0 {
        nodes.push(node)
    } else if 0 <= loc[0] < nodes.len() {
        nodes.update(
            loc[0],
            NodeView {
                children: push_at(nodes[loc[0]].children, loc.drop_first(), node),
                ..nodes[loc[0]]
            },
        )
    } else {
        nodes
    }
}

/// Resolves record `i` against the location `parent` of its parent. A
/// removed record takes its parent's location; any other is appended there
/// and gets the location of the new node.
pub open spec fn place<S>(b: Build<S>, rec: RecordView<S>, i: int, parent: Seq<int>) -> Build<S> {
    if rec.remove {
        Build {
            locations: b.locations.insert(rec.id, parent),
            pending: b.pending.update(i, false),
            ..b
        }
    } else {
        Build {
            roots: push_at(b.roots, parent, rec.node),
            selectors: b.selectors.push(rec.node.selector),
            locations: b.locations.insert(
                rec.id,
                parent.push(children_at(b.roots, parent).len() as int),
            ),
            pending: b.pending.update(i, false),
        }
    }
}

/// Visits record `i`: resolves it if it is pending and is a root or has a
/// resolved parent.
pub open spec fn visit<S>(b: Build<S>, rec: RecordView<S>, i: int) -> Build<S> {
    if !b.pending[i] {
        b
    } else {
        match rec.parent_id {
            None => place(b, rec, i, Seq::empty()),
            Some(p) => if b.locations.contains_key(p) {
                place(b, rec, i, b.locations[p])
            } else {
                b
            },
        }
    }
}

/// Visits the first `n` records in order.
pub open spec fn sweep<S>(b: Build<S>, records: Seq<RecordView<S>>, n: nat) -> Build<S>
    decreases n,
{
    if n == 0 {
        b
    } else {
        visit(sweep(b, records, (n - 1) as nat), records[n - 1], n - 1)
    }
}

/// Whether some record is still unresolved.
pub open spec fn any_pending<S>(b: Build<S>) -> bool {
    exists|i: int| 0 <= i < b.pending.len() && #[trigger] b.pending[i]
}

/// Passes over all records until none is pending or `MAX_ITERS` passes are
/// made; `passes` counts those already made.
pub open spec fn run<S>(b: Build<S>, records: Seq<RecordView<S>>, passes: nat) -> Build<S>
    decreases MAX_ITERS - passes,
{
    if passes >= MAX_ITERS || !any_pending(b) {
        b
    } else {
        run(sweep(b, records, records.len()), records, passes + 1)
    }
}

/// Nothing placed, every record pending.
pub open spec fn start<S>(records: Seq<RecordView<S>>) -> Build<S> {
    Build {
        roots: Seq::empty(),
        selectors: Seq::empty(),
        locations: Map::empty(),
        pending: Seq::new(records.len(), |i: int| true),
    }
}

/// The tree that the records describe, or nothing if some record is still
/// unresolved after `MAX_ITERS` passes.
pub open spec fn reconstitution<S>(records: Seq<RecordView<S>>) -> Option<TreeView<S>> {
    let b = run(start(records), records, 0);
    if any_pending(b) {
        None
    } else {
        Some(TreeView { roots: b.roots, selectors: b.selectors })
    }
}

/// Every recorded location addresses existing nodes.
pub open spec fn build_wf<S>(b: Build<S>) -> bool {
    forall|id: Seq<char>| #[trigger]
        b.locations.contains_key(id) ==> valid_loc(b.roots, b.locations[id])
}

/// Appending a node keeps every valid path valid.
pub proof fn lemma_push_at_keeps<S>(
    nodes: Seq<NodeView<S>>,
    loc: Seq<int>,
    node: NodeView<S>,
    other: Seq<int>,
)
    requires
        valid_loc(nodes, other),
    ensures
        valid_loc(push_at(nodes, loc, node), other),
    decreases loc.len(),
{
    if other.len() > 0 && loc.len() > 0 && 0 <= loc[0] < nodes.len() && other[0] == loc[0] {
        lemma_push_at_keeps(nodes[loc[0]].children, loc.drop_first(), node, other.drop_first());
    }
}

/// After appending at a valid path, the path extended by the index of the
/// new node is valid.
pub proof fn lemma_push_at_new<S>(nodes: Seq<NodeView<S>>, loc: Seq<int>, node: NodeView<S>)
    requires
        valid_loc(nodes, loc),
    ensures
        valid_loc(push_at(nodes, loc, node), loc.push(children_at(nodes, loc).len() as int)),
    decreases loc.len(),
{
    let k = children_at(nodes, loc).len() as int;
    let extended = loc.push(k);
    let pushed = push_at(nodes, loc, node);
    if loc.len() == 0 {
        assert(extended.drop_first() =~= Seq::<int>::empty());
        assert(valid_loc(pushed[extended[0]].children, extended.drop_first()));
    } else {
        lemma_push_at_new(nodes[loc[0]].children, loc.drop_first(), node);
        assert(extended.drop_first() =~= loc.drop_first().push(k));
        assert(extended[0] == loc[0]);
        assert(valid_loc(pushed[extended[0]].children, extended.drop_first()));
    }
}

/// Visiting a record keeps every recorded location valid.
pub proof fn lemma_visit_wf<S>(b: Build<S>, rec: RecordView<S>, i: int)
    requires
        build_wf(b),
        0 <= i < b.pending.len(),
    ensures
        build_wf(visit(b, rec, i)),
        visit(b, rec, i).pending.len() == b.pending.len(),
{
    let after = visit(b, rec, i);
    if after != b {
        let parent: Seq<int> = match rec.parent_id {
            None => Seq::empty(),
            Some(p) => b.locations[p],
        };
        if let Some(p) = rec.parent_id {
            assert(b.locations.contains_key(p));
        }
        assert(valid_loc(b.roots, parent));
        assert(after == place(b, rec, i, parent));
        assert forall|id: Seq<char>| #[trigger] after.locations.contains_key(id) implies valid_loc(
            after.roots,
            after.locations[id],
        ) by {
            if rec.remove {
                if id != rec.id {
                    assert(b.locations.contains_key(id));
                }
            } else {
                if id == rec.id {
                    lemma_push_at_new(b.roots, parent, rec.node);
                } else {
                    assert(b.locations.contains_key(id));
                    lemma_push_at_keeps(b.roots, parent, rec.node, b.locations[id]);
                }
            }
        }
    }
}

/// Every recorded location belongs to the identifier of some record.
pub open spec fn locations_known<S>(b: Build<S>, records: Seq<RecordView<S>>) -> bool {
    forall|id: Seq<char>| #[trigger]
        b.locations.contains_key(id) ==> exists|j: int|
            0 <= j < records.len() && (#[trigger] records[j]).id == id
}

/// Record `k` names a parent that no record has as its identifier.
pub open spec fn orphan<S>(records: Seq<RecordView<S>>, k: int) -> bool {
    &&& 0 <= k < records.len()
    &&& records[k].parent_id is Some
    &&& forall|j: int| 0 <= j < records.len() ==> (#[trigger] records[j]).id != records[k].parent_id->0
}

/// A sweep leaves an orphan pending and records only identifiers of records.
proof fn lemma_sweep_keeps_orphan<S>(b: Build<S>, records: Seq<RecordView<S>>, k: int, n: nat)
    requires
        orphan(records, k),
        b.pending.len() == records.len(),
        b.pending[k],
        locations_known(b, records),
        n <= records.len(),
    ensures
        sweep(b, records, n).pending.len() == records.len(),
        sweep(b, records, n).pending[k],
        locations_known(sweep(b, records, n), records),
    decreases n,
{
    if n > 0 {
        lemma_sweep_keeps_orphan(b, records, k, (n - 1) as nat);
        let before = sweep(b, records, (n - 1) as nat);
        let rec = records[n - 1];
        let after = visit(before, rec, n - 1);
        if n - 1 == k {
            assert(!before.locations.contains_key(rec.parent_id->0)) by {
                if before.locations.contains_key(rec.parent_id->0) {
                    let j = choose|j: int|
                        0 <= j < records.len() && (#[trigger] records[j]).id == rec.parent_id->0;
                    assert(records[j].id != records[k].parent_id->0);
                }
            }
            assert(after == before);
        } else {
            assert forall|id: Seq<char>| #[trigger]
                after.locations.contains_key(id) implies exists|j: int|
                0 <= j < records.len() && (#[trigger] records[j]).id == id by {
                if id == rec.id {
                    assert(records[n - 1].id == id);
                } else {
                    assert(before.locations.contains_key(id));
                }
            }
        }
    }
}

/// No number of passes resolves an orphan.
proof fn lemma_run_keeps_orphan<S>(b: Build<S>, records: Seq<RecordView<S>>, k: int, passes: nat)
    requires
        orphan(records, k),
        b.pending.len() == records.len(),
        b.pending[k],
        locations_known(b, records),
    ensures
        run(b, records, passes).pending.len() == records.len(),
        run(b, records, passes).pending[k],
    decreases MAX_ITERS - passes,
{
    if passes >= MAX_ITERS || !any_pending(b) {
    } else {
        lemma_sweep_keeps_orphan(b, records, k, records.len());
        lemma_run_keeps_orphan(sweep(b, records, records.len()), records, k, passes + 1);
    }
}

/// A record whose parent identifier belongs to no record is never resolved:
/// the reconstruction gives up after `MAX_ITERS` passes.
pub proof fn lemma_orphan_times_out<S>(records: Seq<RecordView<S>>, k: int)
    requires
        orphan(records, k),
    ensures
        reconstitution(records) is None,
{
    lemma_run_keeps_orphan(start(records), records, k, 0);
    let b = run(start(records), records, 0);
    assert(b.pending[k]);
}

/// Every record is a root or names as its parent the identifier of a record
/// that stands before it in the list.
pub open spec fn parents_first<S>(records: Seq<RecordView<S>>) -> bool {
    forall|i: int|
        0 <= i < records.len() && (#[trigger] records[i]).parent_id is Some ==> exists|j: int|
            0 <= j < i && (#[trigger] records[j]).id == records[i].parent_id->0
}

/// With parents listed first, the first sweep resolves every record that
/// it visits.
proof fn lemma_first_sweep_resolves<S>(records: Seq<RecordView<S>>, n: nat)
    requires
        parents_first(records),
        n <= records.len(),
    ensures
        sweep(start(records), records, n).pending.len() == records.len(),
        forall|j: int|
            0 <= j < n ==> !(#[trigger] sweep(start(records), records, n).pending[j])
                && sweep(start(records), records, n).locations.contains_key(records[j].id),
        forall|j: int|
            n <= j < records.len() ==> #[trigger] sweep(start(records), records, n).pending[j],
    decreases n,
{
    if n > 0 {
        lemma_first_sweep_resolves(records, (n - 1) as nat);
        let before = sweep(start(records), records, (n - 1) as nat);
        let rec = records[n - 1];
        let after = visit(before, rec, n - 1);
        assert(before.pending[n - 1]);
        if rec.parent_id is Some {
            let j = choose|j: int|
                0 <= j < n - 1 && (#[trigger] records[j]).id == records[n - 1].parent_id->0;
            assert(!before.pending[j]);
            assert(before.locations.contains_key(rec.parent_id->0));
        }
        assert forall|j: int| 0 <= j < n implies !(#[trigger] after.pending[j])
            && after.locations.contains_key(records[j].id) by {
            if j < n - 1 {
                assert(!before.pending[j]);
                assert(before.locations.contains_key(records[j].id));
            }
        }
        assert forall|j: int| n <= j < records.len() implies #[trigger] after.pending[j] by {
            assert(before.pending[j]);
        }
    }
}

/// Records that are listed parents first are all resolved, and by the first
/// pass: the reconstruction gives a tree.
pub proof fn lemma_parents_first_succeeds<S>(records: Seq<RecordView<S>>)
    requires
        parents_first(records),
    ensures
        reconstitution(records) is Some,
        reconstitution(records)->0.roots == sweep(
            start(records),
            records,
            records.len(),
        ).roots,
        reconstitution(records)->0.selectors == sweep(
            start(records),
            records,
            records.len(),
        ).selectors,
{
    let b0 = start(records);
    let b1 = sweep(b0, records, records.len());
    lemma_first_sweep_resolves(records, records.len());
    assert(!any_pending(b1));
    if any_pending(b0) {
        assert(run(b0, records, 0) == run(b1, records, 1));
        assert(run(b1, records, 1) == b1);
    } else {
        assert(records.len() == 0) by {
            if records.len() > 0 {
                assert(b0.pending[0]);
            }
        }
        assert(b1 == b0);
    }
}

/// A removed root hoists its children: a removed root followed by two kept
/// children gives no node for the root and the two children at the top
/// level, in their order.
pub proof fn lemma_removed_root_hoists_children<S>(
    root: RecordView<S>,
    first: RecordView<S>,
    second: RecordView<S>,
)
    requires
        root.parent_id is None,
        root.remove,
        first.parent_id == Some(root.id),
        second.parent_id == Some(root.id),
        !first.remove,
        !second.remove,
        first.id != root.id,
    ensures
        reconstitution(seq![root, first, second]) == Some(
            TreeView {
                roots: seq![first.node, second.node],
                selectors: seq![first.node.selector, second.node.selector],
            },
        ),
{
    let records = seq![root, first, second];
    assert(parents_first(records)) by {
        assert forall|i: int|
            0 <= i < records.len() && (#[trigger] records[i]).parent_id is Some implies exists|
            j: int,
        |
            0 <= j < i && (#[trigger] records[j]).id == records[i].parent_id->0 by {
            assert(records[0].id == root.id);
        }
    }
    lemma_parents_first_succeeds(records);
    let empty: Seq<int> = Seq::empty();
    let b0 = start(records);
    let s0 = sweep(b0, records, 0);
    let s1 = sweep(b0, records, 1);
    let s2 = sweep(b0, records, 2);
    let s3 = sweep(b0, records, 3);
    assert(s0 == b0);
    assert(s1 == visit(s0, records[0], 0));
    assert(s2 == visit(s1, records[1], 1));
    assert(s3 == visit(s2, records[2], 2));
    assert(s1.roots =~= Seq::<NodeView<S>>::empty());
    assert(s1.locations[root.id] == empty);
    assert(s2 == place(s1, first, 1, empty));
    assert(s2.roots =~= seq![first.node]);
    assert(s2.locations.contains_key(root.id));
    assert(s2.locations[root.id] == empty);
    assert(s3 == place(s2, second, 2, empty));
    assert(s3.roots =~= seq![first.node, second.node]);
    assert(s3.selectors =~= seq![first.node.selector, second.node.selector]);
}

/// What the reconstruction returns for `records`: the tree that they
/// describe, or the timeout if they describe none.
pub open spec fn reconstitutes<S>(
    records: Seq<RecordView<S>>,
    r: Result<Tree<S>, ExecutionError>,
) -> bool {
    match r {
        Ok(tree) => reconstitution(records) == Some(tree@),
        Err(e) => reconstitution(records) is None && e == (
        ExecutionError::TreeReconstitutionTimeout { iterations: MAX_ITERS }),
    }
}

/// Running the reconstruction twice on the same records gives the same
/// outcome: both runs fail alike, or both give trees of the same value.
pub proof fn lemma_reconstitution_is_repeatable<S>(
    records: Seq<RecordView<S>>,
    first: Result<Tree<S>, ExecutionError>,
    second: Result<Tree<S>, ExecutionError>,
)
    requires
        reconstitutes(records, first),
        reconstitutes(records, second),
    ensures
        first is Ok <==> second is Ok,
        first is Ok ==> first->Ok_0@ == second->Ok_0@,
        first is Err ==> first->Err_0 == second->Err_0,
{
}

/// A path of child indices as the integers it holds.
pub open spec fn path(loc: Seq<usize>) -> Seq<int> {
    Seq::new(loc.len(), |i: int| loc[i] as int)
}

/// The locations that a map of paths holds.
pub open spec fn locations_view(m: Map<Seq<char>, Vec<usize>>) -> Map<Seq<char>, Seq<int>> {
    Map::new(|id: Seq<char>| m.contains_key(id), |id: Seq<char>| path(m[id]@))
}

/// Which records are still held.
pub open spec fn pending_view<S>(flat: Seq<Option<IntermediateNode<S>>>) -> Seq<bool> {
    Seq::new(flat.len(), |i: int| flat[i] is Some)
}

/// The records that are still held are those that came in.
pub open spec fn holds_records<S>(
    flat: Seq<Option<IntermediateNode<S>>>,
    records: Seq<RecordView<S>>,
) -> bool {
    &&& flat.len() == records.len()
    &&& forall|i: int| 0 <= i < flat.len() && (#[trigger] flat[i]) is Some ==> flat[i]->0@ == records[i]
}

/// A copy of a path.
fn copy_loc(loc: &Vec<usize>) -> (r: Vec<usize>)
    ensures
        r@ == loc@,
{
    let mut r: Vec<usize> = Vec::new();
    let mut i: usize = 0;
    while i < loc.len()
        invariant
            i <= loc.len(),
            r@ == loc@.take(i as int),
        decreases loc.len() - i,
    {
        r.push(loc[i]);
        i += 1;
        assert(r@ =~= loc@.take(i as int));
    }
    assert(loc@.take(loc.len() as int) =~= loc@);
    r
}

/// Appends `node` to the children that `loc[depth..]` addresses below
/// `nodes`, and returns its index among them.
fn attach<S>(nodes: &mut Vec<Node<S>>, loc: &Vec<usize>, depth: usize, node: Node<S>) -> (index:
    usize)
    requires
        depth <= loc.len(),
        valid_loc(nodes_view(old(nodes)@), path(loc@).skip(depth as int)),
    ensures
        nodes_view(final(nodes)@) == push_at(
            nodes_view(old(nodes)@),
            path(loc@).skip(depth as int),
            node@,
        ),
        index == children_at(nodes_view(old(nodes)@), path(loc@).skip(depth as int)).len(),
    decreases loc.len() - depth,
{
    let ghost rest = path(loc@).skip(depth as int);
    if depth == loc.len() {
        nodes.push(node);
        assert(nodes_view(nodes@) =~= nodes_view(old(nodes)@).push(node@));
        nodes.len() - 1
    } else {
        let i = loc[depth];
        let ghost before = nodes@;
        proof {
            assert(rest[0] == i as int);
            assert(rest.drop_first() =~= path(loc@).skip(depth as int + 1));
            assert(nodes_view(before)[i as int] == before[i as int]@);
            lemma_node_children(before[i as int]);
        }
        let index = attach(&mut nodes[i].children, loc, depth + 1, node);
        proof {
            lemma_node_children(nodes@[i as int]);
            assert(nodes_view(nodes@) =~= push_at(nodes_view(before), rest, node@)) by {
                let want = push_at(nodes_view(before), rest, node@);
                assert(nodes_view(nodes@).len() == want.len());
                assert forall|j: int| 0 <= j < want.len() implies nodes_view(nodes@)[j]
                    == want[j] by {
                    assert(nodes_view(nodes@)[j] == nodes@[j]@);
                    assert(nodes_view(before)[j] == before[j]@);
                }
            }
        }
        index
    }
}

/// Whether some record is still held.
fn has_pending<S>(flat: &Vec<Option<IntermediateNode<S>>>) -> (r: bool)
    ensures
        r == exists|i: int| 0 <= i < flat.len() && #[trigger] pending_view(flat@)[i],
{
    let mut i: usize = 0;
    while i < flat.len()
        invariant
            i <= flat.len(),
            forall|j: int| 0 <= j < i ==> !#[trigger] pending_view(flat@)[j],
        decreases flat.len() - i,
    {
        if flat[i].is_some() {
            assert(pending_view(flat@)[i as int]);
            return true;
        }
        i += 1;
    }
    false
}

/// Builds the nested tree from a flat list of records, in passes: a record
/// is resolved once its parent is, and is then placed under its parent or,
/// if it is flagged for removal, replaced by its own children. Gives up
/// with `TreeReconstitutionTimeout` if records are left after `MAX_ITERS`
/// passes.
pub fn reconstitute<S: Copy>(records: Vec<IntermediateNode<S>>) -> (r: Result<
    Tree<S>,
    ExecutionError,
>)
    ensures
        reconstitutes(records_view(records@), r),
{
    let ghost recs = records_view(records@);
    let n = records.len();
    let mut flat: Vec<Option<IntermediateNode<S>>> = Vec::new();
    for rec in it: records
        invariant
            flat.len() == it.index(),
            it.seq().len() == n,
            recs == records_view(it.seq()),
            forall|i: int| 0 <= i < flat.len() ==> (#[trigger] flat@[i]) == Some(it.seq()[i]),
    {
        flat.push(Some(rec));
    }
    let mut roots: Vec<Node<S>> = Vec::new();
    let mut selectors: Vec<S> = Vec::new();
    let mut locations: StringHashMap<Vec<usize>> = StringHashMap::new();
    let ghost mut b: Build<S> = start(recs);
    proof {
        assert(pending_view(flat@) =~= b.pending);
        assert(nodes_view(roots@) =~= b.roots);
        assert(locations_view(locations@) =~= b.locations);
    }
    let mut iters: usize = 0;
    while iters < MAX_ITERS && has_pending(&flat)
        invariant
            iters <= MAX_ITERS,
            n == recs.len(),
            holds_records(flat@, recs),
            pending_view(flat@) == b.pending,
            nodes_view(roots@) == b.roots,
            selectors@ == b.selectors,
            locations_view(locations@) == b.locations,
            build_wf(b),
            run(b, recs, iters as nat) == run(start(recs), recs, 0),
        decreases MAX_ITERS - iters,
    {
        let ghost b0 = b;
        assert(any_pending(b0));
        let mut i: usize = 0;
        while i < n
            invariant
                i <= n,
                n == recs.len(),
                holds_records(flat@, recs),
                pending_view(flat@) == b.pending,
                nodes_view(roots@) == b.roots,
                selectors@ == b.selectors,
                locations_view(locations@) == b.locations,
                build_wf(b),
                b == sweep(b0, recs, i as nat),
            decreases n - i,
        {
            let ghost before = b;
            proof {
                lemma_visit_wf(before, recs[i as int], i as int);
                assert(pending_view(flat@)[i as int] == (flat@[i as int] is Some));
            }
            let ready: Option<Vec<usize>> = match &flat[i] {
                None => None,
                Some(rec) => match &rec.parent_id {
                    None => Some(Vec::new()),
                    Some(p) => match locations.get(p.as_str()) {
                        Some(loc) => Some(copy_loc(loc)),
                        None => None,
                    },
                },
            };
            proof {
                b = visit(before, recs[i as int], i as int);
            }
            match ready {
                None => {
                    assert(b == before);
                },
                Some(parent_loc) => {
                    let ghost parent = path(parent_loc@);
                    proof {
                        let rec = flat@[i as int]->0;
                        assert(rec@ == recs[i as int]);
                        match rec.parent_id {
                            None => {
                                assert(parent =~= Seq::<int>::empty());
                            },
                            Some(p) => {
                                assert(locations_view(locations@).contains_key(p@));
                                assert(parent == before.locations[p@]);
                            },
                        }
                        assert(b == place(before, recs[i as int], i as int, parent));
                        assert(valid_loc(before.roots, parent));
                    }
                    let taken = flat[i].take();
                    let rec = taken.unwrap();
                    let id = rec.id.clone();
                    let ghost old_locations = locations@;
                    if rec.remove {
                        locations.insert(id, parent_loc);
                        proof {
                            assert(locations_view(locations@) =~= b.locations);
                        }
                    } else {
                        selectors.push(rec.selector);
                        let node = rec.into_final();
                        proof {
                            assert(path(parent_loc@).skip(0) =~= parent);
                        }
                        let index = attach(&mut roots, &parent_loc, 0, node);
                        let mut self_loc = parent_loc;
                        self_loc.push(index);
                        proof {
                            assert(path(self_loc@) =~= parent.push(index as int));
                        }
                        locations.insert(id, self_loc);
                        proof {
                            assert(locations_view(locations@) =~= b.locations);
                        }
                    }
                    proof {
                        assert(pending_view(flat@) =~= b.pending);
                    }
                },
            }
            i += 1;
        }
        iters += 1;
    }
    if has_pending(&flat) {
        proof {
            assert(any_pending(b));
        }
        Err(ExecutionError::TreeReconstitutionTimeout { iterations: MAX_ITERS })
    } else {
        proof {
            assert(!any_pending(b));
        }
        Ok(Tree { roots, selectors })
    }
}

} // verus!
