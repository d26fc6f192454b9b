use voxurf::error::ExecutionError;
use voxurf::properties::Properties;
use voxurf::reconstitute::{reconstitute, IntermediateNode, MAX_ITERS};
use voxurf::tree::{Node, Tree};

fn record(id: &str, parent: Option<&str>, selector: u32, remove: bool) -> IntermediateNode<u32> {
    IntermediateNode {
        id: id.to_string(),
        parent_id: parent.map(|p| p.to_string()),
        selector,
        name: Some(format!("node {id}")),
        description: None,
        role: None,
        value: None,
        properties: Properties::new(),
        remove,
    }
}

fn node(id: &str, selector: u32, children: Vec<Node<u32>>) -> Node<u32> {
    Node {
        selector,
        name: Some(format!("node {id}")),
        description: None,
        role: None,
        state: None,
        properties: Properties::new(),
        children,
    }
}

#[test]
fn same_input_gives_structurally_identical_trees() {
    let make = || {
        vec![
            record("1", None, 10, false),
            record("2", Some("1"), 20, false),
            record("3", Some("2"), 30, true),
            record("4", Some("3"), 40, false),
            record("5", Some("1"), 50, false),
        ]
    };
    let first = reconstitute(make()).unwrap();
    let second = reconstitute(make()).unwrap();
    assert_eq!(first, second);
}

#[test]
fn removed_root_hoists_its_two_children_in_order() {
    let tree = reconstitute(vec![
        record("root", None, 1, true),
        record("a", Some("root"), 2, false),
        record("b", Some("root"), 3, false),
    ])
    .unwrap();
    assert_eq!(tree.roots.len(), 2);
    assert_eq!(tree.roots[0].selector, 2);
    assert_eq!(tree.roots[1].selector, 3);
    assert_eq!(tree.selectors, vec![2, 3]);
    let expected = Tree { roots: vec![node("a", 2, vec![]), node("b", 3, vec![])], selectors: vec![2, 3] };
    assert_eq!(tree, expected);
}

#[test]
fn record_with_unknown_parent_times_out_after_fifty_passes() {
    let result = reconstitute(vec![
        record("1", None, 10, false),
        record("2", Some("missing"), 20, false),
    ]);
    assert_eq!(result.unwrap_err(), ExecutionError::TreeReconstitutionTimeout { iterations: 50 });
    assert_eq!(MAX_ITERS, 50);
}

#[test]
fn no_records_give_the_empty_tree() {
    let tree = reconstitute(Vec::<IntermediateNode<u32>>::new()).unwrap();
    assert!(tree.roots.is_empty());
    assert!(tree.selectors.is_empty());
}

#[test]
fn nested_records_become_nested_nodes() {
    let tree = reconstitute(vec![
        record("1", None, 10, false),
        record("2", Some("1"), 20, false),
        record("3", Some("2"), 30, false),
        record("4", Some("1"), 40, false),
    ])
    .unwrap();
    let expected = Tree {
        roots: vec![node(
            "1",
            10,
            vec![node("2", 20, vec![node("3", 30, vec![])]), node("4", 40, vec![])],
        )],
        selectors: vec![10, 20, 30, 40],
    };
    assert_eq!(tree, expected);
}

#[test]
fn children_of_a_removed_node_attach_under_its_parent() {
    let tree = reconstitute(vec![
        record("1", None, 10, false),
        record("2", Some("1"), 20, true),
        record("3", Some("2"), 30, false),
        record("4", Some("2"), 40, false),
    ])
    .unwrap();
    let expected = Tree {
        roots: vec![node("1", 10, vec![node("3", 30, vec![]), node("4", 40, vec![])])],
        selectors: vec![10, 30, 40],
    };
    assert_eq!(tree, expected);
}

#[test]
fn chain_of_removed_nodes_is_spliced_out() {
    let tree = reconstitute(vec![
        record("1", None, 10, true),
        record("2", Some("1"), 20, true),
        record("3", Some("2"), 30, false),
    ])
    .unwrap();
    let expected = Tree { roots: vec![node("3", 30, vec![])], selectors: vec![30] };
    assert_eq!(tree, expected);
}

#[test]
fn child_listed_before_its_parent_is_placed_in_a_later_pass() {
    let tree = reconstitute(vec![
        record("early", Some("p"), 1, false),
        record("p", None, 2, false),
        record("late", Some("p"), 3, false),
    ])
    .unwrap();
    // The child that had to wait is discovered after its sibling.
    let expected = Tree {
        roots: vec![node("p", 2, vec![node("late", 3, vec![]), node("early", 1, vec![])])],
        selectors: vec![2, 3, 1],
    };
    assert_eq!(tree, expected);
}

#[test]
fn records_that_name_each_other_as_parents_time_out() {
    let result = reconstitute(vec![
        record("a", Some("b"), 1, false),
        record("b", Some("a"), 2, false),
    ]);
    assert_eq!(result.unwrap_err(), ExecutionError::TreeReconstitutionTimeout { iterations: 50 });
}

#[test]
fn chain_in_reverse_order_needs_one_pass_per_level() {
    // Forty-nine levels listed deepest first resolve within the fifty passes.
    let depth = 49;
    let mut records = Vec::new();
    for level in (0..depth).rev() {
        let parent = if level == 0 { None } else { Some((level - 1).to_string()) };
        records.push(IntermediateNode {
            id: level.to_string(),
            parent_id: parent,
            selector: level as u32,
            name: None,
            description: None,
            role: None,
            value: None,
            properties: Properties::new(),
            remove: false,
        });
    }
    let tree = reconstitute(records).unwrap();
    assert_eq!(tree.roots.len(), 1);
    assert_eq!(tree.selectors.len(), depth);
    assert_eq!(tree.selectors[0], 0);
    assert_eq!(tree.selectors[depth - 1], (depth - 1) as u32);
}

#[test]
fn chain_in_reverse_order_deeper_than_the_cap_times_out() {
    let depth = 51;
    let mut records = Vec::new();
    for level in (0..depth).rev() {
        let parent = if level == 0 { None } else { Some((level - 1).to_string()) };
        records.push(IntermediateNode {
            id: level.to_string(),
            parent_id: parent,
            selector: level as u32,
            name: None,
            description: None,
            role: None,
            value: None,
            properties: Properties::new(),
            remove: false,
        });
    }
    assert_eq!(
        reconstitute(records).unwrap_err(),
        ExecutionError::TreeReconstitutionTimeout { iterations: 50 }
    );
}

#[test]
fn payload_is_carried_into_the_node() {
    let mut properties = Properties::new();
    properties.insert("expanded".to_string(), "false".to_string());
    let tree = reconstitute(vec![IntermediateNode {
        id: "1".to_string(),
        parent_id: None,
        selector: 7u32,
        name: Some("Search".to_string()),
        description: Some("Search the site".to_string()),
        role: Some("combobox".to_string()),
        value: Some("foo".to_string()),
        properties,
        remove: false,
    }])
    .unwrap();
    let n = &tree.roots[0];
    assert_eq!(n.selector, 7);
    assert_eq!(n.name.as_deref(), Some("Search"));
    assert_eq!(n.description.as_deref(), Some("Search the site"));
    assert_eq!(n.role.as_deref(), Some("combobox"));
    assert_eq!(n.state.as_deref(), Some("foo"));
    assert_eq!(n.properties.get("expanded").map(|s| s.as_str()), Some("false"));
    assert!(n.children.is_empty());
}

#[test]
fn into_final_keeps_the_payload_and_has_no_children() {
    let n = record("x", Some("y"), 9, true).into_final();
    assert_eq!(n.selector, 9);
    assert_eq!(n.name.as_deref(), Some("node x"));
    assert!(n.children.is_empty());
}
