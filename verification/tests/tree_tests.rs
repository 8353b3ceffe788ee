use std::collections::BTreeSet;

use pyuml::graph_to_uml::build_tree_from_dependency_graph;
use pyuml::module::PythonModule;
use pyuml::graph::Graph;
use pyuml::tree::{insert, TreeNode};

fn segs(parts: &[&str]) -> Vec<String> {
    parts.iter().map(|s| s.to_string()).collect()
}

fn collect_leaves(node: &TreeNode, out: &mut Vec<String>) {
    if node.get_children().is_empty() {
        out.push(node.get_value().clone());
    } else {
        for child in node.get_children() {
            collect_leaves(child, out);
        }
    }
}

#[test]
fn insert_creates_missing_children_in_order() {
    let mut root = TreeNode::new("root".to_string());
    insert(&mut root, segs(&["a", "x"]));
    insert(&mut root, segs(&["b"]));
    insert(&mut root, segs(&["a", "y"]));
    let names: Vec<String> =
        root.get_children().iter().map(|c| c.get_value().clone()).collect();
    assert_eq!(names, vec!["a".to_string(), "b".to_string()]);
    let a = &root.get_children()[0];
    let under_a: Vec<String> = a.get_children().iter().map(|c| c.get_value().clone()).collect();
    assert_eq!(under_a, vec!["x".to_string(), "y".to_string()]);
}

#[test]
fn duplicate_insert_changes_nothing() {
    let mut root = TreeNode::new("root".to_string());
    insert(&mut root, segs(&["a", "x"]));
    insert(&mut root, segs(&["a", "x"]));
    assert_eq!(root.get_children().len(), 1);
    assert_eq!(root.get_children()[0].get_children().len(), 1);
}

#[test]
fn add_child_appends() {
    let mut root = TreeNode::new("root".to_string());
    root.add_child(TreeNode::new("one".to_string()));
    root.add_child(TreeNode::new("two".to_string()));
    assert_eq!(root.get_children().len(), 2);
    assert_eq!(root.get_children()[1].get_value(), "two");
}

#[test]
fn leaf_round_trip_for_prefix_free_paths() {
    // inserting every node's path segments and collecting the leaves
    // yields exactly the module names, when no path is a prefix of another
    let mut root = TreeNode::new("proj".to_string());
    let paths: Vec<Vec<String>> = vec![
        segs(&["pkg", "a"]),
        segs(&["pkg", "b"]),
        segs(&["other", "deep", "c"]),
        segs(&["top"]),
    ];
    for p in &paths {
        insert(&mut root, p.clone());
    }
    let mut leaves = Vec::new();
    collect_leaves(&root, &mut leaves);
    let got: BTreeSet<String> = leaves.into_iter().collect();
    let want: BTreeSet<String> =
        ["a", "b", "c", "top"].iter().map(|s| s.to_string()).collect();
    assert_eq!(got, want);
}

#[test]
fn graph_tree_groups_modules_by_package() {
    let mut graph: Graph<PythonModule> = Graph::new();
    graph.add_node(&PythonModule::new("a", &segs(&["pkg"]))).unwrap();
    graph.add_node(&PythonModule::new("b", &segs(&["pkg"]))).unwrap();
    graph.add_node(&PythonModule::new("solo", &Vec::new())).unwrap();
    let tree = build_tree_from_dependency_graph(&graph);
    assert_eq!(tree.get_value(), "pygrader");
    let mut leaves = Vec::new();
    collect_leaves(&tree, &mut leaves);
    let got: BTreeSet<String> = leaves.into_iter().collect();
    let want: BTreeSet<String> = ["a", "b", "solo"].iter().map(|s| s.to_string()).collect();
    assert_eq!(got, want);
    // empty package segments are dropped from the grouping
    let mut graph2: Graph<PythonModule> = Graph::new();
    graph2.add_node(&PythonModule::new("m", &segs(&[""]))).unwrap();
    let tree2 = build_tree_from_dependency_graph(&graph2);
    assert_eq!(tree2.get_children().len(), 1);
    assert_eq!(tree2.get_children()[0].get_value(), "m");
}
