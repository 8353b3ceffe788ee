use pyuml::graph::{Graph, GraphError};
use pyuml::module::PythonModule;

fn m(name: &str, pkgs: &[&str]) -> PythonModule {
    let packages: Vec<String> = pkgs.iter().map(|s| s.to_string()).collect();
    PythonModule::new(name, &packages)
}

#[test]
fn added_node_is_present() {
    let mut g: Graph<PythonModule> = Graph::new();
    let a = m("a", &["pkg"]);
    assert!(!g.is_node_in_graph(&a));
    assert!(g.add_node(&a).is_ok());
    assert!(g.is_node_in_graph(&a));
}

#[test]
fn duplicate_node_reported_without_growth() {
    let mut g: Graph<PythonModule> = Graph::new();
    let a = m("a", &[]);
    assert!(g.add_node(&a).is_ok());
    assert_eq!(g.get_nodes().len(), 1);
    let again = m("a", &[]);
    assert_eq!(g.add_node(&again), Err(GraphError::DuplicateNode));
    assert_eq!(g.get_nodes().len(), 1);
}

#[test]
fn edge_requires_both_endpoints() {
    let mut g: Graph<PythonModule> = Graph::new();
    let a = m("a", &[]);
    let b = m("b", &[]);
    assert_eq!(g.add_edge(&a, &b), Err(GraphError::EndpointMissing));
    g.add_node(&a).unwrap();
    assert_eq!(g.add_edge(&a, &b), Err(GraphError::EndpointMissing));
    g.add_node(&b).unwrap();
    assert!(g.add_edge(&a, &b).is_ok());
    assert!(g.does_edge_exist(&a, &b));
    assert!(!g.does_edge_exist(&b, &a));
}

#[test]
fn duplicate_edge_reported_and_edges_unchanged() {
    let mut g: Graph<PythonModule> = Graph::new();
    let a = m("a", &[]);
    let b = m("b", &[]);
    g.add_node(&a).unwrap();
    g.add_node(&b).unwrap();
    g.add_edge(&a, &b).unwrap();
    let before: Vec<String> = g
        .get_edges(&a)
        .unwrap()
        .iter()
        .map(|n| n.get_name().clone())
        .collect();
    assert_eq!(g.add_edge(&a, &b), Err(GraphError::DuplicateEdge));
    let after: Vec<String> = g
        .get_edges(&a)
        .unwrap()
        .iter()
        .map(|n| n.get_name().clone())
        .collect();
    assert_eq!(before, after);
    assert_eq!(after, vec!["b".to_string()]);
}

#[test]
fn get_edges_reports_missing_and_empty() {
    let mut g: Graph<PythonModule> = Graph::new();
    let a = m("a", &[]);
    let ghost = m("ghostly", &[]);
    g.add_node(&a).unwrap();
    assert!(matches!(g.get_edges(&ghost), Err(GraphError::NodeMissing)));
    // a present node with no outgoing edges yields the empty sequence
    assert_eq!(g.get_edges(&a).unwrap().len(), 0);
}

#[test]
fn edges_keep_insertion_order() {
    let mut g: Graph<PythonModule> = Graph::new();
    let a = m("a", &[]);
    let b = m("b", &[]);
    let c = m("c", &[]);
    g.add_node(&a).unwrap();
    g.add_node(&b).unwrap();
    g.add_node(&c).unwrap();
    g.add_edge(&a, &c).unwrap();
    g.add_edge(&a, &b).unwrap();
    let names: Vec<String> = g
        .get_edges(&a)
        .unwrap()
        .iter()
        .map(|n| n.get_name().clone())
        .collect();
    assert_eq!(names, vec!["c".to_string(), "b".to_string()]);
}

#[test]
fn node_identity_includes_packages() {
    let mut g: Graph<PythonModule> = Graph::new();
    let a1 = m("a", &["p"]);
    let a2 = m("a", &["q"]);
    g.add_node(&a1).unwrap();
    assert!(!g.is_node_in_graph(&a2));
    g.add_node(&a2).unwrap();
    assert_eq!(g.get_nodes().len(), 2);
}
