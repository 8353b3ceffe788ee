use pyuml::graph::Graph;
use pyuml::graph_to_uml;
use pyuml::model_to_uml;
use pyuml::models::{ClassModel, Function, Variable, Visibility, ClassType};
use pyuml::module::PythonModule;

fn segs(parts: &[&str]) -> Vec<String> {
    parts.iter().map(|s| s.to_string()).collect()
}

#[test]
fn class_diagram_exact_lines() {
    let attr = Variable::new(&"x".to_string(), Visibility::PUBLIC, &"".to_string());
    let hidden = Variable::new(&"__y".to_string(), Visibility::PRIVATE, &"int".to_string());
    let arg = Variable::new(&"n".to_string(), Visibility::PUBLIC, &"int".to_string());
    let meth = Function::new(
        &"run".to_string(),
        Visibility::PUBLIC,
        Some(vec![arg]),
        Some("str".to_string()),
    );
    let quiet = Function::new(&"_stop".to_string(), Visibility::PROTECTED, None, None);
    let model = ClassModel::new(
        &"Foo".to_string(),
        Some(vec![attr, hidden]),
        Some(vec![meth, quiet]),
        None,
        ClassType::CLASS,
        None,
        None,
    );
    let lines = model_to_uml::generate_plantuml(&vec![model]);
    let expected = vec![
        "@startuml",
        "",
        "class Foo {",
        "    + x",
        "    - __y : int",
        "    + run(n: int) : str",
        "    # _stop() : void",
        "}",
        "",
        "",
        "@enduml",
    ];
    let got: Vec<&str> = lines.iter().map(|s| s.as_str()).collect();
    assert_eq!(got, expected);
}

#[test]
fn empty_model_list_renders_frame_only() {
    let lines = model_to_uml::generate_plantuml(&vec![]);
    let got: Vec<&str> = lines.iter().map(|s| s.as_str()).collect();
    assert_eq!(got, vec!["@startuml", "", "@enduml"]);
}

#[test]
fn dependency_diagram_has_frame_style_packages_and_edges() {
    let mut graph: Graph<PythonModule> = Graph::new();
    let a = PythonModule::new("a", &segs(&["pkg"]));
    let b = PythonModule::new("b", &segs(&["pkg"]));
    graph.add_node(&a).unwrap();
    graph.add_node(&b).unwrap();
    graph.add_edge(&b, &a).unwrap();
    let lines = graph_to_uml::generate_plantuml(&graph);
    let got: Vec<&str> = lines.iter().map(|s| s.as_str()).collect();
    assert_eq!(got[0], "@startuml");
    assert_eq!(*got.last().unwrap(), "@enduml");
    assert!(got.contains(&"skinparam packageStyle rectangle"));
    assert!(got.contains(&"left to right direction"));
    assert!(got.contains(&"package \"pygrader\" {"));
    assert!(got.contains(&"    package \"pkg\" {"));
    assert!(got.contains(&"        [\"a\"]"));
    assert!(got.contains(&"        [\"b\"]"));
    assert!(got.contains(&"[\"b\"] -[#1f77b4]-> [\"a\"]"));
}

#[test]
fn children_render_in_reverse_insertion_order() {
    let mut graph: Graph<PythonModule> = Graph::new();
    graph.add_node(&PythonModule::new("first", &Vec::new())).unwrap();
    graph.add_node(&PythonModule::new("second", &Vec::new())).unwrap();
    let lines = graph_to_uml::generate_plantuml(&graph);
    let got: Vec<String> = lines.iter().map(|s| s.to_string()).collect();
    let pos_first = got.iter().position(|l| l == "    [\"first\"]").unwrap();
    let pos_second = got.iter().position(|l| l == "    [\"second\"]").unwrap();
    assert!(pos_second < pos_first);
}

#[test]
fn edge_colors_cycle_per_start_node() {
    let mut graph: Graph<PythonModule> = Graph::new();
    let hub = PythonModule::new("hub", &Vec::new());
    graph.add_node(&hub).unwrap();
    for i in 0..11 {
        let name = format!("t{}", i);
        let t = PythonModule::new(&name, &Vec::new());
        graph.add_node(&t).unwrap();
        graph.add_edge(&hub, &t).unwrap();
    }
    let lines = graph_to_uml::generate_plantuml(&graph);
    let got: Vec<&str> = lines.iter().map(|s| s.as_str()).collect();
    assert!(got.contains(&"[\"hub\"] -[#1f77b4]-> [\"t0\"]"));
    assert!(got.contains(&"[\"hub\"] -[#17becf]-> [\"t9\"]"));
    assert!(got.contains(&"[\"hub\"] -[#1f77b4]-> [\"t10\"]"));
}
