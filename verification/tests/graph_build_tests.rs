use pyuml::pyast::ImportStmt;
use pyuml::python_to_graph::{build_dependency_graph, extract_module_name_from_file_path,
    extract_packages, SourceFile};
use pyuml::python_utils::ProjectFs;
use pyuml::module::PythonModule;

fn segs(parts: &[&str]) -> Vec<String> {
    parts.iter().map(|s| s.to_string()).collect()
}

#[test]
fn file_stem_cases() {
    assert_eq!(extract_module_name_from_file_path(&"b.py".to_string()), "b");
    assert_eq!(extract_module_name_from_file_path(&"b.tar.py".to_string()), "b.tar");
    assert_eq!(extract_module_name_from_file_path(&"plain".to_string()), "plain");
    assert_eq!(extract_module_name_from_file_path(&".py".to_string()), ".py");
}

#[test]
fn packages_are_directory_segments() {
    assert_eq!(extract_packages(&segs(&["pkg", "sub", "m.py"])), segs(&["pkg", "sub"]));
    assert_eq!(extract_packages(&segs(&["m.py"])), Vec::<String>::new());
}

#[test]
fn two_files_one_internal_import() {
    // pkg/a.py is empty; pkg/b.py holds `from pkg import a`
    let mut fs = ProjectFs::new();
    fs.add_dir(segs(&["pkg"]));
    fs.add_file(segs(&["pkg", "a.py"]));
    fs.add_file(segs(&["pkg", "b.py"]));
    let files = vec![
        SourceFile { path_segments: segs(&["pkg", "a.py"]), imports: vec![] },
        SourceFile {
            path_segments: segs(&["pkg", "b.py"]),
            imports: vec![ImportStmt::From {
                module: Some("pkg".to_string()),
                names: vec!["a".to_string()],
            }],
        },
    ];
    let graph = build_dependency_graph(&files, &fs);
    let nodes = graph.get_nodes();
    assert_eq!(nodes.len(), 2);
    let a = PythonModule::new("a", &segs(&["pkg"]));
    let b = PythonModule::new("b", &segs(&["pkg"]));
    assert!(graph.is_node_in_graph(&a));
    assert!(graph.is_node_in_graph(&b));
    assert!(graph.does_edge_exist(&b, &a));
    assert!(!graph.does_edge_exist(&a, &b));
    let edges = graph.get_edges(&b).unwrap();
    assert_eq!(edges.len(), 1);
    assert_eq!(edges[0].get_name(), "a");
    assert_eq!(*edges[0].get_packages(), segs(&["pkg"]));
}

#[test]
fn external_imports_are_discarded() {
    let mut fs = ProjectFs::new();
    fs.add_dir(segs(&["pkg"]));
    fs.add_file(segs(&["pkg", "b.py"]));
    let files = vec![SourceFile {
        path_segments: segs(&["pkg", "b.py"]),
        imports: vec![
            ImportStmt::Plain { names: vec!["os".to_string(), "sys.path".to_string()] },
            ImportStmt::From { module: None, names: vec!["rel".to_string()] },
        ],
    }];
    let graph = build_dependency_graph(&files, &fs);
    assert_eq!(graph.get_nodes().len(), 1);
}

#[test]
fn repeated_dependency_yields_one_edge() {
    let mut fs = ProjectFs::new();
    fs.add_dir(segs(&["pkg"]));
    fs.add_file(segs(&["pkg", "a.py"]));
    fs.add_file(segs(&["pkg", "b.py"]));
    let files = vec![SourceFile {
        path_segments: segs(&["pkg", "b.py"]),
        imports: vec![
            ImportStmt::From { module: Some("pkg".to_string()), names: vec!["a".to_string()] },
            ImportStmt::Plain { names: vec!["pkg.a".to_string()] },
        ],
    }];
    let graph = build_dependency_graph(&files, &fs);
    assert_eq!(graph.get_nodes().len(), 2);
    let b = PythonModule::new("b", &segs(&["pkg"]));
    let edges = graph.get_edges(&b).unwrap();
    assert_eq!(edges.len(), 1);
}

#[test]
fn import_of_whole_package_makes_package_node() {
    let mut fs = ProjectFs::new();
    fs.add_dir(segs(&["pkg"]));
    fs.add_file(segs(&["main.py"]));
    let files = vec![SourceFile {
        path_segments: segs(&["main.py"]),
        imports: vec![ImportStmt::Plain { names: vec!["pkg".to_string()] }],
    }];
    let graph = build_dependency_graph(&files, &fs);
    assert_eq!(graph.get_nodes().len(), 2);
    let pkg = PythonModule::new("pkg", &Vec::new());
    let main = PythonModule::new("main", &Vec::new());
    assert!(graph.does_edge_exist(&main, &pkg));
}
