use pyuml::file_utils::{has_puml_extension, is_path_ignored};
use pyuml::python_utils::{extract_module_name_from_import, is_import_internal, split_import,
    ProjectFs};

fn segs(parts: &[&str]) -> Vec<String> {
    parts.iter().map(|s| s.to_string()).collect()
}

fn sample_fs() -> ProjectFs {
    let mut fs = ProjectFs::new();
    fs.add_dir(segs(&["pkg"]));
    fs.add_dir(segs(&["pkg", "sub"]));
    fs.add_file(segs(&["pkg", "a.py"]));
    fs.add_file(segs(&["pkg", "sub", "deep.py"]));
    fs.add_file(segs(&["rootmod.py"]));
    fs
}

#[test]
fn split_on_dots() {
    assert_eq!(split_import("a.b.c"), vec!["a".to_string(), "b".to_string(), "c".to_string()]);
    assert_eq!(split_import("single"), vec!["single".to_string()]);
    assert_eq!(split_import(""), vec!["".to_string()]);
    assert_eq!(split_import("a..b"), vec!["a".to_string(), "".to_string(), "b".to_string()]);
}

#[test]
fn internality_requires_a_root_directory() {
    let fs = sample_fs();
    assert!(is_import_internal(&"pkg.a".to_string(), &fs));
    assert!(is_import_internal(&"pkg".to_string(), &fs));
    assert!(!is_import_internal(&"os.path".to_string(), &fs));
    // a root-level module file is not a directory, so this import is
    // classified external even though the canonical walk would accept it
    assert!(!is_import_internal(&"rootmod".to_string(), &fs));
}

#[test]
fn canonical_path_is_longest_resolvable_prefix() {
    let fs = sample_fs();
    assert_eq!(extract_module_name_from_import(&"pkg.a".to_string(), &fs), "pkg.a");
    assert_eq!(extract_module_name_from_import(&"pkg.sub.deep".to_string(), &fs), "pkg.sub.deep");
    assert_eq!(extract_module_name_from_import(&"pkg.a.symbol".to_string(), &fs), "pkg.a");
    assert_eq!(extract_module_name_from_import(&"pkg.missing".to_string(), &fs), "pkg");
    assert_eq!(extract_module_name_from_import(&"nowhere.at.all".to_string(), &fs), "");
    assert_eq!(extract_module_name_from_import(&"rootmod".to_string(), &fs), "rootmod");
}

#[test]
fn resolution_is_idempotent() {
    let fs = sample_fs();
    let import = "pkg.sub.deep.thing".to_string();
    let first = extract_module_name_from_import(&import, &fs);
    let second = extract_module_name_from_import(&import, &fs);
    assert_eq!(first, second);
    assert_eq!(is_import_internal(&import, &fs), is_import_internal(&import, &fs));
}

#[test]
fn ignore_list_matches_substrings() {
    assert!(is_path_ignored(&"proj/.venv/lib/thing.py".to_string()));
    assert!(is_path_ignored(&"proj/tests/test_a.py".to_string()));
    assert!(is_path_ignored(&"proj/docs/conf.py".to_string()));
    assert!(is_path_ignored(&"proj/pkg/__init__.py".to_string()));
    assert!(!is_path_ignored(&"proj/pkg/module.py".to_string()));
}

#[test]
fn output_path_extension() {
    assert!(has_puml_extension(&"out/diagram.puml".to_string()));
    assert!(has_puml_extension(&"diagram.puml".to_string()));
    assert!(!has_puml_extension(&"diagram.png".to_string()));
    assert!(!has_puml_extension(&"diagram".to_string()));
    assert!(!has_puml_extension(&"dir.puml/diagram".to_string()));
    assert!(!has_puml_extension(&".puml".to_string()));
}
