use pyuml::models::{ClassType, Visibility};
use pyuml::pyast::{BaseExpr, PyClassDef, PyClassItem, PyFunctionDef, PyParam, PyStmt, TargetExpr,
    TypeExpr};
use pyuml::python_to_model::{determine_class_type_from_parents, extract_visibility,
    generate_model, generate_models};

fn fun(name: &str, decorators: &[&str], body: Vec<PyStmt>) -> PyFunctionDef {
    PyFunctionDef {
        name: name.to_string(),
        decorators: decorators.iter().map(|d| d.to_string()).collect(),
        args: vec![],
        posonlyargs: vec![],
        kwonlyargs: vec![],
        vararg: None,
        kwarg: None,
        returns: None,
        body,
    }
}

fn self_assign(attr: &str) -> PyStmt {
    PyStmt::Assign(TargetExpr::Attribute { object: "self".to_string(), attr: attr.to_string() })
}

#[test]
fn visibility_is_lexical() {
    assert_eq!(extract_visibility(&"__x".to_string()), Visibility::PRIVATE);
    assert_eq!(extract_visibility(&"_x".to_string()), Visibility::PROTECTED);
    assert_eq!(extract_visibility(&"x".to_string()), Visibility::PUBLIC);
    assert_eq!(extract_visibility(&"__x__".to_string()), Visibility::PUBLIC);
    assert_eq!(extract_visibility(&"__init__".to_string()), Visibility::PUBLIC);
    assert_eq!(extract_visibility(&"_".to_string()), Visibility::PROTECTED);
    assert_eq!(extract_visibility(&"__".to_string()), Visibility::PUBLIC);
}

#[test]
fn class_type_priority_order() {
    let abc_enum = vec!["ABC".to_string(), "Enum".to_string()];
    assert_eq!(determine_class_type_from_parents(&abc_enum), ClassType::ABSTRACT);
    let just_enum = vec!["Enum".to_string()];
    assert_eq!(determine_class_type_from_parents(&just_enum), ClassType::ENUM);
    let qualified_enum = vec!["enum.Enum".to_string()];
    assert_eq!(determine_class_type_from_parents(&qualified_enum), ClassType::ENUM);
    let exc = vec!["Exception".to_string()];
    assert_eq!(determine_class_type_from_parents(&exc), ClassType::EXCEPTION);
    let plain = vec!["Base".to_string()];
    assert_eq!(determine_class_type_from_parents(&plain), ClassType::CLASS);
    let none: Vec<String> = vec![];
    assert_eq!(determine_class_type_from_parents(&none), ClassType::CLASS);
    assert_eq!(determine_class_type_from_parents(&vec!["ABCMeta".to_string()]),
        ClassType::ABSTRACT);
}

#[test]
fn abstract_class_with_attribute() {
    // class Foo(ABC): def __init__(self): self.x = 1
    let init = fun("__init__", &[], vec![self_assign("x")]);
    let class = PyClassDef {
        name: "Foo".to_string(),
        bases: Some(vec![BaseExpr::Named("ABC".to_string())]),
        body: vec![PyClassItem::Def(init)],
    };
    let model = generate_model(&class);
    assert_eq!(model.name(), "Foo");
    assert_eq!(*model.class_type(), ClassType::ABSTRACT);
    let attrs = model.attributes().as_ref().unwrap();
    assert_eq!(attrs.len(), 1);
    assert_eq!(attrs[0].name(), "x");
    assert_eq!(*attrs[0].visibility(), Visibility::PUBLIC);
    assert_eq!(attrs[0].variable_type(), "");
    assert!(model.methods().is_none());
    assert!(model.properties().is_none());
    assert!(model.static_methods().is_none());
    assert!(model.abstract_methods().is_none());
}

#[test]
fn attribute_scan_descends_into_nested_statements() {
    let init = fun(
        "__init__",
        &[],
        vec![
            self_assign("a"),
            PyStmt::Nested(vec![self_assign("b"), PyStmt::Nested(vec![self_assign("c")])]),
            PyStmt::AugAssign(TargetExpr::Attribute {
                object: "self".to_string(),
                attr: "d".to_string(),
            }),
            PyStmt::AnnAssign(TargetExpr::Attribute {
                object: "other".to_string(),
                attr: "skipped".to_string(),
            }),
            PyStmt::Assign(TargetExpr::Other),
            PyStmt::Other,
        ],
    );
    let class = PyClassDef { name: "C".to_string(), bases: None, body: vec![PyClassItem::Def(init)] };
    let model = generate_model(&class);
    let names: Vec<String> =
        model.attributes().as_ref().unwrap().iter().map(|v| v.name().clone()).collect();
    assert_eq!(names, vec!["a".to_string(), "b".to_string(), "c".to_string(), "d".to_string()]);
}

#[test]
fn missing_constructor_means_absent_attributes() {
    let class = PyClassDef {
        name: "C".to_string(),
        bases: None,
        body: vec![PyClassItem::Def(fun("helper", &[], vec![]))],
    };
    let model = generate_model(&class);
    assert!(model.attributes().is_none());
    let methods = model.methods().as_ref().unwrap();
    assert_eq!(methods.len(), 1);
    assert_eq!(methods[0].name(), "helper");
}

#[test]
fn marker_priority_property_first() {
    let f = fun("p", &["staticmethod", "property"], vec![]);
    let class = PyClassDef { name: "C".to_string(), bases: None, body: vec![PyClassItem::Def(f)] };
    let model = generate_model(&class);
    assert!(model.methods().is_none());
    assert!(model.static_methods().is_none());
    let props = model.properties().as_ref().unwrap();
    assert_eq!(props.len(), 1);
    assert_eq!(props[0].name(), "p");
}

#[test]
fn methods_partition_by_marker() {
    let class = PyClassDef {
        name: "C".to_string(),
        bases: None,
        body: vec![
            PyClassItem::Def(fun("plain", &[], vec![])),
            PyClassItem::Def(fun("stat", &["staticmethod"], vec![])),
            PyClassItem::Def(fun("abs", &["abstractmethod"], vec![])),
            PyClassItem::Def(fun("prop", &["property"], vec![])),
            PyClassItem::Other,
        ],
    };
    let model = generate_model(&class);
    assert_eq!(model.methods().as_ref().unwrap()[0].name(), "plain");
    assert_eq!(model.static_methods().as_ref().unwrap()[0].name(), "stat");
    assert_eq!(model.abstract_methods().as_ref().unwrap()[0].name(), "abs");
    assert_eq!(model.properties().as_ref().unwrap()[0].name(), "prop");
}

#[test]
fn argument_groups_and_types() {
    let mut f = fun("meth", &[], vec![]);
    f.args = vec![
        PyParam { name: "self".to_string(), annotation: None },
        PyParam { name: "x".to_string(), annotation: Some(TypeExpr::Named("int".to_string())) },
    ];
    f.kwonlyargs = vec![PyParam {
        name: "opt".to_string(),
        annotation: Some(TypeExpr::Opaque),
    }];
    f.vararg = Some(PyParam { name: "rest".to_string(), annotation: None });
    f.returns = Some(TypeExpr::Named("str".to_string()));
    let class = PyClassDef { name: "C".to_string(), bases: None, body: vec![PyClassItem::Def(f)] };
    let model = generate_model(&class);
    let meth = &model.methods().as_ref().unwrap()[0];
    assert_eq!(meth.return_type().as_ref().unwrap(), "str");
    let args = meth.arguments().as_ref().unwrap();
    let names: Vec<String> = args.iter().map(|a| a.name().clone()).collect();
    assert_eq!(names, vec!["self".to_string(), "x".to_string(), "opt".to_string(),
        "rest".to_string()]);
    assert_eq!(args[1].variable_type(), "int");
    assert_eq!(args[2].variable_type(), "");
}

#[test]
fn subscripted_base_uses_its_identifier() {
    let class = PyClassDef {
        name: "C".to_string(),
        bases: Some(vec![BaseExpr::Opaque, BaseExpr::Generic("Enum".to_string())]),
        body: vec![],
    };
    let model = generate_model(&class);
    assert_eq!(*model.class_type(), ClassType::ENUM);
}

#[test]
fn one_model_per_class() {
    let classes = vec![
        PyClassDef { name: "A".to_string(), bases: None, body: vec![] },
        PyClassDef { name: "B".to_string(), bases: None, body: vec![] },
    ];
    let models = generate_models(&classes);
    assert_eq!(models.len(), 2);
    assert_eq!(models[0].name(), "A");
    assert_eq!(models[1].name(), "B");
}
