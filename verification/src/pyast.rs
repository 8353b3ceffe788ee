use vstd::prelude::*;

verus! {

/// A type annotation as the classifier reads it: a bare identifier reference
/// contributes its name; any more complex annotation (subscripted, union,
/// string-quoted, attribute-qualified) is opaque and yields an unknown type.
#[derive(Debug, Clone)]
pub enum TypeExpr {
    Named(String),
    Opaque,
}

/// A base-class expression: a bare identifier, a subscripted (generic)
/// identifier carrying the subscripted value's name, or some other expression
/// shape, which the class-type resolver skips.
#[derive(Debug, Clone)]
pub enum BaseExpr {
    Named(String),
    Generic(String),
    Opaque,
}

/// The left-hand side of an assignment-like statement: an attribute access
/// `<object>.<attr>` whose object is a bare identifier, or any other target
/// shape, which the attribute scan skips.
#[derive(Debug, Clone)]
pub enum TargetExpr {
    Attribute { object: String, attr: String },
    Other,
}

/// A statement as the attribute scan reads it. The three assignment kinds
/// carry their first target; `Nested` carries the statements directly nested
/// under a compound statement (a conditional, an exception handler, a
/// context-manager block, the arms of a pattern match, or a nested function
/// or class definition); everything else is `Other`.
#[derive(Debug)]
pub enum PyStmt {
    Assign(TargetExpr),
    AugAssign(TargetExpr),
    AnnAssign(TargetExpr),
    Nested(Vec<PyStmt>),
    Other,
}

/// One formal parameter of a function definition.
#[derive(Debug, Clone)]
pub struct PyParam {
    pub name: String,
    pub annotation: Option<TypeExpr>,
}

/// A function definition inside a class body. `decorators` holds the names of
/// the bare-identifier decorators on the definition; decorator expressions of
/// any other shape are not recorded, since only bare marker names are ever
/// recognized.
#[derive(Debug)]
pub struct PyFunctionDef {
    pub name: String,
    pub decorators: Vec<String>,
    pub args: Vec<PyParam>,
    pub posonlyargs: Vec<PyParam>,
    pub kwonlyargs: Vec<PyParam>,
    pub vararg: Option<PyParam>,
    pub kwarg: Option<PyParam>,
    pub returns: Option<TypeExpr>,
    pub body: Vec<PyStmt>,
}

/// One item of a class body: a method definition, or any other statement.
#[derive(Debug)]
pub enum PyClassItem {
    Def(PyFunctionDef),
    Other,
}

/// A class definition. `bases` is absent when the class head carries no
/// argument list at all.
#[derive(Debug)]
pub struct PyClassDef {
    pub name: String,
    pub bases: Option<Vec<BaseExpr>>,
    pub body: Vec<PyClassItem>,
}

/// An import statement: `import a.b.c` carries each alias as one dotted
/// string; `from a.b import c, d` carries the module (absent for a relative
/// `from . import x`) and the imported names.
#[derive(Debug, Clone)]
pub enum ImportStmt {
    Plain { names: Vec<String> },
    From { module: Option<String>, names: Vec<String> },
}

} // verus!
