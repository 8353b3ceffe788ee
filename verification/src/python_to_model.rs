use vstd::prelude::*;
use vstd::string::StrSliceExecFns;

use crate::models::{ClassModel, ClassType, Function, Variable, Visibility};
use crate::pyast::{BaseExpr, PyClassDef, PyClassItem, PyFunctionDef, PyParam, PyStmt, TargetExpr,
    TypeExpr};
use crate::text::str_eq;

verus! {

/// Lexical visibility of an identifier: a name that starts with two
/// underscores and does not also end with two underscores is private; a name
/// that starts with exactly one underscore is protected; anything else is
/// public. Dunder names such as `__init__` are therefore public.
pub open spec fn visibility_of(name: Seq<char>) -> Visibility {
    if name.len() >= 2 && name[0] == '_' && name[1] == '_'
        && !(name[name.len() - 1] == '_' && name[name.len() - 2] == '_') {
        Visibility::PRIVATE
    } else if name.len() >= 1 && name[0] == '_' && (name.len() == 1 || name[1] != '_') {
        Visibility::PROTECTED
    } else {
        Visibility::PUBLIC
    }
}

/// Infer visibility from an identifier's name alone.
pub fn extract_visibility(name: &String) -> (v: Visibility)
    ensures
        v == visibility_of(name@),
{
    let len = name.as_str().unicode_len();
    if len >= 2 && name.as_str().get_char(0) == '_' && name.as_str().get_char(1) == '_'
        && !(name.as_str().get_char(len - 1) == '_' && name.as_str().get_char(len - 2) == '_') {
        Visibility::PRIVATE
    } else if len >= 1 && name.as_str().get_char(0) == '_' && (len == 1 || name.as_str().get_char(
        1,
    ) != '_') {
        Visibility::PROTECTED
    } else {
        Visibility::PUBLIC
    }
}

/// Category a class resolves to, given its declared base-class names, checked
/// in fixed priority order: abstract markers first, then enumeration markers,
/// then the exception marker, else a plain class.
pub open spec fn class_type_of(parents: Seq<Seq<char>>) -> ClassType {
    if exists|i: int| 0 <= i < parents.len() && is_abstract_marker(parents[i]) {
        ClassType::ABSTRACT
    } else if exists|i: int| 0 <= i < parents.len() && is_enum_marker(parents[i]) {
        ClassType::ENUM
    } else if exists|i: int| 0 <= i < parents.len() && is_exception_marker(parents[i]) {
        ClassType::EXCEPTION
    } else {
        ClassType::CLASS
    }
}

pub open spec fn is_abstract_marker(name: Seq<char>) -> bool {
    name == "ABC"@ || name == "ABCMeta"@
}

pub open spec fn is_enum_marker(name: Seq<char>) -> bool {
    name == "Enum"@ || name == "enum.Enum"@
}

pub open spec fn is_exception_marker(name: Seq<char>) -> bool {
    name == "Exception"@
}

/// Resolve a class's category from its declared base-class names.
pub fn determine_class_type_from_parents(parents: &Vec<String>) -> (t: ClassType)
    ensures
        t == class_type_of(parents@.map_values(|p: String| p@)),
{
    let ghost views = parents@.map_values(|p: String| p@);
    let mut i: usize = 0;
    while i < parents.len()
        invariant
            0 <= i <= parents.len(),
            views == parents@.map_values(|p: String| p@),
            forall|j: int| 0 <= j < i ==> !is_abstract_marker(views[j]),
        decreases parents.len() - i,
    {
        if str_eq(parents[i].as_str(), "ABC") || str_eq(parents[i].as_str(), "ABCMeta") {
            assert(is_abstract_marker(views[i as int]));
            return ClassType::ABSTRACT;
        }
        i = i + 1;
    }
    let mut i: usize = 0;
    while i < parents.len()
        invariant
            0 <= i <= parents.len(),
            views == parents@.map_values(|p: String| p@),
            forall|j: int| 0 <= j < views.len() ==> !is_abstract_marker(views[j]),
            forall|j: int| 0 <= j < i ==> !is_enum_marker(views[j]),
        decreases parents.len() - i,
    {
        if str_eq(parents[i].as_str(), "Enum") || str_eq(parents[i].as_str(), "enum.Enum") {
            assert(is_enum_marker(views[i as int]));
            return ClassType::ENUM;
        }
        i = i + 1;
    }
    let mut i: usize = 0;
    while i < parents.len()
        invariant
            0 <= i <= parents.len(),
            views == parents@.map_values(|p: String| p@),
            forall|j: int| 0 <= j < views.len() ==> !is_abstract_marker(views[j]),
            forall|j: int| 0 <= j < views.len() ==> !is_enum_marker(views[j]),
            forall|j: int| 0 <= j < i ==> !is_exception_marker(views[j]),
        decreases parents.len() - i,
    {
        if str_eq(parents[i].as_str(), "Exception") {
            assert(is_exception_marker(views[i as int]));
            return ClassType::EXCEPTION;
        }
        i = i + 1;
    }
    ClassType::CLASS
}

// ---------------------------------------------------------------------------
// Attribute discovery: a depth-first pre-order scan of the constructor's
// body, preserving source declaration order. The scan collects the attribute
// of every assignment-like statement whose target has the shape
// `self.<attr>`, descending into nested compound statements.
// ---------------------------------------------------------------------------

/// The attribute collected from one assignment target, if any.
pub open spec fn target_attr(t: TargetExpr) -> Seq<Seq<char>> {
    match t {
        TargetExpr::Attribute { object, attr } => if object@ == "self"@ {
            seq![attr@]
        } else {
            Seq::empty()
        },
        TargetExpr::Other => Seq::empty(),
    }
}

/// Attribute names assigned anywhere inside one statement, in pre-order.
pub open spec fn stmt_attrs(s: PyStmt) -> Seq<Seq<char>>
    decreases s, 0nat,
{
    match s {
        PyStmt::Assign(t) => target_attr(t),
        PyStmt::AugAssign(t) => target_attr(t),
        PyStmt::AnnAssign(t) => target_attr(t),
        PyStmt::Nested(body) => stmts_attrs(body@, 0),
        PyStmt::Other => Seq::empty(),
    }
}

/// Attribute names assigned in the statements of `ss` from position `i` on.
pub open spec fn stmts_attrs(ss: Seq<PyStmt>, i: int) -> Seq<Seq<char>>
    decreases ss, ss.len() - i + 1,
{
    if i < 0 || i >= ss.len() {
        Seq::empty()
    } else {
        stmt_attrs(ss[i]) + stmts_attrs(ss, i + 1)
    }
}

/// Push the attribute names assigned inside `s`, in pre-order, onto `out`.
#[verifier::loop_isolation(false)]
fn collect_stmt_attrs(s: &PyStmt, out: &mut Vec<String>)
    ensures
        final(out)@.map_values(|x: String| x@) == old(out)@.map_values(|x: String| x@) + stmt_attrs(
            *s,
        ),
    decreases *s,
{
    match s {
        PyStmt::Assign(t) => collect_target_attr(t, out),
        PyStmt::AugAssign(t) => collect_target_attr(t, out),
        PyStmt::AnnAssign(t) => collect_target_attr(t, out),
        PyStmt::Nested(body) => {
            let ghost base = out@.map_values(|x: String| x@);
            let mut i: usize = 0;
            while i < body.len()
                invariant
                    0 <= i <= body.len(),
                    base + stmts_attrs(body@, 0) == out@.map_values(|x: String| x@) + stmts_attrs(
                        body@,
                        i as int,
                    ),
                decreases body.len() - i,
            {
                proof {
                    assert(stmts_attrs(body@, i as int) == stmt_attrs(body@[i as int])
                        + stmts_attrs(body@, i as int + 1));
                    assert(decreases_to!(*s => *body));
                    assert(decreases_to!(*body => body@));
                    assert(decreases_to!(body@ => body@[i as int]));
                }
                collect_stmt_attrs(&body[i], out);
                i = i + 1;
            }
            proof {
                assert(stmts_attrs(body@, body@.len() as int) == Seq::<Seq<char>>::empty());
                assert(out@.map_values(|x: String| x@) + Seq::<Seq<char>>::empty() =~= out@.map_values(
                    |x: String| x@,
                ));
                assert(base + stmts_attrs(body@, 0) =~= out@.map_values(|x: String| x@));
            }
        },
        PyStmt::Other => {
            proof {
                assert(out@.map_values(|x: String| x@) + Seq::<Seq<char>>::empty() =~= out@.map_values(
                    |x: String| x@,
                ));
            }
        },
    }
}

/// Push the attribute collected from one assignment target, if any.
fn collect_target_attr(t: &TargetExpr, out: &mut Vec<String>)
    ensures
        final(out)@.map_values(|x: String| x@) == old(out)@.map_values(|x: String| x@) + target_attr(
            *t,
        ),
{
    let ghost pre = out@;
    match t {
        TargetExpr::Attribute { object, attr } => {
            if str_eq(object.as_str(), "self") {
                out.push(attr.clone());
                proof {
                    assert(out@.map_values(|x: String| x@) =~= pre.map_values(|x: String| x@)
                        + seq![attr@]);
                }
            } else {
                proof {
                    assert(out@.map_values(|x: String| x@) + Seq::<Seq<char>>::empty()
                        =~= out@.map_values(|x: String| x@));
                }
            }
        },
        TargetExpr::Other => {
            proof {
                assert(out@.map_values(|x: String| x@) + Seq::<Seq<char>>::empty() =~= out@.map_values(
                    |x: String| x@,
                ));
            }
        },
    }
}


// ---------------------------------------------------------------------------
// Locating the constructor.
// ---------------------------------------------------------------------------

/// The first function definition named `__init__` among the class-body items
/// of `body` from position `i` on.
pub open spec fn find_init(body: Seq<PyClassItem>, i: int) -> Option<PyFunctionDef>
    decreases body.len() - i,
{
    if i < 0 || i >= body.len() {
        None
    } else {
        match body[i] {
            PyClassItem::Def(f) => if f.name@ == "__init__"@ {
                Some(f)
            } else {
                find_init(body, i + 1)
            },
            PyClassItem::Other => find_init(body, i + 1),
        }
    }
}

/// Index of the constructor among the class-body items, if any.
#[verifier::loop_isolation(false)]
fn find_init_index(body: &Vec<PyClassItem>) -> (r: Option<usize>)
    ensures
        match r {
            Some(j) => j < body@.len() && (body@[j as int] matches PyClassItem::Def(f)
                && find_init(body@, 0) == Some(f)),
            None => find_init(body@, 0) is None,
        },
{
    let mut i: usize = 0;
    while i < body.len()
        invariant
            0 <= i <= body.len(),
            find_init(body@, 0) == find_init(body@, i as int),
        decreases body.len() - i,
    {
        match &body[i] {
            PyClassItem::Def(f) => {
                if str_eq(f.name.as_str(), "__init__") {
                    return Some(i);
                }
            },
            PyClassItem::Other => {},
        }
        i = i + 1;
    }
    None
}

/// The attribute names of a class: the pre-order scan of its constructor's
/// body, or nothing when the constructor is absent.
pub open spec fn class_attr_names(c: PyClassDef) -> Option<Seq<Seq<char>>> {
    match find_init(c.body@, 0) {
        None => None,
        Some(f) => Some(stmts_attrs(f.body@, 0)),
    }
}

/// `v` is the attribute entry made for the name `n`: visibility inferred from
/// the name, type unknown.
pub open spec fn var_is_attr(v: Variable, n: Seq<char>) -> bool {
    &&& v.name@ == n
    &&& v.visibility == visibility_of(n)
    &&& v.variable_type@ == Seq::<char>::empty()
}

pub open spec fn attr_vars_match(vs: Seq<Variable>, names: Seq<Seq<char>>) -> bool {
    &&& vs.len() == names.len()
    &&& forall|i: int| 0 <= i < names.len() ==> var_is_attr(#[trigger] vs[i], names[i])
}

/// Scan the constructor for `self.<attr>` assignments and build one attribute
/// entry per occurrence, in pre-order. Absent when the constructor is absent
/// or assigns no attribute.
#[verifier::loop_isolation(false)]
pub fn extract_attributes(c: &PyClassDef) -> (r: Option<Vec<Variable>>)
    ensures
        match r {
            None => !(class_attr_names(*c) matches Some(ns) && ns.len() > 0),
            Some(vs) => class_attr_names(*c) matches Some(ns) && ns.len() > 0 && attr_vars_match(
                vs@,
                ns,
            ),
        },
{
    let j = match find_init_index(&c.body) {
        None => {
            return None;
        },
        Some(j) => j,
    };
    let init = match &c.body[j] {
        PyClassItem::Def(f) => f,
        PyClassItem::Other => {
            proof {
                assert(false);
            }
            return None;
        },
    };
    let mut raw: Vec<String> = Vec::new();
    let ghost names = stmts_attrs(init.body@, 0);
    let mut i: usize = 0;
    while i < init.body.len()
        invariant
            0 <= i <= init.body.len(),
            raw@.map_values(|x: String| x@) + stmts_attrs(init.body@, i as int) == names,
        decreases init.body.len() - i,
    {
        proof {
            assert(stmts_attrs(init.body@, i as int) == stmt_attrs(init.body@[i as int])
                + stmts_attrs(init.body@, i as int + 1));
        }
        collect_stmt_attrs(&init.body[i], &mut raw);
        i = i + 1;
    }
    proof {
        assert(stmts_attrs(init.body@, init.body@.len() as int) == Seq::<Seq<char>>::empty());
        assert(raw@.map_values(|x: String| x@) =~= names);
    }
    if raw.len() == 0 {
        return None;
    }
    let mut vars: Vec<Variable> = Vec::new();
    let empty_type = String::new();
    let mut k: usize = 0;
    while k < raw.len()
        invariant
            0 <= k <= raw.len(),
            raw@.map_values(|x: String| x@) == names,
            attr_vars_match(vars@, names.take(k as int)),
        decreases raw.len() - k,
    {
        let vis = extract_visibility(&raw[k]);
        vars.push(Variable::new(&raw[k], vis, &empty_type));
        proof {
            assert(names.take(k as int + 1) =~= names.take(k as int).push(names[k as int]));
        }
        k = k + 1;
    }
    proof {
        assert(names.take(raw@.len() as int) =~= names);
    }
    Some(vars)
}

// ---------------------------------------------------------------------------
// Method categorization: every non-constructor definition falls in exactly
// one category, decided by the first matching marker in the fixed priority
// order property, abstract, static, else plain.
// ---------------------------------------------------------------------------

/// The category a method definition falls in.
#[derive(Debug, Clone, Copy, PartialEq, Eq, Structural)]
pub enum MethodKind {
    PROPERTY,
    ABSTRACT,
    STATIC,
    PLAIN,
}

pub open spec fn deco_views(f: PyFunctionDef) -> Seq<Seq<char>> {
    f.decorators@.map_values(|d: String| d@)
}

/// The definition carries a bare-identifier decorator named `m`.
pub open spec fn has_marker(f: PyFunctionDef, m: Seq<char>) -> bool {
    deco_views(f).contains(m)
}

/// The marker priority order: property, then abstract, then static.
pub open spec fn method_kind_of(f: PyFunctionDef) -> MethodKind {
    if has_marker(f, "property"@) {
        MethodKind::PROPERTY
    } else if has_marker(f, "abstractmethod"@) {
        MethodKind::ABSTRACT
    } else if has_marker(f, "staticmethod"@) {
        MethodKind::STATIC
    } else {
        MethodKind::PLAIN
    }
}

/// Whether the definition carries a decorator with the given name.
#[verifier::loop_isolation(false)]
pub fn does_function_have_decorator(f: &PyFunctionDef, name: &str) -> (r: bool)
    ensures
        r == has_marker(*f, name@),
{
    let mut i: usize = 0;
    while i < f.decorators.len()
        invariant
            0 <= i <= f.decorators.len(),
            forall|j: int| 0 <= j < i ==> deco_views(*f)[j] != name@,
        decreases f.decorators.len() - i,
    {
        if str_eq(f.decorators[i].as_str(), name) {
            proof {
                assert(deco_views(*f)[i as int] == name@);
            }
            return true;
        }
        i = i + 1;
    }
    proof {
        assert(forall|j: int| 0 <= j < deco_views(*f).len() ==> deco_views(*f)[j] != name@);
    }
    false
}

/// Classify a method definition by its markers.
pub fn method_kind(f: &PyFunctionDef) -> (k: MethodKind)
    ensures
        k == method_kind_of(*f),
{
    if does_function_have_decorator(f, "property") {
        MethodKind::PROPERTY
    } else if does_function_have_decorator(f, "abstractmethod") {
        MethodKind::ABSTRACT
    } else if does_function_have_decorator(f, "staticmethod") {
        MethodKind::STATIC
    } else {
        MethodKind::PLAIN
    }
}

// ---------------------------------------------------------------------------
// Arguments and return types.
// ---------------------------------------------------------------------------

/// The parameters of a definition, in grouping order: positional,
/// positional-only, keyword-only, variadic-positional, variadic-keyword.
pub open spec fn params_of(f: PyFunctionDef) -> Seq<PyParam> {
    f.args@ + f.posonlyargs@ + f.kwonlyargs@ + opt_param_seq(f.vararg) + opt_param_seq(f.kwarg)
}

pub open spec fn opt_param_seq(o: Option<PyParam>) -> Seq<PyParam> {
    match o {
        Some(p) => seq![p],
        None => Seq::empty(),
    }
}

/// The type name an annotation contributes: the name of a bare identifier
/// reference, unknown for anything else.
pub open spec fn ann_type_name(a: Option<TypeExpr>) -> Seq<char> {
    match a {
        Some(TypeExpr::Named(s)) => s@,
        _ => Seq::empty(),
    }
}

/// The return type a definition contributes, absent unless the return
/// annotation is a bare identifier reference.
pub open spec fn ret_type_name(f: PyFunctionDef) -> Option<Seq<char>> {
    match f.returns {
        Some(TypeExpr::Named(s)) => Some(s@),
        _ => None,
    }
}

/// `v` is the argument entry made for the parameter `p`.
pub open spec fn var_is_param(v: Variable, p: PyParam) -> bool {
    &&& v.name@ == p.name@
    &&& v.visibility == visibility_of(p.name@)
    &&& v.variable_type@ == ann_type_name(p.annotation)
}

/// `g` is the function entry made for the definition `f`.
pub open spec fn fun_matches(g: Function, f: PyFunctionDef) -> bool {
    &&& g.name@ == f.name@
    &&& g.visibility == visibility_of(f.name@)
    &&& match g.arguments {
        None => params_of(f).len() == 0,
        Some(vs) => vs@.len() == params_of(f).len() && vs@.len() > 0 && forall|i: int|
            0 <= i < vs@.len() ==> var_is_param(#[trigger] vs@[i], params_of(f)[i]),
    }
    &&& match g.return_type {
        None => ret_type_name(f) is None,
        Some(t) => ret_type_name(f) == Some(t@),
    }
}

/// Build the argument entry for one parameter.
fn extract_method_argument(p: &PyParam) -> (v: Variable)
    ensures
        var_is_param(v, *p),
{
    let ann_string: String = match &p.annotation {
        Some(TypeExpr::Named(s)) => s.clone(),
        _ => String::new(),
    };
    let vis = extract_visibility(&p.name);
    Variable::new(&p.name, vis, &ann_string)
}

/// Append one argument entry per parameter of `group` to `out`.
#[verifier::loop_isolation(false)]
fn push_param_group(out: &mut Vec<Variable>, group: &Vec<PyParam>)
    ensures
        final(out)@.len() == old(out)@.len() + group@.len(),
        forall|i: int| 0 <= i < old(out)@.len() ==> final(out)@[i] == old(out)@[i],
        forall|i: int| 0 <= i < group@.len() ==> var_is_param(
            final(out)@[old(out)@.len() + i],
            #[trigger] group@[i],
        ),
{
    let mut i: usize = 0;
    while i < group.len()
        invariant
            0 <= i <= group.len(),
            out@.len() == old(out)@.len() + i,
            forall|j: int| 0 <= j < old(out)@.len() ==> out@[j] == old(out)@[j],
            forall|j: int| 0 <= j < i ==> var_is_param(
                out@[old(out)@.len() + j],
                #[trigger] group@[j],
            ),
        decreases group.len() - i,
    {
        let v = extract_method_argument(&group[i]);
        out.push(v);
        i = i + 1;
    }
}

/// Collect the argument entries of a definition in grouping order, absent
/// when the definition has no parameters.
#[verifier::loop_isolation(false)]
pub fn extract_method_arguments(f: &PyFunctionDef) -> (r: Option<Vec<Variable>>)
    ensures
        match r {
            None => params_of(*f).len() == 0,
            Some(vs) => vs@.len() == params_of(*f).len() && vs@.len() > 0 && forall|i: int|
                0 <= i < vs@.len() ==> var_is_param(#[trigger] vs@[i], params_of(*f)[i]),
        },
{
    let ghost ps = params_of(*f);
    let ghost la = f.args@.len() as int;
    let ghost lb = f.posonlyargs@.len() as int;
    let ghost lc = f.kwonlyargs@.len() as int;
    let ghost lv = opt_param_seq(f.vararg).len() as int;
    let mut result: Vec<Variable> = Vec::new();
    push_param_group(&mut result, &f.args);
    let ghost r1 = result@;
    push_param_group(&mut result, &f.posonlyargs);
    let ghost r2 = result@;
    push_param_group(&mut result, &f.kwonlyargs);
    let ghost r3 = result@;
    if let Some(p) = &f.vararg {
        let v = extract_method_argument(p);
        result.push(v);
    }
    let ghost r4 = result@;
    if let Some(p) = &f.kwarg {
        let v = extract_method_argument(p);
        result.push(v);
    }
    proof {
        assert(result@.len() == ps.len());
        assert forall|i: int| 0 <= i < ps.len() implies var_is_param(
            #[trigger] result@[i],
            ps[i],
        ) by {
            if i < la {
                assert(ps[i] == f.args@[i]);
                assert(result@[i] == r1[i]);
                assert(var_is_param(r1[i], f.args@[i]));
            } else if i < la + lb {
                assert(ps[i] == f.posonlyargs@[i - la]);
                assert(result@[i] == r2[i]);
                assert(var_is_param(r2[i], f.posonlyargs@[i - la]));
            } else if i < la + lb + lc {
                assert(ps[i] == f.kwonlyargs@[i - la - lb]);
                assert(result@[i] == r3[i]);
                assert(var_is_param(r3[i], f.kwonlyargs@[i - la - lb]));
            } else if i < la + lb + lc + lv {
                assert(ps[i] == opt_param_seq(f.vararg)[0]);
                assert(result@[i] == r4[i]);
            } else {
                assert(ps[i] == opt_param_seq(f.kwarg)[0]);
            }
        }
    }
    if result.len() == 0 {
        None
    } else {
        Some(result)
    }
}

/// Build the function entry for one definition.
pub fn extract_method(f: &PyFunctionDef) -> (g: Function)
    ensures
        fun_matches(g, *f),
{
    let ret: Option<String> = match &f.returns {
        Some(TypeExpr::Named(s)) => Some(s.clone()),
        _ => None,
    };
    let vis = extract_visibility(&f.name);
    let args = extract_method_arguments(f);
    Function::new(&f.name, vis, args, ret)
}


// ---------------------------------------------------------------------------
// Assembling class models.
// ---------------------------------------------------------------------------

/// The definitions one class-body item contributes to the category `k`: the
/// constructor contributes to none.
pub open spec fn item_selects(it: PyClassItem, k: MethodKind) -> Seq<PyFunctionDef> {
    match it {
        PyClassItem::Def(f) => if f.name@ != "__init__"@ && method_kind_of(f) == k {
            seq![f]
        } else {
            Seq::empty()
        },
        PyClassItem::Other => Seq::empty(),
    }
}

/// The definitions of category `k` among the first `i` class-body items, in
/// source order.
pub open spec fn selected_defs(body: Seq<PyClassItem>, k: MethodKind, i: int) -> Seq<PyFunctionDef>
    decreases i,
{
    if i <= 0 || i > body.len() {
        Seq::empty()
    } else {
        selected_defs(body, k, i - 1) + item_selects(body[i - 1], k)
    }
}

/// The definitions of category `k` in a class, in source order.
pub open spec fn class_kind_defs(c: PyClassDef, k: MethodKind) -> Seq<PyFunctionDef> {
    selected_defs(c.body@, k, c.body@.len() as int)
}

pub open spec fn funs_match(gs: Seq<Function>, fs: Seq<PyFunctionDef>) -> bool {
    &&& gs.len() == fs.len()
    &&& forall|i: int| 0 <= i < fs.len() ==> fun_matches(#[trigger] gs[i], fs[i])
}

/// `r` holds one function entry per definition in `fs`, absent when `fs` is
/// empty.
pub open spec fn opt_funs_match(r: Option<Vec<Function>>, fs: Seq<PyFunctionDef>) -> bool {
    match r {
        None => fs.len() == 0,
        Some(gs) => fs.len() > 0 && funs_match(gs@, fs),
    }
}

/// Collect one function entry per definition of category `k`, in source
/// order.
#[verifier::loop_isolation(false)]
fn collect_kind(body: &Vec<PyClassItem>, k: MethodKind) -> (r: Vec<Function>)
    ensures
        funs_match(r@, selected_defs(body@, k, body@.len() as int)),
{
    let mut out: Vec<Function> = Vec::new();
    let mut i: usize = 0;
    while i < body.len()
        invariant
            0 <= i <= body.len(),
            funs_match(out@, selected_defs(body@, k, i as int)),
        decreases body.len() - i,
    {
        match &body[i] {
            PyClassItem::Def(f) => {
                if !str_eq(f.name.as_str(), "__init__") && method_kind(f) == k {
                    let g = extract_method(f);
                    out.push(g);
                }
            },
            PyClassItem::Other => {},
        }
        i = i + 1;
    }
    out
}

/// Extract the plain methods of a class: non-constructor definitions without
/// a recognized marker. Absent when there are none.
pub fn extract_methods(c: &PyClassDef) -> (r: Option<Vec<Function>>)
    ensures
        opt_funs_match(r, class_kind_defs(*c, MethodKind::PLAIN)),
{
    let v = collect_kind(&c.body, MethodKind::PLAIN);
    if v.len() == 0 {
        None
    } else {
        Some(v)
    }
}

/// Extract the static methods of a class. Absent when there are none.
pub fn extract_static_methods(c: &PyClassDef) -> (r: Option<Vec<Function>>)
    ensures
        opt_funs_match(r, class_kind_defs(*c, MethodKind::STATIC)),
{
    let v = collect_kind(&c.body, MethodKind::STATIC);
    if v.len() == 0 {
        None
    } else {
        Some(v)
    }
}

/// Extract the abstract methods of a class. Absent when there are none.
pub fn extract_abstract_methods(c: &PyClassDef) -> (r: Option<Vec<Function>>)
    ensures
        opt_funs_match(r, class_kind_defs(*c, MethodKind::ABSTRACT)),
{
    let v = collect_kind(&c.body, MethodKind::ABSTRACT);
    if v.len() == 0 {
        None
    } else {
        Some(v)
    }
}

/// Extract the properties of a class: the definitions carrying the property
/// marker, as function entries. Absent when there are none.
pub fn extract_properties(c: &PyClassDef) -> (r: Option<Vec<Function>>)
    ensures
        opt_funs_match(r, class_kind_defs(*c, MethodKind::PROPERTY)),
{
    let v = collect_kind(&c.body, MethodKind::PROPERTY);
    if v.len() == 0 {
        None
    } else {
        Some(v)
    }
}

/// The base-class names the resolver reads from the first `i` base
/// expressions: bare identifiers and the identifiers of subscripted bases;
/// any other shape is skipped.
pub open spec fn parent_names(bs: Seq<BaseExpr>, i: int) -> Seq<Seq<char>>
    decreases i,
{
    if i <= 0 || i > bs.len() {
        Seq::empty()
    } else {
        parent_names(bs, i - 1) + match bs[i - 1] {
            BaseExpr::Named(s) => seq![s@],
            BaseExpr::Generic(s) => seq![s@],
            BaseExpr::Opaque => Seq::empty(),
        }
    }
}

/// The names of a class's declared bases, absent when the class head has no
/// argument list.
#[verifier::loop_isolation(false)]
pub fn extract_parent_classes(c: &PyClassDef) -> (r: Option<Vec<String>>)
    ensures
        match c.bases {
            None => r is None,
            Some(bs) => r matches Some(v) && v@.map_values(|x: String| x@) == parent_names(
                bs@,
                bs@.len() as int,
            ),
        },
{
    let bs = match &c.bases {
        None => {
            return None;
        },
        Some(bs) => bs,
    };
    let mut out: Vec<String> = Vec::new();
    let mut i: usize = 0;
    while i < bs.len()
        invariant
            0 <= i <= bs.len(),
            out@.map_values(|x: String| x@) == parent_names(bs@, i as int),
        decreases bs.len() - i,
    {
        let ghost pre = out@;
        match &bs[i] {
            BaseExpr::Named(s) => {
                out.push(s.clone());
                proof {
                    assert(out@.map_values(|x: String| x@) =~= pre.map_values(|x: String| x@)
                        + seq![s@]);
                }
            },
            BaseExpr::Generic(s) => {
                out.push(s.clone());
                proof {
                    assert(out@.map_values(|x: String| x@) =~= pre.map_values(|x: String| x@)
                        + seq![s@]);
                }
            },
            BaseExpr::Opaque => {
                proof {
                    assert(out@.map_values(|x: String| x@) + Seq::<Seq<char>>::empty()
                        =~= out@.map_values(|x: String| x@));
                }
            },
        }
        i = i + 1;
    }
    Some(out)
}

/// The category a whole class resolves to: a class head without an argument
/// list is a plain class; otherwise the declared base names decide.
pub open spec fn class_type_of_def(c: PyClassDef) -> ClassType {
    match c.bases {
        None => ClassType::CLASS,
        Some(bs) => class_type_of(parent_names(bs@, bs@.len() as int)),
    }
}

/// `m` is the class model extracted from the class definition `c`.
pub open spec fn model_matches(m: ClassModel, c: PyClassDef) -> bool {
    &&& m.name@ == c.name@
    &&& m.class_type == class_type_of_def(c)
    &&& match m.attributes {
        None => !(class_attr_names(c) matches Some(ns) && ns.len() > 0),
        Some(vs) => class_attr_names(c) matches Some(ns) && ns.len() > 0 && attr_vars_match(
            vs@,
            ns,
        ),
    }
    &&& opt_funs_match(m.methods, class_kind_defs(c, MethodKind::PLAIN))
    &&& opt_funs_match(m.properties, class_kind_defs(c, MethodKind::PROPERTY))
    &&& opt_funs_match(m.static_methods, class_kind_defs(c, MethodKind::STATIC))
    &&& opt_funs_match(m.abstract_methods, class_kind_defs(c, MethodKind::ABSTRACT))
}

/// Build the class model of one class definition.
pub fn generate_model(c: &PyClassDef) -> (m: ClassModel)
    ensures
        model_matches(m, *c),
{
    let class_type = match extract_parent_classes(c) {
        Some(parents) => determine_class_type_from_parents(&parents),
        None => ClassType::CLASS,
    };
    let attributes = extract_attributes(c);
    let methods = extract_methods(c);
    let properties = extract_properties(c);
    let static_methods = extract_static_methods(c);
    let abstract_methods = extract_abstract_methods(c);
    ClassModel::new(
        &c.name,
        attributes,
        methods,
        properties,
        class_type,
        static_methods,
        abstract_methods,
    )
}

/// Build one class model per class definition, in order.
#[verifier::loop_isolation(false)]
pub fn generate_models(classes: &Vec<PyClassDef>) -> (ms: Vec<ClassModel>)
    ensures
        ms@.len() == classes@.len(),
        forall|i: int| 0 <= i < classes@.len() ==> model_matches(#[trigger] ms@[i], classes@[i]),
{
    let mut ms: Vec<ClassModel> = Vec::new();
    let mut i: usize = 0;
    while i < classes.len()
        invariant
            0 <= i <= classes.len(),
            ms@.len() == i,
            forall|j: int| 0 <= j < i ==> model_matches(#[trigger] ms@[j], classes@[j]),
        decreases classes.len() - i,
    {
        let m = generate_model(&classes[i]);
        ms.push(m);
        i = i + 1;
    }
    ms
}

} // verus!
