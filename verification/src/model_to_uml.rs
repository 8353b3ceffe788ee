use vstd::prelude::*;
use vstd::string::StringExecFns;

use crate::models::{ClassModel, Function, Variable, Visibility};
use crate::text::views_of;

verus! {

/// The diagram mark of a visibility: `+` public, `-` private, `#` protected.
pub open spec fn visibility_mark(v: Visibility) -> Seq<char> {
    match v {
        Visibility::PUBLIC => "+"@,
        Visibility::PRIVATE => "-"@,
        Visibility::PROTECTED => "#"@,
    }
}

/// An attribute line: indentation, mark, name, and the type after a colon
/// when one is known.
pub open spec fn attribute_uml(a: Variable) -> Seq<char> {
    let base = "    "@ + visibility_mark(a.visibility) + " "@ + a.name@;
    if a.variable_type@.len() == 0 {
        base
    } else {
        base + " : "@ + a.variable_type@
    }
}

/// An argument: its name, and its type after a colon when one is known.
pub open spec fn argument_uml(a: Variable) -> Seq<char> {
    if a.variable_type@.len() == 0 {
        a.name@
    } else {
        a.name@ + ": "@ + a.variable_type@
    }
}

/// The first `i` arguments joined with commas.
pub open spec fn args_join(vs: Seq<Variable>, i: int) -> Seq<char>
    decreases i,
{
    if i <= 0 || i > vs.len() {
        Seq::empty()
    } else if i == 1 {
        argument_uml(vs[0])
    } else {
        args_join(vs, i - 1) + ", "@ + argument_uml(vs[i - 1])
    }
}

/// An absent argument list renders as nothing.
pub open spec fn arguments_uml(o: Option<Seq<Variable>>) -> Seq<char> {
    match o {
        Some(vs) => args_join(vs, vs.len() as int),
        None => Seq::empty(),
    }
}

/// An absent return annotation renders as `void`; a present one as itself.
pub open spec fn return_type_uml(o: Option<Seq<char>>) -> Seq<char> {
    match o {
        Some(s) => s,
        None => "void"@,
    }
}

/// A method line: indentation, mark, name, parenthesized arguments, and the
/// rendered return type after a colon unless it is empty.
pub open spec fn method_uml(f: Function) -> Seq<char> {
    let rt = return_type_uml(match f.return_type {
        Some(s) => Some(s@),
        None => None,
    });
    let base = "    "@ + visibility_mark(f.visibility) + " "@ + f.name@ + "("@ + arguments_uml(
        match f.arguments {
            Some(vs) => Some(vs@),
            None => None,
        },
    ) + ")"@;
    if rt.len() == 0 {
        base
    } else {
        base + " : "@ + rt
    }
}

/// The attribute lines of the first `i` attributes.
pub open spec fn attr_lines(vs: Seq<Variable>, i: int) -> Seq<Seq<char>>
    decreases i,
{
    if i <= 0 || i > vs.len() {
        Seq::empty()
    } else {
        attr_lines(vs, i - 1) + seq![attribute_uml(vs[i - 1])]
    }
}

/// The method lines of the first `i` methods.
pub open spec fn method_lines(fs: Seq<Function>, i: int) -> Seq<Seq<char>>
    decreases i,
{
    if i <= 0 || i > fs.len() {
        Seq::empty()
    } else {
        method_lines(fs, i - 1) + seq![method_uml(fs[i - 1])]
    }
}

pub open spec fn opt_attr_lines(o: Option<Vec<Variable>>) -> Seq<Seq<char>> {
    match o {
        Some(vs) => attr_lines(vs@, vs@.len() as int),
        None => Seq::empty(),
    }
}

pub open spec fn opt_method_lines(o: Option<Vec<Function>>) -> Seq<Seq<char>> {
    match o {
        Some(fs) => method_lines(fs@, fs@.len() as int),
        None => Seq::empty(),
    }
}

/// The block of one class: header, attribute lines, plain-method lines,
/// closing brace, and one blank line.
pub open spec fn model_uml(m: ClassModel) -> Seq<Seq<char>> {
    seq!["class "@ + m.name@ + " {"@] + opt_attr_lines(m.attributes) + opt_method_lines(m.methods)
        + seq!["}"@, Seq::<char>::empty()]
}

/// The blocks of the first `i` models, each followed by one more blank
/// line.
pub open spec fn model_blocks(ms: Seq<ClassModel>, i: int) -> Seq<Seq<char>>
    decreases i,
{
    if i <= 0 || i > ms.len() {
        Seq::empty()
    } else {
        model_blocks(ms, i - 1) + model_uml(ms[i - 1]) + seq![Seq::<char>::empty()]
    }
}

/// The whole class diagram: the opening tag, a blank line, every class
/// block, and the closing tag.
pub open spec fn class_diagram_lines(ms: Seq<ClassModel>) -> Seq<Seq<char>> {
    seq!["@startuml"@, Seq::<char>::empty()] + model_blocks(ms, ms.len() as int) + seq![
        "@enduml"@,
    ]
}

/// The diagram mark of a visibility.
pub fn visibility_to_uml(visibility: &Visibility) -> (r: &str)
    ensures
        r@ == visibility_mark(*visibility),
{
    match visibility {
        Visibility::PUBLIC => "+",
        Visibility::PRIVATE => "-",
        Visibility::PROTECTED => "#",
    }
}

/// Render one attribute line.
pub fn attribute_to_uml(attribute: &Variable) -> (r: String)
    ensures
        r@ == attribute_uml(*attribute),
{
    let mut s = String::from_str("    ");
    s.append(visibility_to_uml(attribute.visibility()));
    s.append(" ");
    s.append(attribute.name().as_str());
    if !attribute.variable_type().as_str().is_empty() {
        s.append(" : ");
        s.append(attribute.variable_type().as_str());
    }
    s
}

/// Render one argument.
pub fn argument_to_uml(argument: &Variable) -> (r: String)
    ensures
        r@ == argument_uml(*argument),
{
    let mut s = argument.name().clone();
    if !argument.variable_type().as_str().is_empty() {
        s.append(": ");
        s.append(argument.variable_type().as_str());
    }
    s
}

/// Render an argument list, comma separated; an absent list renders as
/// nothing.
#[verifier::loop_isolation(false)]
pub fn arguments_to_uml(arguments: Option<&Vec<Variable>>) -> (r: String)
    ensures
        r@ == arguments_uml(match arguments {
            Some(vs) => Some(vs@),
            None => None,
        }),
{
    match arguments {
        None => String::new(),
        Some(args) => {
            let mut s = String::new();
            let mut i: usize = 0;
            while i < args.len()
                invariant
                    0 <= i <= args@.len(),
                    s@ == args_join(args@, i as int),
                decreases args@.len() - i,
            {
                if i > 0 {
                    s.append(", ");
                }
                let piece = argument_to_uml(&args[i]);
                s.append(piece.as_str());
                i = i + 1;
            }
            s
        },
    }
}

/// Render the return type: `void` when the annotation is absent.
pub fn return_type_to_uml(return_type: Option<&String>) -> (r: String)
    ensures
        r@ == return_type_uml(match return_type {
            Some(s) => Some(s@),
            None => None,
        }),
{
    match return_type {
        Some(ret_type) => ret_type.clone(),
        None => String::from_str("void"),
    }
}

/// Render one method line.
pub fn method_to_uml(method: &Function) -> (r: String)
    ensures
        r@ == method_uml(*method),
{
    let args = arguments_to_uml(method.arguments().as_ref());
    let return_type = return_type_to_uml(method.return_type().as_ref());
    let mut s = String::from_str("    ");
    s.append(visibility_to_uml(method.visibility()));
    s.append(" ");
    s.append(method.name().as_str());
    s.append("(");
    s.append(args.as_str());
    s.append(")");
    if !return_type.as_str().is_empty() {
        s.append(" : ");
        s.append(return_type.as_str());
    }
    s
}

/// Render the block of one class: its header, its attribute and
/// plain-method lines, the closing brace, and a blank line.
#[verifier::loop_isolation(false)]
pub fn model_to_uml(model: &ClassModel) -> (r: Vec<String>)
    ensures
        views_of(r@) == model_uml(*model),
{
    let mut result: Vec<String> = Vec::new();
    let mut header = String::from_str("class ");
    header.append(model.name().as_str());
    header.append(" {");
    result.push(header);
    let ghost head = seq!["class "@ + model.name@ + " {"@];
    proof {
        assert(views_of(result@) =~= head);
    }
    let ghost attrs_spec = opt_attr_lines(model.attributes);
    if let Some(attributes) = model.attributes() {
        let mut i: usize = 0;
        while i < attributes.len()
            invariant
                0 <= i <= attributes@.len(),
                views_of(result@) == head + attr_lines(attributes@, i as int),
            decreases attributes@.len() - i,
        {
            let ghost pre = result@;
            let line = attribute_to_uml(&attributes[i]);
            result.push(line);
            proof {
                assert(views_of(result@) =~= views_of(pre).push(attribute_uml(attributes@[
                    i as int])));
            }
            i = i + 1;
        }
    }
    proof {
        assert(views_of(result@) == head + attrs_spec);
    }
    let ghost methods_spec = opt_method_lines(model.methods);
    if let Some(methods) = model.methods() {
        let mut i: usize = 0;
        while i < methods.len()
            invariant
                0 <= i <= methods@.len(),
                views_of(result@) == head + attrs_spec + method_lines(methods@, i as int),
            decreases methods@.len() - i,
        {
            let ghost pre = result@;
            let line = method_to_uml(&methods[i]);
            result.push(line);
            proof {
                assert(views_of(result@) =~= views_of(pre).push(method_uml(methods@[i as int])));
            }
            i = i + 1;
        }
    }
    proof {
        assert(views_of(result@) == head + attrs_spec + methods_spec);
    }
    let ghost before_close = views_of(result@);
    result.push(String::from_str("}"));
    result.push(String::new());
    proof {
        assert(views_of(result@) =~= before_close + seq!["}"@, Seq::<char>::empty()]);
        assert(views_of(result@) =~= model_uml(*model));
    }
    result
}

/// Render the whole class diagram: one block per model between the opening
/// and closing tags.
#[verifier::loop_isolation(false)]
pub fn generate_plantuml(models: &Vec<ClassModel>) -> (r: Vec<String>)
    ensures
        views_of(r@) == class_diagram_lines(models@),
{
    let mut result: Vec<String> = Vec::new();
    result.push(String::from_str("@startuml"));
    result.push(String::new());
    let ghost head = seq!["@startuml"@, Seq::<char>::empty()];
    proof {
        assert(views_of(result@) =~= head);
    }
    let mut i: usize = 0;
    while i < models.len()
        invariant
            0 <= i <= models@.len(),
            views_of(result@) == head + model_blocks(models@, i as int),
        decreases models@.len() - i,
    {
        let ghost pre = result@;
        let mut uml_lines = model_to_uml(&models[i]);
        let ghost block = views_of(uml_lines@);
        result.append(&mut uml_lines);
        result.push(String::new());
        proof {
            assert(views_of(result@) =~= views_of(pre) + block + seq![Seq::<char>::empty()]);
        }
        i = i + 1;
    }
    let ghost before_close = views_of(result@);
    result.push(String::from_str("@enduml"));
    proof {
        assert(views_of(result@) =~= before_close + seq!["@enduml"@]);
        assert(views_of(result@) =~= class_diagram_lines(models@));
    }
    result
}

} // verus!
