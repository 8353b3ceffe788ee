use vstd::prelude::*;

verus! {

/// Category of a class, inferred from its declared base classes.
#[derive(Debug, Clone, Copy, PartialEq, Eq, Structural)]
pub enum ClassType {
    CLASS,
    ABSTRACT,
    ENUM,
    EXCEPTION,
}

/// Lexical visibility of an identifier.
#[derive(Debug, Clone, Copy, PartialEq, Eq, Structural)]
pub enum Visibility {
    PUBLIC,
    PRIVATE,
    PROTECTED,
}

/// Kind of a relation between two classes in a diagram.
#[derive(Debug, Clone, Copy, PartialEq, Eq, Structural)]
pub enum LinkType {
    EXTENSION,
    COMPOSITION,
    AGGREGATION,
    NORMAL,
}

/// A named value: an attribute, a property, or an argument. An empty
/// `variable_type` means the type is unknown or unannotated.
#[derive(Debug, Clone)]
pub struct Variable {
    pub name: String,
    pub visibility: Visibility,
    pub variable_type: String,
}

impl Variable {
    pub fn new(name: &String, visibility: Visibility, variable_type: &String) -> (r: Self)
        ensures
            r.name@ == name@,
            r.visibility == visibility,
            r.variable_type@ == variable_type@,
    {
        Variable { name: name.clone(), visibility, variable_type: variable_type.clone() }
    }

    pub fn name(&self) -> (r: &String)
        ensures
            r == &self.name,
    {
        &self.name
    }

    pub fn visibility(&self) -> (r: &Visibility)
        ensures
            r == &self.visibility,
    {
        &self.visibility
    }

    pub fn variable_type(&self) -> (r: &String)
        ensures
            r == &self.variable_type,
    {
        &self.variable_type
    }
}

/// A method, property accessor, or static/abstract method of a class.
/// `arguments` is absent when the definition has no parameters at all;
/// `return_type` is absent when the definition carries no usable return
/// annotation.
#[derive(Debug, Clone)]
pub struct Function {
    pub name: String,
    pub visibility: Visibility,
    pub arguments: Option<Vec<Variable>>,
    pub return_type: Option<String>,
}

impl Function {
    pub fn new(
        name: &String,
        visibility: Visibility,
        arguments: Option<Vec<Variable>>,
        return_type: Option<String>,
    ) -> (r: Self)
        ensures
            r.name@ == name@,
            r.visibility == visibility,
            r.arguments == arguments,
            r.return_type == return_type,
    {
        Function { name: name.clone(), visibility, arguments, return_type }
    }

    pub fn name(&self) -> (r: &String)
        ensures
            r == &self.name,
    {
        &self.name
    }

    pub fn visibility(&self) -> (r: &Visibility)
        ensures
            r == &self.visibility,
    {
        &self.visibility
    }

    pub fn arguments(&self) -> (r: &Option<Vec<Variable>>)
        ensures
            r == &self.arguments,
    {
        &self.arguments
    }

    pub fn return_type(&self) -> (r: &Option<String>)
        ensures
            r == &self.return_type,
    {
        &self.return_type
    }
}

/// The extracted shape of one class definition. Every member list is absent
/// rather than empty when the extraction found nothing of that kind.
#[derive(Debug, Clone)]
pub struct ClassModel {
    pub name: String,
    pub attributes: Option<Vec<Variable>>,
    pub methods: Option<Vec<Function>>,
    pub properties: Option<Vec<Function>>,
    pub class_type: ClassType,
    pub static_methods: Option<Vec<Function>>,
    pub abstract_methods: Option<Vec<Function>>,
}

impl ClassModel {
    pub fn new(
        name: &String,
        attributes: Option<Vec<Variable>>,
        methods: Option<Vec<Function>>,
        properties: Option<Vec<Function>>,
        class_type: ClassType,
        static_methods: Option<Vec<Function>>,
        abstract_methods: Option<Vec<Function>>,
    ) -> (r: Self)
        ensures
            r.name@ == name@,
            r.attributes == attributes,
            r.methods == methods,
            r.properties == properties,
            r.class_type == class_type,
            r.static_methods == static_methods,
            r.abstract_methods == abstract_methods,
    {
        ClassModel {
            name: name.clone(),
            attributes,
            methods,
            properties,
            class_type,
            static_methods,
            abstract_methods,
        }
    }

    pub fn name(&self) -> (r: &String)
        ensures
            r == &self.name,
    {
        &self.name
    }

    pub fn attributes(&self) -> (r: &Option<Vec<Variable>>)
        ensures
            r == &self.attributes,
    {
        &self.attributes
    }

    pub fn methods(&self) -> (r: &Option<Vec<Function>>)
        ensures
            r == &self.methods,
    {
        &self.methods
    }

    pub fn properties(&self) -> (r: &Option<Vec<Function>>)
        ensures
            r == &self.properties,
    {
        &self.properties
    }

    pub fn class_type(&self) -> (r: &ClassType)
        ensures
            r == &self.class_type,
    {
        &self.class_type
    }

    pub fn static_methods(&self) -> (r: &Option<Vec<Function>>)
        ensures
            r == &self.static_methods,
    {
        &self.static_methods
    }

    pub fn abstract_methods(&self) -> (r: &Option<Vec<Function>>)
        ensures
            r == &self.abstract_methods,
    {
        &self.abstract_methods
    }
}

} // verus!
