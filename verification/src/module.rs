use vstd::prelude::*;

use crate::graph::NodeKey;
use crate::text::{clone_strings, str_eq, string_vecs_eq, views_of};

verus! {

/// One Python module: its name (the file stem or last import segment) and
/// the package path leading to it, root to leaf. Two values with equal names
/// and equal package paths stand for the same module; that equality is the
/// node identity of the dependency graph.
#[derive(Clone, Hash, Eq, PartialEq, Debug)]
pub struct PythonModule {
    pub name: String,
    pub packages: Vec<String>,
}

impl PythonModule {
    pub fn new(name: &str, packages: &Vec<String>) -> (r: Self)
        ensures
            r.name@ == name@,
            r.packages@.map_values(|x: String| x@) == packages@.map_values(|x: String| x@),
    {
        PythonModule { name: name.to_owned(), packages: clone_strings(packages) }
    }

    pub fn get_name(&self) -> (r: &String)
        ensures
            r == &self.name,
    {
        &self.name
    }

    pub fn get_packages(&self) -> (r: &Vec<String>)
        ensures
            r == &self.packages,
    {
        &self.packages
    }
}

impl NodeKey for PythonModule {
    /// Two modules are the same node when their names and package paths
    /// hold the same characters.
    open spec fn keq(&self, other: &Self) -> bool {
        self.name@ == other.name@ && views_of(self.packages@) == views_of(other.packages@)
    }

    proof fn keq_refl(&self) {
    }

    proof fn keq_sym(&self, other: &Self) {
    }

    proof fn keq_trans(&self, b: &Self, c: &Self) {
    }

    fn key_eq(&self, other: &Self) -> (r: bool) {
        str_eq(self.name.as_str(), other.name.as_str()) && string_vecs_eq(
            &self.packages,
            &other.packages,
        )
    }

    fn key_clone(&self) -> (r: Self) {
        PythonModule::new(self.name.as_str(), &self.packages)
    }
}

} // verus!
