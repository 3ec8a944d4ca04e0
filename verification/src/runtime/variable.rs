//! Variable operations: assignments, references and read-count queries.

use vstd::prelude::*;

use crate::path::{Path, PathM};

verus! {

/// A variable assignment as the specifications see it.
pub struct VariableAssignmentM {
    pub name: Seq<char>,
    pub is_new_declaration: bool,
    pub is_global: bool,
}

/// Writes a named variable, either globally or as a temporary;
/// re-assignment clears the new-declaration flag.
#[derive(Debug)]
pub struct VariableAssignment {
    name: String,
    is_new_declaration: bool,
    is_global: bool,
}

impl View for VariableAssignment {
    type V = VariableAssignmentM;

    closed spec fn view(&self) -> VariableAssignmentM {
        VariableAssignmentM {
            name: self.name@,
            is_new_declaration: self.is_new_declaration,
            is_global: self.is_global,
        }
    }
}

impl VariableAssignment {
    pub fn new(name: String, is_new_declaration: bool, is_global: bool) -> (r:
        VariableAssignment)
        ensures
            r@ == (VariableAssignmentM { name: name@, is_new_declaration, is_global }),
    {
        VariableAssignment { name, is_new_declaration, is_global }
    }

    pub fn name(&self) -> (r: &str)
        ensures
            r@ == self@.name,
    {
        self.name.as_str()
    }

    pub fn is_new_declaration(&self) -> (r: bool)
        ensures
            r == self@.is_new_declaration,
    {
        self.is_new_declaration
    }

    pub fn is_global(&self) -> (r: bool)
        ensures
            r == self@.is_global,
    {
        self.is_global
    }

    pub fn set_is_global(&mut self, is_global: bool)
        ensures
            final(self)@ == (VariableAssignmentM { is_global, ..old(self)@ }),
    {
        self.is_global = is_global;
    }
}

/// Reads a named variable.
#[derive(Debug)]
pub struct VariableReference {
    name: String,
}

impl View for VariableReference {
    type V = Seq<char>;

    closed spec fn view(&self) -> Seq<char> {
        self.name@
    }
}

impl VariableReference {
    pub fn new(name: String) -> (r: VariableReference)
        ensures
            r@ == name@,
    {
        VariableReference { name }
    }

    pub fn name(&self) -> (r: &str)
        ensures
            r@ == self@,
    {
        self.name.as_str()
    }
}

/// A visit-count query against a named target.
#[derive(Debug)]
pub struct ReadCount {
    target: Path,
}

impl View for ReadCount {
    type V = PathM;

    closed spec fn view(&self) -> PathM {
        self.target@
    }
}

impl ReadCount {
    pub fn new(target: Path) -> (r: ReadCount)
        ensures
            r@ == target@,
    {
        ReadCount { target }
    }

    pub fn target(&self) -> (r: &Path)
        ensures
            r@ == self@,
    {
        &self.target
    }
}

} // verus!
