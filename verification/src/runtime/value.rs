//! Literal values carried by the story: integers, floats, strings,
//! divert targets and variable pointers.

use vstd::prelude::*;

use crate::path::{Path, PathM};

verus! {

/// A literal value as the specifications see it. A float is carried as
/// its decimal text exactly as written in the document.
pub enum ValueM {
    Int(int),
    Float(Seq<char>),
    Str(Seq<char>),
    DivertTarget(PathM),
    VariablePointer(Seq<char>, int),
}

/// A literal value. A float is carried as its decimal text; a host that
/// needs the numeric value converts the text itself.
#[derive(Debug)]
pub enum Value {
    Int(i32),
    Float(String),
    String(String),
    DivertTarget(Path),
    VariablePointer(String, i32),
}

impl View for Value {
    type V = ValueM;

    open spec fn view(&self) -> ValueM {
        match self {
            Value::Int(n) => ValueM::Int(*n as int),
            Value::Float(t) => ValueM::Float(t@),
            Value::String(s) => ValueM::Str(s@),
            Value::DivertTarget(p) => ValueM::DivertTarget(p@),
            Value::VariablePointer(n, i) => ValueM::VariablePointer(n@, *i as int),
        }
    }
}

impl Value {
    pub fn as_int(&self) -> (r: Option<i32>)
        ensures
            match r {
                Some(n) => self@ == ValueM::Int(n as int),
                None => !(self@ is Int),
            },
    {
        match self {
            Value::Int(n) => Some(*n),
            _ => None,
        }
    }

    pub fn as_string(&self) -> (r: Option<&str>)
        ensures
            match r {
                Some(s) => self@ == ValueM::Str(s@),
                None => !(self@ is Str),
            },
    {
        match self {
            Value::String(s) => Some(s.as_str()),
            _ => None,
        }
    }

    /// The decimal text of a float value.
    pub fn as_float_text(&self) -> (r: Option<&str>)
        ensures
            match r {
                Some(t) => self@ == ValueM::Float(t@),
                None => !(self@ is Float),
            },
    {
        match self {
            Value::Float(t) => Some(t.as_str()),
            _ => None,
        }
    }
}

} // verus!
