//! Core of a narrative-script runtime: the in-memory object model for
//! compiled stories, the loader that reads the compiled JSON form, the
//! path resolver over the container graph, and the execution-context
//! call stack that walks the graph one step at a time.

use vstd::prelude::*;

pub mod callstack;
pub mod debug_metadata;
pub mod error;
pub mod json_parser;
pub mod json_spec;
pub mod path;
pub mod runtime_context;
pub mod runtime_graph;
pub mod runtime;

verus! {

/// Relies on `String::push` from std: appends the given char to the end
/// of the string.
pub assume_specification[ std::string::String::push ](s: &mut String, c: char)
    ensures
        final(s)@ == old(s)@.push(c),
;

/// Relies on `char::from_u32` from std: converts a `u32` to a `char`,
/// returning `None` exactly when the value is a surrogate code point or
/// lies above the Unicode maximum.
pub assume_specification[ char::from_u32 ](v: u32) -> (r: Option<char>)
    ensures
        (r is Some) <==> (v < 0xD800 || (0xE000 <= v && v <= 0x10FFFF)),
        r matches Some(c) ==> c as u32 == v,
;

} // verus!
