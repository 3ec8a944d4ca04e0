//! Inline whitespace-collapse markers.

use vstd::prelude::*;

verus! {

#[derive(Clone, Copy, Debug, PartialEq, Eq, Structural)]
pub enum Glue {
    Bidirectional,
    Left,
    Right,
}

/// The serialized token of a glue marker.
pub open spec fn glue_token(g: Glue) -> Seq<char> {
    match g {
        Glue::Bidirectional => "<>"@,
        Glue::Left => "G<"@,
        Glue::Right => "G>"@,
    }
}

impl Glue {
    /// The serialized token, the reverse of parsing.
    pub fn to_string(&self) -> (r: String)
        ensures
            r@ == glue_token(*self),
    {
        match self {
            Glue::Bidirectional => String::from_str("<>"),
            Glue::Left => String::from_str("G<"),
            Glue::Right => String::from_str("G>"),
        }
    }
}

} // verus!
