//! Metadata tags attached to output.

use vstd::prelude::*;

verus! {

#[derive(Debug)]
pub struct Tag {
    text: String,
}

impl View for Tag {
    type V = Seq<char>;

    closed spec fn view(&self) -> Seq<char> {
        self.text@
    }
}

impl Tag {
    pub fn new(text: String) -> (r: Tag)
        ensures
            r@ == text@,
    {
        Tag { text }
    }

    pub fn text(&self) -> (r: &String)
        ensures
            r@ == self@,
    {
        &self.text
    }
}

} // verus!
