//! Source positions attached to nodes by the compiler, carried through
//! for diagnostics.

use vstd::prelude::*;

verus! {

#[derive(Debug)]
pub struct DebugMetadata {
    start_line_number: u32,
    end_line_number: u32,
    file_name: Option<String>,
    source_name: Option<String>,
}

impl DebugMetadata {
    pub fn new() -> (r: DebugMetadata)
        ensures
            r.start_line_number_m() == 0,
            r.end_line_number_m() == 0,
            r.file_name_m() is None,
            r.source_name_m() is None,
    {
        DebugMetadata {
            start_line_number: 0,
            end_line_number: 0,
            file_name: None,
            source_name: None,
        }
    }

    pub closed spec fn start_line_number_m(&self) -> int {
        self.start_line_number as int
    }

    pub closed spec fn end_line_number_m(&self) -> int {
        self.end_line_number as int
    }

    pub closed spec fn file_name_m(&self) -> Option<Seq<char>> {
        match self.file_name {
            Some(ref n) => Some(n@),
            None => None,
        }
    }

    pub closed spec fn source_name_m(&self) -> Option<Seq<char>> {
        match self.source_name {
            Some(ref n) => Some(n@),
            None => None,
        }
    }

    pub fn from_metadata(
        start_line_number: u32,
        end_line_number: u32,
        file_name: String,
        source_name: String,
    ) -> (r: DebugMetadata)
        ensures
            r.start_line_number_m() == start_line_number as int,
            r.end_line_number_m() == end_line_number as int,
            r.file_name_m() == Some(file_name@),
            r.source_name_m() == Some(source_name@),
    {
        DebugMetadata {
            start_line_number,
            end_line_number,
            file_name: Some(file_name),
            source_name: Some(source_name),
        }
    }

    pub fn start_line_number(&self) -> (r: u32)
        ensures
            r as int == self.start_line_number_m(),
    {
        self.start_line_number
    }

    pub fn end_line_number(&self) -> (r: u32)
        ensures
            r as int == self.end_line_number_m(),
    {
        self.end_line_number
    }

    pub fn file_name(&self) -> (r: Option<&String>)
        ensures
            match r {
                Some(n) => self.file_name_m() == Some(n@),
                None => self.file_name_m() is None,
            },
    {
        match &self.file_name {
            Some(n) => Some(n),
            None => None,
        }
    }

    pub fn source_name(&self) -> (r: Option<&String>)
        ensures
            match r {
                Some(n) => self.source_name_m() == Some(n@),
                None => self.source_name_m() is None,
            },
    {
        match &self.source_name {
            Some(n) => Some(n),
            None => None,
        }
    }
}

} // verus!
