//! Choice points: selectable branches with five packed flag bits.

use vstd::prelude::*;

use crate::path::{Path, PathM};

verus! {

/// A choice point as the specifications see it.
pub struct ChoicePointM {
    pub path_on_choice: Option<PathM>,
    pub has_condition: bool,
    pub has_start_content: bool,
    pub has_choice_only_content: bool,
    pub is_invisible_default: bool,
    pub once_only: bool,
}

/// The packed form of the five flags: 0x1 `has_condition`,
/// 0x2 `has_start_content`, 0x4 `has_choice_only_content`,
/// 0x8 `is_invisible_default`, 0x10 `once_only`.
pub open spec fn choice_flags(c: ChoicePointM) -> int {
    (if c.has_condition {
        1int
    } else {
        0int
    }) + (if c.has_start_content {
        2int
    } else {
        0int
    }) + (if c.has_choice_only_content {
        4int
    } else {
        0int
    }) + (if c.is_invisible_default {
        8int
    } else {
        0int
    }) + (if c.once_only {
        16int
    } else {
        0int
    })
}

/// The five flags unpacked from a byte.
pub open spec fn choice_point_of_flags(path_on_choice: Option<PathM>, flags: u8) -> ChoicePointM {
    ChoicePointM {
        path_on_choice,
        has_condition: flags & 0x1 != 0,
        has_start_content: flags & 0x2 != 0,
        has_choice_only_content: flags & 0x4 != 0,
        is_invisible_default: flags & 0x8 != 0,
        once_only: flags & 0x10 != 0,
    }
}

#[derive(Debug)]
pub struct ChoicePoint {
    has_condition: bool,
    has_start_content: bool,
    has_choice_only_content: bool,
    is_invisible_default: bool,
    once_only: bool,
    path_on_choice: Option<Path>,
}

impl View for ChoicePoint {
    type V = ChoicePointM;

    closed spec fn view(&self) -> ChoicePointM {
        ChoicePointM {
            path_on_choice: match self.path_on_choice {
                Some(p) => Some(p@),
                None => None,
            },
            has_condition: self.has_condition,
            has_start_content: self.has_start_content,
            has_choice_only_content: self.has_choice_only_content,
            is_invisible_default: self.is_invisible_default,
            once_only: self.once_only,
        }
    }
}

impl ChoicePoint {
    pub fn new() -> (r: ChoicePoint)
        ensures
            r@ == (ChoicePointM {
                path_on_choice: None,
                has_condition: false,
                has_start_content: false,
                has_choice_only_content: false,
                is_invisible_default: false,
                once_only: false,
            }),
    {
        ChoicePoint {
            has_condition: false,
            has_start_content: false,
            has_choice_only_content: false,
            is_invisible_default: false,
            once_only: false,
            path_on_choice: None,
        }
    }

    /// The packed flag byte.
    pub fn flags(&self) -> (r: u8)
        ensures
            r == choice_flags(self@),
    {
        let mut flags: u8 = 0;
        if self.has_condition {
            flags = flags + 1;
        }
        if self.has_start_content {
            flags = flags + 2;
        }
        if self.has_choice_only_content {
            flags = flags + 4;
        }
        if self.is_invisible_default {
            flags = flags + 8;
        }
        if self.once_only {
            flags = flags + 16;
        }
        flags
    }

    /// Unpacks the flag byte into the five flags.
    pub fn set_flags(&mut self, flags: u8)
        ensures
            final(self)@ == choice_point_of_flags(old(self)@.path_on_choice, flags),
    {
        self.has_condition = flags & 0x1 > 0;
        self.has_start_content = flags & 0x2 > 0;
        self.has_choice_only_content = flags & 0x4 > 0;
        self.is_invisible_default = flags & 0x8 > 0;
        self.once_only = flags & 0x10 > 0;
    }

    pub fn has_condition(&self) -> (r: bool)
        ensures
            r == self@.has_condition,
    {
        self.has_condition
    }

    pub fn has_start_content(&self) -> (r: bool)
        ensures
            r == self@.has_start_content,
    {
        self.has_start_content
    }

    pub fn has_choice_only_content(&self) -> (r: bool)
        ensures
            r == self@.has_choice_only_content,
    {
        self.has_choice_only_content
    }

    pub fn is_invisible_default(&self) -> (r: bool)
        ensures
            r == self@.is_invisible_default,
    {
        self.is_invisible_default
    }

    pub fn once_only(&self) -> (r: bool)
        ensures
            r == self@.once_only,
    {
        self.once_only
    }

    pub fn path_on_choice(&self) -> (r: Option<&Path>)
        ensures
            match r {
                Some(p) => self@.path_on_choice == Some(p@),
                None => self@.path_on_choice is None,
            },
    {
        match &self.path_on_choice {
            Some(p) => Some(p),
            None => None,
        }
    }

    pub fn set_path_on_choice(&mut self, path: Path)
        ensures
            final(self)@ == (ChoicePointM { path_on_choice: Some(path@), ..old(self)@ }),
    {
        self.path_on_choice = Some(path);
    }
}

} // verus!
