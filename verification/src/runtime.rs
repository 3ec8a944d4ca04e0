//! The runtime object model: the tagged sum of node kinds, and the
//! container aggregate that the loader builds and the cursors walk.
//!
//! Containers are immutable after loading and are shared by
//! reference-counted pointer; cursors hold such pointers and never copy
//! the graph.

use vstd::prelude::*;

use std::rc::Rc;

pub mod choice_point;
pub mod control_command;
pub mod divert;
pub mod glue;
pub mod tag;
pub mod value;
pub mod variable;

use crate::path::PathM;
use crate::runtime::choice_point::{ChoicePoint, ChoicePointM};
use crate::runtime::control_command::ControlCommand;
use crate::runtime::divert::{Divert, DivertM};
use crate::runtime::glue::Glue;
use crate::runtime::tag::Tag;
use crate::runtime::value::{Value, ValueM};
use crate::runtime::variable::{ReadCount, VariableAssignment, VariableAssignmentM,
    VariableReference};

verus! {

/// A runtime object as the specifications see it.
pub enum ObjM {
    Value(ValueM),
    Glue(Glue),
    ControlCommand(ControlCommand),
    Divert(DivertM),
    ChoicePoint(ChoicePointM),
    VariableReference(Seq<char>),
    ReadCount(PathM),
    VariableAssignment(VariableAssignmentM),
    Tag(Seq<char>),
    Container(ContainerM),
    Void,
    Null,
}

/// A container as the specifications see it.
pub struct ContainerM {
    pub content: Seq<ObjM>,
    pub name: Option<Seq<char>>,
    pub visits_should_be_counted: bool,
    pub turn_index_should_be_counted: bool,
    pub count_at_start_only: bool,
}

/// A node of the runtime graph: exactly one of the tagged kinds.
/// Identity is the pair of kind and payload; no kind is ever silently
/// substituted for another.
#[derive(Debug)]
pub enum RuntimeObject {
    Value(Value),
    Glue(Glue),
    ControlCommand(ControlCommand),
    Divert(Divert),
    ChoicePoint(ChoicePoint),
    VariableReference(VariableReference),
    ReadCount(ReadCount),
    VariableAssignment(VariableAssignment),
    Tag(Tag),
    Container(Rc<Container>),
    Void,
    Null,
}

/// An aggregate node: ordered children, an optional name, and three
/// count-policy flags.
#[derive(Debug)]
pub struct Container {
    content: Vec<RuntimeObject>,
    name: Option<String>,
    visits_should_be_counted: bool,
    turn_index_should_be_counted: bool,
    count_at_start_only: bool,
}

/// The model of a runtime object.
pub open spec fn obj_m(o: RuntimeObject) -> ObjM
    decreases o,
{
    match o {
        RuntimeObject::Value(v) => ObjM::Value(v@),
        RuntimeObject::Glue(g) => ObjM::Glue(g),
        RuntimeObject::ControlCommand(c) => ObjM::ControlCommand(c),
        RuntimeObject::Divert(d) => ObjM::Divert(d@),
        RuntimeObject::ChoicePoint(c) => ObjM::ChoicePoint(c@),
        RuntimeObject::VariableReference(v) => ObjM::VariableReference(v@),
        RuntimeObject::ReadCount(r) => ObjM::ReadCount(r@),
        RuntimeObject::VariableAssignment(v) => ObjM::VariableAssignment(v@),
        RuntimeObject::Tag(t) => ObjM::Tag(t@),
        RuntimeObject::Container(c) => ObjM::Container(cont_m(*c)),
        RuntimeObject::Void => ObjM::Void,
        RuntimeObject::Null => ObjM::Null,
    }
}

/// The models of a sequence of runtime objects, elementwise.
pub open spec fn seq_obj_m(s: Seq<RuntimeObject>) -> Seq<ObjM>
    decreases s,
{
    if s.len() == 0 {
        Seq::empty()
    } else {
        seq![obj_m(s[0])] + seq_obj_m(s.subrange(1, s.len() as int))
    }
}

/// `seq_obj_m` maps `obj_m` over the sequence.
pub proof fn lemma_seq_obj_m(s: Seq<RuntimeObject>)
    ensures
        seq_obj_m(s).len() == s.len(),
        forall|i: int| 0 <= i < s.len() ==> #[trigger] seq_obj_m(s)[i] == obj_m(s[i]),
    decreases s,
{
    if s.len() > 0 {
        let rest = s.subrange(1, s.len() as int);
        lemma_seq_obj_m(rest);
        assert(forall|i: int| 1 <= i < s.len() ==> rest[i - 1] == s[i]);
    }
}

/// The model of a container.
pub closed spec fn cont_m(c: Container) -> ContainerM
    decreases c,
{
    ContainerM {
        content: seq_obj_m(c.content@),
        name: match c.name {
            Some(n) => Some(n@),
            None => None,
        },
        visits_should_be_counted: c.visits_should_be_counted,
        turn_index_should_be_counted: c.turn_index_should_be_counted,
        count_at_start_only: c.count_at_start_only,
    }
}

/// The model of a shared container.
pub open spec fn rc_cm(c: Rc<Container>) -> ContainerM {
    cont_m(*c)
}

/// The name a child shows to path lookup: only containers carry one.
pub open spec fn obj_name_m(o: ObjM) -> Option<Seq<char>> {
    match o {
        ObjM::Container(c) => c.name,
        _ => None,
    }
}

/// The first child whose name is `name`, searching left to right.
pub open spec fn search_m(content: Seq<ObjM>, name: Seq<char>) -> Option<ObjM>
    decreases content.len(),
{
    if content.len() == 0 {
        None
    } else if obj_name_m(content[0]) == Some(name) {
        Some(content[0])
    } else {
        search_m(content.skip(1), name)
    }
}

/// Scanning past non-matching children leaves the search unchanged.
pub proof fn lemma_search_m_skip(content: Seq<ObjM>, name: Seq<char>, i: int)
    requires
        0 <= i <= content.len(),
        forall|j: int| 0 <= j < i ==> obj_name_m(content[j]) != Some(name),
    ensures
        search_m(content, name) == search_m(content.skip(i), name),
    decreases i,
{
    if i > 0 {
        assert(obj_name_m(content[0]) != Some(name));
        let rest = content.skip(1);
        assert(forall|j: int| 0 <= j < i - 1 ==> rest[j] == content[j + 1] && obj_name_m(
            content[j + 1],
        ) != Some(name));
        lemma_search_m_skip(rest, name, i - 1);
        assert(rest.skip(i - 1) =~= content.skip(i));
    } else {
        assert(content.skip(0) =~= content);
    }
}

/// Relies on `Rc::clone` from std: returns a new pointer to the same
/// allocation, so the pointed-to container value is unchanged.
#[verifier::external_body]
pub fn share_container(rc: &Rc<Container>) -> (r: Rc<Container>)
    ensures
        r == *rc,
{
    rc.clone()
}

impl RuntimeObject {
    pub fn is_container(&self) -> (r: bool)
        ensures
            r == (obj_m(*self) is Container),
    {
        match self {
            RuntimeObject::Container(_) => true,
            _ => false,
        }
    }

    pub fn as_container(&self) -> (r: Option<&Rc<Container>>)
        ensures
            match r {
                Some(c) => obj_m(*self) == ObjM::Container(cont_m(**c)),
                None => !(obj_m(*self) is Container),
            },
    {
        match self {
            RuntimeObject::Container(c) => Some(c),
            _ => None,
        }
    }

    pub fn as_value(&self) -> (r: Option<&Value>)
        ensures
            match r {
                Some(v) => obj_m(*self) == ObjM::Value(v@),
                None => !(obj_m(*self) is Value),
            },
    {
        match self {
            RuntimeObject::Value(v) => Some(v),
            _ => None,
        }
    }

    /// The name this node shows to path lookup.
    pub fn name(&self) -> (r: Option<&str>)
        ensures
            match r {
                Some(n) => obj_name_m(obj_m(*self)) == Some(n@),
                None => obj_name_m(obj_m(*self)) is None,
            },
    {
        match self {
            RuntimeObject::Container(c) => c.name(),
            _ => None,
        }
    }
}

impl Container {
    pub fn new() -> (r: Container)
        ensures
            cont_m(r) == (ContainerM {
                content: Seq::empty(),
                name: None,
                visits_should_be_counted: false,
                turn_index_should_be_counted: false,
                count_at_start_only: false,
            }),
    {
        let r = Container {
            content: Vec::new(),
            name: None,
            visits_should_be_counted: false,
            turn_index_should_be_counted: false,
            count_at_start_only: false,
        };
        proof {
            assert(cont_m(r).content =~= Seq::<ObjM>::empty());
        }
        r
    }

    pub fn from_runtime_object_vec(content: Vec<RuntimeObject>) -> (r: Container)
        ensures
            cont_m(r) == (ContainerM {
                content: Seq::new(content@.len(), |i: int| obj_m(content@[i])),
                name: None,
                visits_should_be_counted: false,
                turn_index_should_be_counted: false,
                count_at_start_only: false,
            }),
    {
        let ghost cv = content@;
        let r = Container {
            content,
            name: None,
            visits_should_be_counted: false,
            turn_index_should_be_counted: false,
            count_at_start_only: false,
        };
        proof {
            lemma_seq_obj_m(cv);
            assert(cont_m(r).content =~= Seq::new(cv.len(), |i: int| obj_m(cv[i])));
        }
        r
    }

    pub fn content(&self) -> (r: &Vec<RuntimeObject>)
        ensures
            r@.len() == cont_m(*self).content.len(),
            forall|i: int| 0 <= i < r@.len() ==> cont_m(*self).content[i] == obj_m(#[trigger] r@[i]),
    {
        proof {
            lemma_seq_obj_m(self.content@);
        }
        &self.content
    }

    pub fn len(&self) -> (r: usize)
        ensures
            r == cont_m(*self).content.len(),
    {
        proof {
            lemma_seq_obj_m(self.content@);
        }
        self.content.len()
    }

    /// The child at position `i`, if any.
    pub fn get(&self, i: usize) -> (r: Option<&RuntimeObject>)
        ensures
            match r {
                Some(o) => i < cont_m(*self).content.len() && obj_m(*o) == cont_m(
                    *self,
                ).content[i as int],
                None => i >= cont_m(*self).content.len(),
            },
    {
        proof {
            lemma_seq_obj_m(self.content@);
        }
        if i < self.content.len() {
            Some(&self.content[i])
        } else {
            None
        }
    }

    pub fn name(&self) -> (r: Option<&str>)
        ensures
            match r {
                Some(n) => cont_m(*self).name == Some(n@),
                None => cont_m(*self).name is None,
            },
    {
        match &self.name {
            Some(n) => Some(n.as_str()),
            None => None,
        }
    }

    pub fn set_name(&mut self, name: String)
        ensures
            cont_m(*final(self)) == (ContainerM { name: Some(name@), ..cont_m(*old(self)) }),
    {
        self.name = Some(name);
        proof {
            assert(cont_m(*self).content =~= cont_m(*old(self)).content);
        }
    }

    pub fn visits_should_be_counted(&self) -> (r: bool)
        ensures
            r == cont_m(*self).visits_should_be_counted,
    {
        self.visits_should_be_counted
    }

    pub fn set_visits_should_be_counted(&mut self, flag: bool)
        ensures
            cont_m(*final(self)) == (ContainerM {
                visits_should_be_counted: flag,
                ..cont_m(*old(self))
            }),
    {
        self.visits_should_be_counted = flag;
        proof {
            assert(cont_m(*self).content =~= cont_m(*old(self)).content);
        }
    }

    pub fn turn_index_should_be_counted(&self) -> (r: bool)
        ensures
            r == cont_m(*self).turn_index_should_be_counted,
    {
        self.turn_index_should_be_counted
    }

    pub fn set_turn_index_should_be_counted(&mut self, flag: bool)
        ensures
            cont_m(*final(self)) == (ContainerM {
                turn_index_should_be_counted: flag,
                ..cont_m(*old(self))
            }),
    {
        self.turn_index_should_be_counted = flag;
        proof {
            assert(cont_m(*self).content =~= cont_m(*old(self)).content);
        }
    }

    pub fn count_at_start_only(&self) -> (r: bool)
        ensures
            r == cont_m(*self).count_at_start_only,
    {
        self.count_at_start_only
    }

    pub fn set_count_at_start_only(&mut self, flag: bool)
        ensures
            cont_m(*final(self)) == (ContainerM {
                count_at_start_only: flag,
                ..cont_m(*old(self))
            }),
    {
        self.count_at_start_only = flag;
        proof {
            assert(cont_m(*self).content =~= cont_m(*old(self)).content);
        }
    }

    /// The packed count flags: 0x1 visits, 0x2 turn index, 0x4 count at
    /// start only.
    pub fn count_flags(&self) -> (r: u8)
        ensures
            r == container_count_flags(cont_m(*self)),
    {
        let mut flags: u8 = 0;
        if self.visits_should_be_counted {
            flags = flags + 1;
        }
        if self.turn_index_should_be_counted {
            flags = flags + 2;
        }
        if self.count_at_start_only {
            flags = flags + 4;
        }
        flags
    }

    /// Sets every flag whose bit is set; bits that are clear leave the
    /// flag as it was.
    pub fn set_count_flags(&mut self, count_flags: u8)
        ensures
            cont_m(*final(self)) == (ContainerM {
                visits_should_be_counted: cont_m(*old(self)).visits_should_be_counted || (
                count_flags & 0x1 != 0),
                turn_index_should_be_counted: cont_m(*old(self)).turn_index_should_be_counted || (
                count_flags & 0x2 != 0),
                count_at_start_only: cont_m(*old(self)).count_at_start_only || (count_flags & 0x4
                    != 0),
                ..cont_m(*old(self))
            }),
    {
        if count_flags & 0x1 > 0 {
            self.visits_should_be_counted = true;
        }
        if count_flags & 0x2 > 0 {
            self.turn_index_should_be_counted = true;
        }
        if count_flags & 0x4 > 0 {
            self.count_at_start_only = true;
        }
        proof {
            assert(cont_m(*self).content =~= cont_m(*old(self)).content);
        }
    }

    /// Appends a child.
    pub fn add_child(&mut self, obj: RuntimeObject)
        ensures
            cont_m(*final(self)) == (ContainerM {
                content: cont_m(*old(self)).content.push(obj_m(obj)),
                ..cont_m(*old(self))
            }),
    {
        let ghost o = obj;
        self.content.push(obj);
        proof {
            lemma_seq_obj_m(old(self).content@);
            lemma_seq_obj_m(self.content@);
            assert(cont_m(*self).content =~= cont_m(*old(self)).content.push(obj_m(o)));
        }
    }

    /// Appends a batch of children, preserving their order.
    pub fn append(&mut self, mut objects: Vec<RuntimeObject>)
        ensures
            cont_m(*final(self)) == (ContainerM {
                content: cont_m(*old(self)).content + Seq::new(
                    objects@.len(),
                    |i: int| obj_m(objects@[i]),
                ),
                ..cont_m(*old(self))
            }),
    {
        let ghost obs = objects@;
        self.content.append(&mut objects);
        proof {
            lemma_seq_obj_m(old(self).content@);
            lemma_seq_obj_m(self.content@);
            lemma_seq_obj_m(obs);
            assert(cont_m(*self).content =~= cont_m(*old(self)).content + Seq::new(
                obs.len(),
                |i: int| obj_m(obs[i]),
            ));
        }
    }

    /// Inserts a batch of children before the existing content,
    /// preserving the batch's order.
    pub fn prepend(&mut self, mut objects: Vec<RuntimeObject>)
        ensures
            cont_m(*final(self)) == (ContainerM {
                content: Seq::new(objects@.len(), |i: int| obj_m(objects@[i])) + cont_m(
                    *old(self),
                ).content,
                ..cont_m(*old(self))
            }),
    {
        let ghost obs = objects@;
        objects.append(&mut self.content);
        self.content = objects;
        proof {
            lemma_seq_obj_m(old(self).content@);
            lemma_seq_obj_m(self.content@);
            lemma_seq_obj_m(obs);
            assert(cont_m(*self).content =~= Seq::new(obs.len(), |i: int| obj_m(obs[i])) + cont_m(
                *old(self),
            ).content);
        }
    }

    /// The first child that shows `name` to path lookup, if any.
    pub fn search_by_name(&self, name: &str) -> (r: Option<&RuntimeObject>)
        ensures
            match r {
                Some(o) => search_m(cont_m(*self).content, name@) == Some(obj_m(*o)),
                None => search_m(cont_m(*self).content, name@) is None,
            },
    {
        let ghost content = cont_m(*self).content;
        proof {
            lemma_seq_obj_m(self.content@);
        }
        let mut i: usize = 0;
        while i < self.content.len()
            invariant
                i <= self.content@.len(),
                content == cont_m(*self).content,
                content.len() == self.content@.len(),
                forall|k: int| 0 <= k < content.len() ==> content[k] == obj_m(
                    #[trigger] self.content@[k],
                ),
                forall|j: int| 0 <= j < i ==> obj_name_m(content[j]) != Some(name@),
            decreases self.content@.len() - i,
        {
            let child = &self.content[i];
            let matched = match child.name() {
                Some(other_name) => str_eq(name, other_name),
                None => false,
            };
            if matched {
                proof {
                    lemma_search_m_skip(content, name@, i as int);
                    assert(content.skip(i as int)[0] == content[i as int]);
                }
                return Some(child);
            }
            i = i + 1;
        }
        proof {
            lemma_search_m_skip(content, name@, content.len() as int);
            assert(content.skip(content.len() as int).len() == 0);
        }
        None
    }
}

/// The packed count flags of a container model.
pub open spec fn container_count_flags(c: ContainerM) -> int {
    (if c.visits_should_be_counted {
        1int
    } else {
        0int
    }) + (if c.turn_index_should_be_counted {
        2int
    } else {
        0int
    }) + (if c.count_at_start_only {
        4int
    } else {
        0int
    })
}

/// Whether two string slices hold the same characters.
pub fn str_eq(a: &str, b: &str) -> (r: bool)
    ensures
        r == (a@ == b@),
{
    let an = a.unicode_len();
    let bn = b.unicode_len();
    if an != bn {
        proof {
            assert(a@.len() != b@.len());
        }
        return false;
    }
    let mut i: usize = 0;
    while i < an
        invariant
            i <= an,
            an == a@.len(),
            an == b@.len(),
            forall|k: int| 0 <= k < i ==> a@[k] == b@[k],
        decreases an - i,
    {
        if a.get_char(i) != b.get_char(i) {
            return false;
        }
        i = i + 1;
    }
    proof {
        assert(a@ =~= b@);
    }
    true
}

} // verus!
