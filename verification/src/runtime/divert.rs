//! Diverts: jump instructions, plain, function-call, tunnel or external,
//! optionally conditional.

use vstd::prelude::*;

use crate::path::{Path, PathM};

verus! {

/// The kind of push that a divert performs on the call stack, also
/// recorded on each call-stack frame.
#[derive(Clone, Copy, Debug, PartialEq, Eq, Structural)]
pub enum PushPopType {
    Tunnel,
    Function,
    NoPush,
}

/// A divert target as the specifications see it.
pub enum TargetTypeM {
    Name(Seq<char>),
    Path(PathM),
}

/// Where a divert goes: a variable-resolved name, or a structural path.
#[derive(Debug)]
pub enum TargetType {
    Name(String),
    Path(Path),
}

impl View for TargetType {
    type V = TargetTypeM;

    open spec fn view(&self) -> TargetTypeM {
        match self {
            TargetType::Name(s) => TargetTypeM::Name(s@),
            TargetType::Path(p) => TargetTypeM::Path(p@),
        }
    }
}

/// A divert as the specifications see it.
pub struct DivertM {
    pub target: Option<TargetTypeM>,
    pub stack_push_type: PushPopType,
    pub pushes_to_stack: bool,
    pub external_args: Option<int>,
    pub is_external: bool,
    pub is_conditional: bool,
}

/// The flag matrix of the four divert kinds:
/// - a plain divert has `stack_push_type` `NoPush` and does not push;
/// - a function call has `stack_push_type` `Function` and pushes;
/// - a tunnel has `stack_push_type` `Tunnel` and pushes;
/// - an external function call has `stack_push_type` `Function`, does not
///   push, and is external.
///
/// `external_args` is set only on an external call.
pub open spec fn divert_flags_consistent(d: DivertM) -> bool {
    &&& (d.is_external ==> d.stack_push_type == PushPopType::Function && !d.pushes_to_stack)
    &&& (!d.is_external ==> d.pushes_to_stack == (d.stack_push_type != PushPopType::NoPush))
    &&& (d.external_args is Some ==> d.is_external)
}

#[derive(Debug)]
pub struct Divert {
    target: Option<TargetType>,
    stack_push_type: PushPopType,
    pushes_to_stack: bool,
    external_args: Option<u32>,
    is_external: bool,
    is_conditional: bool,
}

impl View for Divert {
    type V = DivertM;

    closed spec fn view(&self) -> DivertM {
        DivertM {
            target: match self.target {
                Some(t) => Some(t@),
                None => None,
            },
            stack_push_type: self.stack_push_type,
            pushes_to_stack: self.pushes_to_stack,
            external_args: match self.external_args {
                Some(n) => Some(n as int),
                None => None,
            },
            is_external: self.is_external,
            is_conditional: self.is_conditional,
        }
    }
}

impl Divert {
    /// A plain divert.
    pub fn new() -> (r: Divert)
        ensures
            r@ == (DivertM {
                target: None,
                stack_push_type: PushPopType::NoPush,
                pushes_to_stack: false,
                external_args: None,
                is_external: false,
                is_conditional: false,
            }),
    {
        Divert {
            target: None,
            stack_push_type: PushPopType::NoPush,
            pushes_to_stack: false,
            external_args: None,
            is_external: false,
            is_conditional: false,
        }
    }

    /// A function-call divert.
    pub fn new_function() -> (r: Divert)
        ensures
            r@ == (DivertM {
                target: None,
                stack_push_type: PushPopType::Function,
                pushes_to_stack: true,
                external_args: None,
                is_external: false,
                is_conditional: false,
            }),
    {
        Divert {
            target: None,
            stack_push_type: PushPopType::Function,
            pushes_to_stack: true,
            external_args: None,
            is_external: false,
            is_conditional: false,
        }
    }

    /// A tunnel divert.
    pub fn new_tunnel() -> (r: Divert)
        ensures
            r@ == (DivertM {
                target: None,
                stack_push_type: PushPopType::Tunnel,
                pushes_to_stack: true,
                external_args: None,
                is_external: false,
                is_conditional: false,
            }),
    {
        Divert {
            target: None,
            stack_push_type: PushPopType::Tunnel,
            pushes_to_stack: true,
            external_args: None,
            is_external: false,
            is_conditional: false,
        }
    }

    /// An external-function-call divert: the host executes it and no
    /// frame is pushed by the engine.
    pub fn new_external_function() -> (r: Divert)
        ensures
            r@ == (DivertM {
                target: None,
                stack_push_type: PushPopType::Function,
                pushes_to_stack: false,
                external_args: None,
                is_external: true,
                is_conditional: false,
            }),
    {
        Divert {
            target: None,
            stack_push_type: PushPopType::Function,
            pushes_to_stack: false,
            external_args: None,
            is_external: true,
            is_conditional: false,
        }
    }

    pub fn stack_push_type(&self) -> (r: &PushPopType)
        ensures
            *r == self@.stack_push_type,
    {
        &self.stack_push_type
    }

    pub fn pushes_to_stack(&self) -> (r: bool)
        ensures
            r == self@.pushes_to_stack,
    {
        self.pushes_to_stack
    }

    pub fn is_external(&self) -> (r: bool)
        ensures
            r == self@.is_external,
    {
        self.is_external
    }

    pub fn is_conditional(&self) -> (r: bool)
        ensures
            r == self@.is_conditional,
    {
        self.is_conditional
    }

    pub fn target(&self) -> (r: Option<&TargetType>)
        ensures
            match r {
                Some(t) => self@.target == Some(t@),
                None => self@.target is None,
            },
    {
        match &self.target {
            Some(t) => Some(t),
            None => None,
        }
    }

    pub fn external_args(&self) -> (r: Option<u32>)
        ensures
            match r {
                Some(n) => self@.external_args == Some(n as int),
                None => self@.external_args is None,
            },
    {
        self.external_args
    }

    pub fn set_target(&mut self, target: TargetType)
        ensures
            final(self)@ == (DivertM { target: Some(target@), ..old(self)@ }),
    {
        self.target = Some(target);
    }

    pub fn set_is_conditional(&mut self, is_conditional: bool)
        ensures
            final(self)@ == (DivertM { is_conditional, ..old(self)@ }),
    {
        self.is_conditional = is_conditional;
    }

    pub fn set_external_args(&mut self, external_args: u32)
        ensures
            final(self)@ == (DivertM { external_args: Some(external_args as int), ..old(self)@ }),
    {
        self.external_args = Some(external_args);
    }
}

} // verus!
