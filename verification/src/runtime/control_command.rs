//! Interpreter opcodes, carried verbatim by the core and interpreted by
//! the story façade.

use vstd::prelude::*;

verus! {

#[derive(Clone, Copy, Debug, PartialEq, Eq, Structural)]
pub enum ControlCommand {
    /// Begin logical evaluation mode: encountered objects go to the
    /// evaluation stack rather than to the output stream.
    EvalStart,
    /// Pop the topmost evaluated value and append it to the output stream.
    EvalOutput,
    /// End logical evaluation mode.
    EvalEnd,
    /// Duplicate the topmost object on the evaluation stack.
    Duplicate,
    /// Pop a value from the evaluation stack without emitting it.
    PopEvaluatedValue,
    /// Return from a function call.
    PopFunction,
    /// Return from a tunnel.
    PopTunnel,
    /// Begin string evaluation mode.
    BeginString,
    /// End string evaluation mode.
    EndString,
    /// Does nothing; an addressable piece of content to divert to.
    NoOp,
    /// Push the current number of choices.
    ChoiceCount,
    /// Push the number of turns since a target was last visited.
    TurnsSince,
    /// Push the read count of a target.
    ReadCount,
    /// Push a random number.
    Random,
    /// Seed the random number generator.
    SeedRandom,
    /// Push the visit index of the current container.
    VisitIndex,
    /// Push the next sequence shuffle index.
    SequenceShuffleIndex,
    /// Clone the call stack into a new narrative thread.
    StartThread,
    /// Close the active thread, or mark the flow safe to exit.
    Done,
    /// End the story flow immediately.
    End,
    /// Make a list from an integer.
    ListFromInt,
    /// Make a list from a range.
    ListRange,
}

/// The serialized token of a control command.
pub open spec fn command_token(c: ControlCommand) -> Seq<char> {
    match c {
        ControlCommand::EvalStart => "ev"@,
        ControlCommand::EvalOutput => "out"@,
        ControlCommand::EvalEnd => "/ev"@,
        ControlCommand::Duplicate => "du"@,
        ControlCommand::PopEvaluatedValue => "pop"@,
        ControlCommand::PopFunction => "~ret"@,
        ControlCommand::PopTunnel => "->->"@,
        ControlCommand::BeginString => "str"@,
        ControlCommand::EndString => "/str"@,
        ControlCommand::NoOp => "nop"@,
        ControlCommand::ChoiceCount => "choiceCnt"@,
        ControlCommand::TurnsSince => "turns"@,
        ControlCommand::ReadCount => "readc"@,
        ControlCommand::Random => "rnd"@,
        ControlCommand::SeedRandom => "srnd"@,
        ControlCommand::VisitIndex => "visit"@,
        ControlCommand::SequenceShuffleIndex => "seq"@,
        ControlCommand::StartThread => "thread"@,
        ControlCommand::Done => "done"@,
        ControlCommand::End => "end"@,
        ControlCommand::ListFromInt => "listInt"@,
        ControlCommand::ListRange => "range"@,
    }
}

impl ControlCommand {
    /// The serialized token, the reverse of parsing.
    pub fn to_string(&self) -> (r: String)
        ensures
            r@ == command_token(*self),
    {
        match self {
            ControlCommand::EvalStart => String::from_str("ev"),
            ControlCommand::EvalOutput => String::from_str("out"),
            ControlCommand::EvalEnd => String::from_str("/ev"),
            ControlCommand::Duplicate => String::from_str("du"),
            ControlCommand::PopEvaluatedValue => String::from_str("pop"),
            ControlCommand::PopFunction => String::from_str("~ret"),
            ControlCommand::PopTunnel => String::from_str("->->"),
            ControlCommand::BeginString => String::from_str("str"),
            ControlCommand::EndString => String::from_str("/str"),
            ControlCommand::NoOp => String::from_str("nop"),
            ControlCommand::ChoiceCount => String::from_str("choiceCnt"),
            ControlCommand::TurnsSince => String::from_str("turns"),
            ControlCommand::ReadCount => String::from_str("readc"),
            ControlCommand::Random => String::from_str("rnd"),
            ControlCommand::SeedRandom => String::from_str("srnd"),
            ControlCommand::VisitIndex => String::from_str("visit"),
            ControlCommand::SequenceShuffleIndex => String::from_str("seq"),
            ControlCommand::StartThread => String::from_str("thread"),
            ControlCommand::Done => String::from_str("done"),
            ControlCommand::End => String::from_str("end"),
            ControlCommand::ListFromInt => String::from_str("listInt"),
            ControlCommand::ListRange => String::from_str("range"),
        }
    }
}

} // verus!
