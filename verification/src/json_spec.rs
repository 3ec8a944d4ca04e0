//! The grammar of the compiled story document, as the specifications see
//! it: a family of functions from character sequences and positions to
//! parsed models.
//!
//! Every function takes the whole text and a position and returns the
//! parsed model together with the position after it, or `None` where the
//! text is ill-formed at that position. A recursive call is guarded by a
//! check that its position advanced; the executable parser always
//! advances, so the guards never fire for it.

use vstd::prelude::*;

use crate::path::{digits_val, is_digit, parse_path_text, PathM};
use crate::runtime::choice_point::{choice_point_of_flags, ChoicePointM};
use crate::runtime::control_command::ControlCommand;
use crate::runtime::divert::{DivertM, PushPopType, TargetTypeM};
use crate::runtime::glue::Glue;
use crate::runtime::value::ValueM;
use crate::runtime::variable::VariableAssignmentM;
use crate::runtime::{ContainerM, ObjM};

verus! {

// ---------------------------------------------------------------------------
// Characters and whitespace
// ---------------------------------------------------------------------------

pub open spec fn is_ws(c: char) -> bool {
    c == ' ' || c == '\n' || c == '\r' || c == '\t'
}

/// First position at or after `i` holding a non-whitespace character.
pub open spec fn skip_ws_s(s: Seq<char>, i: int) -> int
    decreases s.len() - i,
{
    if 0 <= i && i < s.len() && is_ws(s[i]) {
        skip_ws_s(s, i + 1)
    } else {
        i
    }
}


pub open spec fn is_hex(c: char) -> bool {
    is_digit(c) || (97 <= c as u32 && c as u32 <= 102) || (65 <= c as u32 && c as u32 <= 70)
}

pub open spec fn hex_val(c: char) -> int {
    if is_digit(c) {
        digits_val(seq![c])
    } else if 97 <= c as u32 && c as u32 <= 102 {
        c as u32 - 87
    } else {
        c as u32 - 55
    }
}

// ---------------------------------------------------------------------------
// Strings
// ---------------------------------------------------------------------------

/// What a single-character escape denotes.
pub open spec fn simple_escape(e: char) -> Option<char> {
    if e == '"' {
        Some('"')
    } else if e == '\\' {
        Some('\\')
    } else if e == '/' {
        Some('/')
    } else if e == 'b' {
        Some('\u{8}')
    } else if e == 'f' {
        Some('\u{c}')
    } else if e == 'n' {
        Some('\n')
    } else if e == 'r' {
        Some('\r')
    } else if e == 't' {
        Some('\t')
    } else {
        None
    }
}

pub open spec fn hex4_ok(s: Seq<char>, i: int) -> bool {
    i + 4 <= s.len() && is_hex(s[i]) && is_hex(s[i + 1]) && is_hex(s[i + 2]) && is_hex(s[i + 3])
}

pub open spec fn hex4_val(s: Seq<char>, i: int) -> int {
    hex_val(s[i]) * 4096 + hex_val(s[i + 1]) * 256 + hex_val(s[i + 2]) * 16 + hex_val(s[i + 3])
}

/// The body of a string literal, from just after the opening quote to the
/// closing quote: characters and escapes, with surrogate pairs combined.
pub open spec fn parse_string_body(s: Seq<char>, i: int) -> Option<(Seq<char>, int)>
    decreases s.len() - i,
{
    if i < 0 || i >= s.len() {
        None
    } else if s[i] == '"' {
        Some((Seq::empty(), i + 1))
    } else if s[i] == '\\' {
        if i + 1 >= s.len() {
            None
        } else {
            let e = s[i + 1];
            if simple_escape(e) is Some {
                match parse_string_body(s, i + 2) {
                    Some((t, j)) => Some((seq![simple_escape(e).unwrap()] + t, j)),
                    None => None,
                }
            } else if e == 'u' {
                if hex4_ok(s, i + 2) {
                    let v = hex4_val(s, i + 2);
                    if 0xD800 <= v && v < 0xDC00 {
                        if i + 12 <= s.len() && s[i + 6] == '\\' && s[i + 7] == 'u' && hex4_ok(
                            s,
                            i + 8,
                        ) {
                            let v2 = hex4_val(s, i + 8);
                            if 0xDC00 <= v2 && v2 < 0xE000 {
                                let cp = 0x10000 + (v - 0xD800) * 1024 + (v2 - 0xDC00);
                                match parse_string_body(s, i + 12) {
                                    Some((t, j)) => Some((seq![((cp as u32) as char)] + t, j)),
                                    None => None,
                                }
                            } else {
                                None
                            }
                        } else {
                            None
                        }
                    } else if 0xDC00 <= v && v < 0xE000 {
                        None
                    } else {
                        match parse_string_body(s, i + 6) {
                            Some((t, j)) => Some((seq![((v as u32) as char)] + t, j)),
                            None => None,
                        }
                    }
                } else {
                    None
                }
            } else {
                None
            }
        }
    } else if (s[i] as u32) < 32 {
        None
    } else {
        match parse_string_body(s, i + 1) {
            Some((t, j)) => Some((seq![s[i]] + t, j)),
            None => None,
        }
    }
}


// ---------------------------------------------------------------------------
// Numbers
// ---------------------------------------------------------------------------

/// First position at or after `i` holding a non-digit.
pub open spec fn scan_digits_s(s: Seq<char>, i: int) -> int
    decreases s.len() - i,
{
    if 0 <= i && i < s.len() && is_digit(s[i]) {
        scan_digits_s(s, i + 1)
    } else {
        i
    }
}

pub proof fn lemma_scan_digits(s: Seq<char>, i: int)
    requires
        0 <= i <= s.len(),
    ensures
        i <= scan_digits_s(s, i) <= s.len(),
        scan_digits_s(s, i) < s.len() ==> !is_digit(s[scan_digits_s(s, i)]),
        forall|j: int| i <= j < scan_digits_s(s, i) ==> is_digit(s[j]),
    decreases s.len() - i,
{
    if i < s.len() && is_digit(s[i]) {
        lemma_scan_digits(s, i + 1);
    }
}

/// End of a fraction part, if one begins at `ie`; `Some(ie)` if none does.
pub open spec fn frac_end(s: Seq<char>, ie: int) -> Option<int> {
    if ie < s.len() && s[ie] == '.' {
        let fe = scan_digits_s(s, ie + 1);
        if fe == ie + 1 {
            None
        } else {
            Some(fe)
        }
    } else {
        Some(ie)
    }
}

/// End of an exponent part, if one begins at `fe`; `Some(fe)` if none does.
pub open spec fn exp_end(s: Seq<char>, fe: int) -> Option<int> {
    if fe < s.len() && (s[fe] == 'e' || s[fe] == 'E') {
        let p = if fe + 1 < s.len() && (s[fe + 1] == '+' || s[fe + 1] == '-') {
            fe + 2
        } else {
            fe + 1
        };
        let ee = scan_digits_s(s, p);
        if ee == p {
            None
        } else {
            Some(ee)
        }
    } else {
        Some(fe)
    }
}

/// A JSON number: an integer becomes `Int` when it fits an `i32` and is
/// ill-formed otherwise; a number with a fraction or exponent becomes
/// `Float`, carried as its text.
pub open spec fn parse_number_s(s: Seq<char>, i: int) -> Option<(ObjM, int)> {
    let neg = 0 <= i && i < s.len() && s[i] == '-';
    let j0 = if neg {
        i + 1
    } else {
        i
    };
    if j0 >= s.len() || !is_digit(s[j0]) {
        None
    } else {
        let ie = scan_digits_s(s, j0);
        if s[j0] == '0' && ie > j0 + 1 {
            None
        } else {
            match frac_end(s, ie) {
                None => None,
                Some(fe) => match exp_end(s, fe) {
                    None => None,
                    Some(ee) => if fe != ie || ee != fe {
                        Some((ObjM::Value(ValueM::Float(s.subrange(i, ee))), ee))
                    } else {
                        let v = if neg {
                            -digits_val(s.subrange(j0, ie))
                        } else {
                            digits_val(s.subrange(j0, ie))
                        };
                        if -0x80000000 <= v && v <= 0x7fffffff {
                            Some((ObjM::Value(ValueM::Int(v)), ie))
                        } else {
                            None
                        }
                    },
                },
            }
        }
    }
}

// ---------------------------------------------------------------------------
// String tokens
// ---------------------------------------------------------------------------

/// What a string value denotes: text after a leading caret, a literal
/// newline, a glue marker, a control command token, or `void`. Any other
/// string is ill-formed.
pub open spec fn string_token_obj(t: Seq<char>) -> Option<ObjM> {
    if t.len() >= 1 && t[0] == '^' {
        Some(ObjM::Value(ValueM::Str(t.skip(1))))
    } else if t == seq!['\n'] {
        Some(ObjM::Value(ValueM::Str(seq!['\n'])))
    } else if t == "<>"@ {
        Some(ObjM::Glue(Glue::Bidirectional))
    } else if t == "G<"@ {
        Some(ObjM::Glue(Glue::Left))
    } else if t == "G>"@ {
        Some(ObjM::Glue(Glue::Right))
    } else if t == "ev"@ {
        Some(ObjM::ControlCommand(ControlCommand::EvalStart))
    } else if t == "out"@ {
        Some(ObjM::ControlCommand(ControlCommand::EvalOutput))
    } else if t == "/ev"@ {
        Some(ObjM::ControlCommand(ControlCommand::EvalEnd))
    } else if t == "du"@ {
        Some(ObjM::ControlCommand(ControlCommand::Duplicate))
    } else if t == "pop"@ {
        Some(ObjM::ControlCommand(ControlCommand::PopEvaluatedValue))
    } else if t == "~ret"@ {
        Some(ObjM::ControlCommand(ControlCommand::PopFunction))
    } else if t == "->->"@ {
        Some(ObjM::ControlCommand(ControlCommand::PopTunnel))
    } else if t == "str"@ {
        Some(ObjM::ControlCommand(ControlCommand::BeginString))
    } else if t == "/str"@ {
        Some(ObjM::ControlCommand(ControlCommand::EndString))
    } else if t == "nop"@ {
        Some(ObjM::ControlCommand(ControlCommand::NoOp))
    } else if t == "choiceCnt"@ {
        Some(ObjM::ControlCommand(ControlCommand::ChoiceCount))
    } else if t == "turns"@ {
        Some(ObjM::ControlCommand(ControlCommand::TurnsSince))
    } else if t == "readc"@ {
        Some(ObjM::ControlCommand(ControlCommand::ReadCount))
    } else if t == "rnd"@ {
        Some(ObjM::ControlCommand(ControlCommand::Random))
    } else if t == "srnd"@ {
        Some(ObjM::ControlCommand(ControlCommand::SeedRandom))
    } else if t == "visit"@ {
        Some(ObjM::ControlCommand(ControlCommand::VisitIndex))
    } else if t == "seq"@ {
        Some(ObjM::ControlCommand(ControlCommand::SequenceShuffleIndex))
    } else if t == "thread"@ {
        Some(ObjM::ControlCommand(ControlCommand::StartThread))
    } else if t == "done"@ {
        Some(ObjM::ControlCommand(ControlCommand::Done))
    } else if t == "end"@ {
        Some(ObjM::ControlCommand(ControlCommand::End))
    } else if t == "listInt"@ {
        Some(ObjM::ControlCommand(ControlCommand::ListFromInt))
    } else if t == "range"@ {
        Some(ObjM::ControlCommand(ControlCommand::ListRange))
    } else if t == "void"@ {
        Some(ObjM::Void)
    } else {
        None
    }
}

// ---------------------------------------------------------------------------
// Array assembly
// ---------------------------------------------------------------------------

/// An empty container model.
pub open spec fn empty_cont_m() -> ContainerM {
    ContainerM {
        content: Seq::empty(),
        name: None,
        visits_should_be_counted: false,
        turn_index_should_be_counted: false,
        count_at_start_only: false,
    }
}

/// The objects of a parsed element list.
pub open spec fn items_objs(items: Seq<(ObjM, bool)>) -> Seq<ObjM> {
    Seq::new(items.len(), |i: int| items[i].0)
}

/// How an array becomes a container. A final container-trailer map is
/// folded into the container: the other elements go first, then the
/// trailer's named sub-containers, and the trailer's name and flags win.
/// A final `null` is a sentinel and is discarded. Any other final element
/// is an ordinary child.
pub open spec fn assemble_array(items: Seq<(ObjM, bool)>) -> ContainerM {
    if items.len() == 0 {
        empty_cont_m()
    } else {
        let last = items.last();
        if last.1 && last.0 is Container {
            let tc = last.0->Container_0;
            ContainerM { content: items_objs(items.drop_last()) + tc.content, ..tc }
        } else if last.0 is Null {
            ContainerM { content: items_objs(items.drop_last()), ..empty_cont_m() }
        } else {
            ContainerM { content: items_objs(items), ..empty_cont_m() }
        }
    }
}

/// Container identity after load: an array with no trailing trailer and
/// no trailing `null` yields exactly its elements, in order, unnamed and
/// with no count flags.
pub proof fn lemma_assemble_no_trailer(items: Seq<(ObjM, bool)>)
    requires
        items.len() > 0 ==> !(items.last().1 && items.last().0 is Container) && !(items.last().0
            is Null),
    ensures
        assemble_array(items) == (ContainerM { content: items_objs(items), ..empty_cont_m() }),
{
    if items.len() == 0 {
        assert(items_objs(items) =~= Seq::<ObjM>::empty());
    }
}

/// Trailer folding: an array whose final element is a container-trailer
/// map yields one container whose children are the elements before the
/// trailer followed by the trailer's named sub-containers, and whose name
/// and count flags are the trailer's.
pub proof fn lemma_assemble_trailer(items: Seq<(ObjM, bool)>, tc: ContainerM)
    requires
        items.len() > 0,
        items.last().1,
        items.last().0 == ObjM::Container(tc),
    ensures
        assemble_array(items) == (ContainerM {
            content: items_objs(items.drop_last()) + tc.content,
            ..tc
        }),
{
}

// ---------------------------------------------------------------------------
// Map entry helpers
// ---------------------------------------------------------------------------

/// After a value inside a map: either `}` ends the map, or `,` must be
/// followed by the quote of the next key. Returns whether another entry
/// follows and the position after `}` or at the next key's quote.
pub open spec fn map_next_s(s: Seq<char>, i: int) -> Option<(bool, int)> {
    let j = skip_ws_s(s, i);
    if j < s.len() && s[j] == '}' {
        Some((false, j + 1))
    } else if j < s.len() && s[j] == ',' {
        let k = skip_ws_s(s, j + 1);
        if k < s.len() && s[k] == '"' {
            Some((true, k))
        } else {
            None
        }
    } else {
        None
    }
}

/// A key at its opening quote.
pub open spec fn parse_key_s(s: Seq<char>, i: int) -> Option<(Seq<char>, int)> {
    if i < s.len() && s[i] == '"' {
        parse_string_body(s, i + 1)
    } else {
        None
    }
}

/// The colon after a key; returns the position of the value.
pub open spec fn parse_colon_s(s: Seq<char>, i: int) -> Option<int> {
    let j = skip_ws_s(s, i);
    if j < s.len() && s[j] == ':' {
        Some(skip_ws_s(s, j + 1))
    } else {
        None
    }
}

/// A string value at its opening quote.
pub open spec fn parse_string_value_s(s: Seq<char>, i: int) -> Option<(Seq<char>, int)> {
    if i < s.len() && s[i] == '"' {
        parse_string_body(s, i + 1)
    } else {
        None
    }
}

/// A `true` or `false` literal.
pub open spec fn parse_bool_s(s: Seq<char>, i: int) -> Option<(bool, int)> {
    if 0 <= i && i + 4 <= s.len() && s.subrange(i, i + 4) == "true"@ {
        Some((true, i + 4))
    } else if 0 <= i && i + 5 <= s.len() && s.subrange(i, i + 5) == "false"@ {
        Some((false, i + 5))
    } else {
        None
    }
}

/// An unsigned integer value of at most `max`: plain digits with no
/// leading zero, fraction or exponent.
pub open spec fn parse_uint_s(s: Seq<char>, i: int, max: int) -> Option<(int, int)> {
    if i < 0 || i >= s.len() || !is_digit(s[i]) {
        None
    } else {
        let ie = scan_digits_s(s, i);
        if s[i] == '0' && ie > i + 1 {
            None
        } else {
            let v = digits_val(s.subrange(i, ie));
            if v <= max {
                Some((v, ie))
            } else {
                None
            }
        }
    }
}

/// A signed integer value fitting an `i32`.
pub open spec fn parse_i32_s(s: Seq<char>, i: int) -> Option<(int, int)> {
    let neg = 0 <= i && i < s.len() && s[i] == '-';
    let j0 = if neg {
        i + 1
    } else {
        i
    };
    if j0 >= s.len() || !is_digit(s[j0]) {
        None
    } else {
        let ie = scan_digits_s(s, j0);
        if s[j0] == '0' && ie > j0 + 1 {
            None
        } else {
            let v = if neg {
                -digits_val(s.subrange(j0, ie))
            } else {
                digits_val(s.subrange(j0, ie))
            };
            if -0x80000000 <= v && v <= 0x7fffffff {
                Some((v, ie))
            } else {
                None
            }
        }
    }
}

/// An optional final `("c", bool)` entry, then the end of the map.
/// Returns the conditional flag and the position after `}`.
pub open spec fn parse_opt_c_end_s(s: Seq<char>, i: int) -> Option<(bool, int)> {
    match map_next_s(s, i) {
        None => None,
        Some((more, j)) => if !more {
            Some((false, j))
        } else {
            match parse_key_s(s, j) {
                None => None,
                Some((k, j2)) => if k == "c"@ {
                    match parse_colon_s(s, j2) {
                        None => None,
                        Some(vp) => match parse_bool_s(s, vp) {
                            None => None,
                            Some((b, j3)) => match map_next_s(s, j3) {
                                Some((false, j4)) => Some((b, j4)),
                                _ => None,
                            },
                        },
                    }
                } else {
                    None
                },
            }
        },
    }
}

} // verus!

verus! {

// ---------------------------------------------------------------------------
// Map branches (after the first key and its string value)
// ---------------------------------------------------------------------------

/// `{"^->": path}`: a divert-target value.
pub open spec fn divert_target_branch_s(s: Seq<char>, t: Seq<char>, i: int) -> Option<
    (ObjM, int),
> {
    match parse_path_text(t) {
        None => None,
        Some(p) => match map_next_s(s, i) {
            Some((false, end)) => Some((ObjM::Value(ValueM::DivertTarget(p)), end)),
            _ => None,
        },
    }
}

/// `{"^var": name, "ci": i32?}`: a variable-pointer value.
pub open spec fn var_pointer_branch_s(s: Seq<char>, name: Seq<char>, i: int) -> Option<
    (ObjM, int),
> {
    match map_next_s(s, i) {
        None => None,
        Some((false, end)) => Some((ObjM::Value(ValueM::VariablePointer(name, -1)), end)),
        Some((true, kp)) => match parse_key_s(s, kp) {
            None => None,
            Some((k, j2)) => if k == "ci"@ {
                match parse_colon_s(s, j2) {
                    None => None,
                    Some(vp) => match parse_i32_s(s, vp) {
                        None => None,
                        Some((ci, j3)) => match map_next_s(s, j3) {
                            Some((false, end)) => Some(
                                (ObjM::Value(ValueM::VariablePointer(name, ci)), end),
                            ),
                            _ => None,
                        },
                    },
                }
            } else {
                None
            },
        },
    }
}

/// The model of a divert with the given shape.
pub open spec fn divert_m(
    target: TargetTypeM,
    push_type: PushPopType,
    pushes: bool,
    ext: bool,
    ext_args: Option<int>,
    cond: bool,
) -> ObjM {
    ObjM::Divert(
        DivertM {
            target: Some(target),
            stack_push_type: push_type,
            pushes_to_stack: pushes,
            external_args: ext_args,
            is_external: ext,
            is_conditional: cond,
        },
    )
}

/// `{"->": target, "var": bool?, "c": bool?}`: a plain divert; with
/// `"var": true` the target is a name, else a path.
pub open spec fn divert_branch_s(s: Seq<char>, t: Seq<char>, i: int) -> Option<(ObjM, int)> {
    match map_next_s(s, i) {
        None => None,
        Some((false, end)) => match parse_path_text(t) {
            None => None,
            Some(p) => Some(
                (divert_m(TargetTypeM::Path(p), PushPopType::NoPush, false, false, None, false), end),
            ),
        },
        Some((true, kp)) => match parse_key_s(s, kp) {
            None => None,
            Some((k, j2)) => match parse_colon_s(s, j2) {
                None => None,
                Some(vp) => if k == "var"@ {
                    match parse_bool_s(s, vp) {
                        None => None,
                        Some((b, j3)) => if b {
                            match parse_opt_c_end_s(s, j3) {
                                None => None,
                                Some((c, end)) => Some(
                                    (
                                        divert_m(
                                            TargetTypeM::Name(t),
                                            PushPopType::NoPush,
                                            false,
                                            false,
                                            None,
                                            c,
                                        ),
                                        end,
                                    ),
                                ),
                            }
                        } else {
                            match parse_path_text(t) {
                                None => None,
                                Some(p) => match map_next_s(s, j3) {
                                    Some((false, end)) => Some(
                                        (
                                            divert_m(
                                                TargetTypeM::Path(p),
                                                PushPopType::NoPush,
                                                false,
                                                false,
                                                None,
                                                false,
                                            ),
                                            end,
                                        ),
                                    ),
                                    _ => None,
                                },
                            }
                        },
                    }
                } else if k == "c"@ {
                    match parse_bool_s(s, vp) {
                        None => None,
                        Some((b, j3)) => match parse_path_text(t) {
                            None => None,
                            Some(p) => match map_next_s(s, j3) {
                                Some((false, end)) => Some(
                                    (
                                        divert_m(
                                            TargetTypeM::Path(p),
                                            PushPopType::NoPush,
                                            false,
                                            false,
                                            None,
                                            b,
                                        ),
                                        end,
                                    ),
                                ),
                                _ => None,
                            },
                        },
                    }
                } else {
                    None
                },
            },
        },
    }
}

/// `{"f()": path, "c": bool?}` and `{"->t->": path, "c": bool?}`: a
/// function-call or tunnel divert.
pub open spec fn call_branch_s(s: Seq<char>, t: Seq<char>, i: int, push_type: PushPopType) -> Option<
    (ObjM, int),
> {
    match parse_path_text(t) {
        None => None,
        Some(p) => match parse_opt_c_end_s(s, i) {
            None => None,
            Some((c, end)) => Some(
                (divert_m(TargetTypeM::Path(p), push_type, true, false, None, c), end),
            ),
        },
    }
}

/// `{"x()": path, "exArgs": u32?, "c": bool?}`: an external-function
/// divert; the host executes it and no frame is pushed.
pub open spec fn external_branch_s(s: Seq<char>, t: Seq<char>, i: int) -> Option<(ObjM, int)> {
    match parse_path_text(t) {
        None => None,
        Some(p) => match map_next_s(s, i) {
            None => None,
            Some((false, end)) => Some(
                (divert_m(TargetTypeM::Path(p), PushPopType::Function, false, true, None, false), end),
            ),
            Some((true, kp)) => match parse_key_s(s, kp) {
                None => None,
                Some((k, j2)) => match parse_colon_s(s, j2) {
                    None => None,
                    Some(vp) => if k == "exArgs"@ {
                        match parse_uint_s(s, vp, 0xFFFFFFFF) {
                            None => None,
                            Some((n, j3)) => match parse_opt_c_end_s(s, j3) {
                                None => None,
                                Some((c, end)) => Some(
                                    (
                                        divert_m(
                                            TargetTypeM::Path(p),
                                            PushPopType::Function,
                                            false,
                                            true,
                                            Some(n),
                                            c,
                                        ),
                                        end,
                                    ),
                                ),
                            },
                        }
                    } else if k == "c"@ {
                        match parse_bool_s(s, vp) {
                            None => None,
                            Some((b, j3)) => match map_next_s(s, j3) {
                                Some((false, end)) => Some(
                                    (
                                        divert_m(
                                            TargetTypeM::Path(p),
                                            PushPopType::Function,
                                            false,
                                            true,
                                            None,
                                            b,
                                        ),
                                        end,
                                    ),
                                ),
                                _ => None,
                            },
                        }
                    } else {
                        None
                    },
                },
            },
        },
    }
}

/// `{"*": path, "flg": u8?}`: a choice point.
pub open spec fn choice_branch_s(s: Seq<char>, t: Seq<char>, i: int) -> Option<(ObjM, int)> {
    match parse_path_text(t) {
        None => None,
        Some(p) => match map_next_s(s, i) {
            None => None,
            Some((false, end)) => Some(
                (ObjM::ChoicePoint(choice_point_of_flags(Some(p), 0)), end),
            ),
            Some((true, kp)) => match parse_key_s(s, kp) {
                None => None,
                Some((k, j2)) => if k == "flg"@ {
                    match parse_colon_s(s, j2) {
                        None => None,
                        Some(vp) => match parse_uint_s(s, vp, 255) {
                            None => None,
                            Some((f, j3)) => match map_next_s(s, j3) {
                                Some((false, end)) => Some(
                                    (
                                        ObjM::ChoicePoint(
                                            choice_point_of_flags(Some(p), f as u8),
                                        ),
                                        end,
                                    ),
                                ),
                                _ => None,
                            },
                        },
                    }
                } else {
                    None
                },
            },
        },
    }
}

/// `{"VAR=": name, "re": bool?}`: a global variable assignment;
/// re-assignment clears the new-declaration flag.
pub open spec fn var_assign_branch_s(s: Seq<char>, name: Seq<char>, i: int) -> Option<
    (ObjM, int),
> {
    match map_next_s(s, i) {
        None => None,
        Some((false, end)) => Some(
            (
                ObjM::VariableAssignment(
                    VariableAssignmentM { name, is_new_declaration: true, is_global: true },
                ),
                end,
            ),
        ),
        Some((true, kp)) => match parse_key_s(s, kp) {
            None => None,
            Some((k, j2)) => if k == "re"@ {
                match parse_colon_s(s, j2) {
                    None => None,
                    Some(vp) => match parse_bool_s(s, vp) {
                        None => None,
                        Some((re, j3)) => match map_next_s(s, j3) {
                            Some((false, end)) => Some(
                                (
                                    ObjM::VariableAssignment(
                                        VariableAssignmentM {
                                            name,
                                            is_new_declaration: !re,
                                            is_global: true,
                                        },
                                    ),
                                    end,
                                ),
                            ),
                            _ => None,
                        },
                    },
                }
            } else {
                None
            },
        },
    }
}

/// A one-entry map shape: the value object, then the closing brace.
pub open spec fn single_entry_end_s(s: Seq<char>, o: ObjM, i: int) -> Option<(ObjM, int)> {
    match map_next_s(s, i) {
        Some((false, end)) => Some((o, end)),
        _ => None,
    }
}

/// Whether a first key selects one of the recognized map shapes.
pub open spec fn is_dispatch_key(k: Seq<char>) -> bool {
    ||| k == "^->"@
    ||| k == "^var"@
    ||| k == "->"@
    ||| k == "f()"@
    ||| k == "->t->"@
    ||| k == "x()"@
    ||| k == "*"@
    ||| k == "VAR?"@
    ||| k == "CNT?"@
    ||| k == "VAR="@
    ||| k == "temp="@
    ||| k == "#"@
    ||| k == "list"@
}

} // verus!

verus! {

// ---------------------------------------------------------------------------
// Values, maps, arrays
// ---------------------------------------------------------------------------

/// A runtime object at `i`: a string token, a recognized map shape or
/// container-trailer map, an array folded into a container, `null`, or a
/// number. The middle result says whether the object came from a
/// container-trailer map.
/// The value of a recognized map shape, given its first key and the
/// position of that key's value.
#[verifier::opaque]
pub open spec fn map_dispatch_s(s: Seq<char>, key: Seq<char>, vp: int) -> Option<(ObjM, int)> {
    if key == "list"@ {
        None
    } else {
        match parse_string_value_s(s, vp) {
            None => None,
            Some((t, j3)) => {
                if key == "^->"@ {
                    divert_target_branch_s(s, t, j3)
                } else if key == "^var"@ {
                    var_pointer_branch_s(s, t, j3)
                } else if key == "->"@ {
                    divert_branch_s(s, t, j3)
                } else if key == "f()"@ {
                    call_branch_s(s, t, j3, PushPopType::Function)
                } else if key == "->t->"@ {
                    call_branch_s(s, t, j3, PushPopType::Tunnel)
                } else if key == "x()"@ {
                    external_branch_s(s, t, j3)
                } else if key == "*"@ {
                    choice_branch_s(s, t, j3)
                } else if key == "VAR?"@ {
                    single_entry_end_s(s, ObjM::VariableReference(t), j3)
                } else if key == "CNT?"@ {
                    match parse_path_text(t) {
                        None => None,
                        Some(p) => single_entry_end_s(s, ObjM::ReadCount(p), j3),
                    }
                } else if key == "VAR="@ {
                    var_assign_branch_s(s, t, j3)
                } else if key == "temp="@ {
                    single_entry_end_s(
                        s,
                        ObjM::VariableAssignment(
                            VariableAssignmentM {
                                name: t,
                                is_new_declaration: true,
                                is_global: false,
                            },
                        ),
                        j3,
                    )
                } else {
                    single_entry_end_s(s, ObjM::Tag(t), j3)
                }
            },
        }
    }
}

/// One entry of a container-trailer map: what it does to the container
/// built so far, and the position after its value.
#[verifier::opaque]
pub open spec fn trailer_step_s(s: Seq<char>, key: Seq<char>, vpos: int, acc: ContainerM) -> Option<
    (ContainerM, int),
>
    decreases s.len() - vpos, 1int,
{
    if key == "#n"@ {
        match parse_string_value_s(s, vpos) {
            None => None,
            Some((n, j)) => Some((ContainerM { name: Some(n), ..acc }, j)),
        }
    } else if key == "#f"@ {
        match parse_uint_s(s, vpos, 255) {
            None => None,
            Some((f, j)) => Some(
                (
                    ContainerM {
                        visits_should_be_counted: acc.visits_should_be_counted || (f as u8) & 0x1
                            != 0,
                        turn_index_should_be_counted: acc.turn_index_should_be_counted || (f as u8)
                            & 0x2 != 0,
                        count_at_start_only: acc.count_at_start_only || (f as u8) & 0x4 != 0,
                        ..acc
                    },
                    j,
                ),
            ),
        }
    } else {
        match parse_value_s(s, vpos) {
            None => None,
            Some((o, _tr, j)) => match o {
                ObjM::Container(cm) => Some(
                    (
                        ContainerM {
                            content: acc.content.push(
                                ObjM::Container(ContainerM { name: Some(key), ..cm }),
                            ),
                            ..acc
                        },
                        j,
                    ),
                ),
                _ => None,
            },
        }
    }
}

#[verifier::opaque]
pub open spec fn parse_value_s(s: Seq<char>, i: int) -> Option<(ObjM, bool, int)>
    decreases s.len() - i, 0int,
{
    if i < 0 || i >= s.len() {
        None
    } else if s[i] == '"' {
        match parse_string_body(s, i + 1) {
            None => None,
            Some((t, j)) => match string_token_obj(t) {
                None => None,
                Some(o) => Some((o, false, j)),
            },
        }
    } else if s[i] == '{' {
        parse_map_s(s, i + 1)
    } else if s[i] == '[' {
        match parse_elems_s(s, i + 1) {
            None => None,
            Some((items, j)) => Some((ObjM::Container(assemble_array(items)), false, j)),
        }
    } else if s[i] == 'n' {
        if i + 4 <= s.len() && s.subrange(i, i + 4) == "null"@ {
            Some((ObjM::Null, false, i + 4))
        } else {
            None
        }
    } else if s[i] == '-' || is_digit(s[i]) {
        match parse_number_s(s, i) {
            None => None,
            Some((o, j)) => Some((o, false, j)),
        }
    } else {
        None
    }
}

/// A map, from just after `{`: the first key picks the shape; an
/// unrecognized first key makes the map a container-trailer.
#[verifier::opaque]
pub open spec fn parse_map_s(s: Seq<char>, i: int) -> Option<(ObjM, bool, int)>
    decreases s.len() - i, 1int,
{
    let j = skip_ws_s(s, i);
    if !(i <= j && j <= s.len()) {
        None
    } else {
        match parse_key_s(s, j) {
            None => None,
            Some((key, j2)) => match parse_colon_s(s, j2) {
                None => None,
                Some(vp) => if is_dispatch_key(key) {
                    match map_dispatch_s(s, key, vp) {
                        None => None,
                        Some((o, end)) => Some((o, false, end)),
                    }
                } else {
                    if i < vp && vp <= s.len() {
                        match parse_trailer_s(s, key, vp, empty_cont_m()) {
                            None => None,
                            Some((tc, end)) => Some((ObjM::Container(tc), true, end)),
                        }
                    } else {
                        None
                    }
                },
            },
        }
    }
}

/// The entries of a container-trailer map, from the current entry's key
/// and value position: `#n` names the container, `#f` sets count flags,
/// and any other key adds its value, which must itself be a container, as
/// a named sub-container.
#[verifier::opaque]
pub open spec fn parse_trailer_s(s: Seq<char>, key: Seq<char>, vpos: int, acc: ContainerM) -> Option<
    (ContainerM, int),
>
    decreases s.len() - vpos, 2int,
{
    match trailer_step_s(s, key, vpos, acc) {
        None => None,
        Some((acc2, j)) => match map_next_s(s, j) {
            None => None,
            Some((false, end)) => Some((acc2, end)),
            Some((true, kp)) => match parse_key_s(s, kp) {
                None => None,
                Some((key2, kj)) => match parse_colon_s(s, kj) {
                    None => None,
                    Some(vp2) => if vpos < vp2 && vp2 <= s.len() {
                        parse_trailer_s(s, key2, vp2, acc2)
                    } else {
                        None
                    },
                },
            },
        },
    }
}

/// The elements of an array, from just after `[`.
#[verifier::opaque]
pub open spec fn parse_elems_s(s: Seq<char>, i: int) -> Option<(Seq<(ObjM, bool)>, int)>
    decreases s.len() - i, 1int,
{
    let j = skip_ws_s(s, i);
    if !(i <= j && j <= s.len()) {
        None
    } else if j < s.len() && s[j] == ']' {
        Some((Seq::empty(), j + 1))
    } else {
        match parse_value_s(s, j) {
            None => None,
            Some((o, tr, j2)) => if j < j2 && j2 <= s.len() {
                match parse_elems_rest_s(s, j2) {
                    None => None,
                    Some((rest, end)) => Some((seq![(o, tr)] + rest, end)),
                }
            } else {
                None
            },
        }
    }
}

/// The remaining elements of an array, from just after an element.
#[verifier::opaque]
pub open spec fn parse_elems_rest_s(s: Seq<char>, i: int) -> Option<(Seq<(ObjM, bool)>, int)>
    decreases s.len() - i, 1int,
{
    let j = skip_ws_s(s, i);
    if !(i <= j && j <= s.len()) {
        None
    } else if j < s.len() && s[j] == ']' {
        Some((Seq::empty(), j + 1))
    } else if j < s.len() && s[j] == ',' {
        let k = skip_ws_s(s, j + 1);
        if !(j < k && k <= s.len()) {
            None
        } else {
            match parse_value_s(s, k) {
                None => None,
                Some((o, tr, j2)) => if k < j2 && j2 <= s.len() {
                    match parse_elems_rest_s(s, j2) {
                        None => None,
                        Some((rest, end)) => Some((seq![(o, tr)] + rest, end)),
                    }
                } else {
                    None
                },
            }
        }
    } else {
        None
    }
}

} // verus!

verus! {

// ---------------------------------------------------------------------------
// Skipping arbitrary document values (for the uninterpreted list
// definitions blob)
// ---------------------------------------------------------------------------

/// The position after any JSON value at `i`, without interpreting it.
#[verifier::opaque]
pub open spec fn skip_json_s(s: Seq<char>, i: int) -> Option<int>
    decreases s.len() - i, 0int,
{
    if i < 0 || i >= s.len() {
        None
    } else if s[i] == '"' {
        match parse_string_body(s, i + 1) {
            None => None,
            Some((_t, j)) => Some(j),
        }
    } else if s[i] == '{' {
        skip_members_s(s, i + 1)
    } else if s[i] == '[' {
        skip_elems_s(s, i + 1)
    } else if s[i] == 'n' {
        if i + 4 <= s.len() && s.subrange(i, i + 4) == "null"@ {
            Some(i + 4)
        } else {
            None
        }
    } else if s[i] == 't' {
        if i + 4 <= s.len() && s.subrange(i, i + 4) == "true"@ {
            Some(i + 4)
        } else {
            None
        }
    } else if s[i] == 'f' {
        if i + 5 <= s.len() && s.subrange(i, i + 5) == "false"@ {
            Some(i + 5)
        } else {
            None
        }
    } else if s[i] == '-' || is_digit(s[i]) {
        let j0 = if s[i] == '-' {
            i + 1
        } else {
            i
        };
        if j0 >= s.len() || !is_digit(s[j0]) {
            None
        } else {
            let ie = scan_digits_s(s, j0);
            if s[j0] == '0' && ie > j0 + 1 {
                None
            } else {
                match frac_end(s, ie) {
                    None => None,
                    Some(fe) => exp_end(s, fe),
                }
            }
        }
    } else {
        None
    }
}

/// The position after the rest of an array being skipped.
#[verifier::opaque]
pub open spec fn skip_elems_s(s: Seq<char>, i: int) -> Option<int>
    decreases s.len() - i, 1int,
{
    let j = skip_ws_s(s, i);
    if !(i <= j && j <= s.len()) {
        None
    } else if j < s.len() && s[j] == ']' {
        Some(j + 1)
    } else {
        match skip_json_s(s, j) {
            None => None,
            Some(j2) => if j < j2 && j2 <= s.len() {
                skip_elems_rest_s(s, j2)
            } else {
                None
            },
        }
    }
}

#[verifier::opaque]
pub open spec fn skip_elems_rest_s(s: Seq<char>, i: int) -> Option<int>
    decreases s.len() - i, 1int,
{
    let j = skip_ws_s(s, i);
    if !(i <= j && j <= s.len()) {
        None
    } else if j < s.len() && s[j] == ']' {
        Some(j + 1)
    } else if j < s.len() && s[j] == ',' {
        let k = skip_ws_s(s, j + 1);
        if !(j < k && k <= s.len()) {
            None
        } else {
            match skip_json_s(s, k) {
                None => None,
                Some(j2) => if k < j2 && j2 <= s.len() {
                    skip_elems_rest_s(s, j2)
                } else {
                    None
                },
            }
        }
    } else {
        None
    }
}

/// The position after the members of an object being skipped, from just
/// after `{`.
#[verifier::opaque]
pub open spec fn skip_members_s(s: Seq<char>, i: int) -> Option<int>
    decreases s.len() - i, 1int,
{
    let j = skip_ws_s(s, i);
    if !(i <= j && j <= s.len()) {
        None
    } else if j < s.len() && s[j] == '}' {
        Some(j + 1)
    } else {
        match parse_key_s(s, j) {
            None => None,
            Some((_k, j2)) => match parse_colon_s(s, j2) {
                None => None,
                Some(vp) => if j < vp && vp <= s.len() {
                    match skip_json_s(s, vp) {
                        None => None,
                        Some(j3) => if vp < j3 && j3 <= s.len() {
                            skip_members_rest_s(s, j3)
                        } else {
                            None
                        },
                    }
                } else {
                    None
                },
            },
        }
    }
}

#[verifier::opaque]
pub open spec fn skip_members_rest_s(s: Seq<char>, i: int) -> Option<int>
    decreases s.len() - i, 1int,
{
    let j = skip_ws_s(s, i);
    if !(i <= j && j <= s.len()) {
        None
    } else if j < s.len() && s[j] == '}' {
        Some(j + 1)
    } else if j < s.len() && s[j] == ',' {
        let k = skip_ws_s(s, j + 1);
        if !(j < k && k <= s.len()) {
            None
        } else {
            match parse_key_s(s, k) {
                None => None,
                Some((_k2, j2)) => match parse_colon_s(s, j2) {
                    None => None,
                    Some(vp) => if k < vp && vp <= s.len() {
                        match skip_json_s(s, vp) {
                            None => None,
                            Some(j3) => if vp < j3 && j3 <= s.len() {
                                skip_members_rest_s(s, j3)
                            } else {
                                None
                            },
                        }
                    } else {
                        None
                    },
                },
            }
        }
    } else {
        None
    }
}

// ---------------------------------------------------------------------------
// The top-level document
// ---------------------------------------------------------------------------

/// A parsed document as the specifications see it.
pub struct DocM {
    pub ink_version: int,
    pub root: ObjM,
    pub list_defs: Option<Seq<char>>,
}

/// The whole document: `{"inkVersion": <u32>, "root": <value>,
/// "listDefs": <value>?}`, in that order, with nothing but whitespace
/// after it. The list definitions are kept as their raw text.
pub open spec fn parse_doc_s(s: Seq<char>) -> Option<DocM> {
    let j = skip_ws_s(s, 0);
    if !(0 <= j && j < s.len() && s[j] == '{') {
        None
    } else {
        let kp = skip_ws_s(s, j + 1);
        match parse_key_s(s, kp) {
            None => None,
            Some((k1, j2)) => if k1 != "inkVersion"@ {
                None
            } else {
                match parse_colon_s(s, j2) {
                    None => None,
                    Some(vp1) => match parse_uint_s(s, vp1, 0xFFFFFFFF) {
                        None => None,
                        Some((ver, j3)) => match map_next_s(s, j3) {
                            Some((true, kp2)) => match parse_key_s(s, kp2) {
                                None => None,
                                Some((k2, j4)) => if k2 != "root"@ {
                                    None
                                } else {
                                    match parse_colon_s(s, j4) {
                                        None => None,
                                        Some(vp2) => match parse_value_s(s, vp2) {
                                            None => None,
                                            Some((root, _tr, j5)) => match map_next_s(s, j5) {
                                                Some((false, end)) => if skip_ws_s(s, end)
                                                    == s.len() {
                                                    Some(
                                                        DocM {
                                                            ink_version: ver,
                                                            root,
                                                            list_defs: None,
                                                        },
                                                    )
                                                } else {
                                                    None
                                                },
                                                Some((true, kp3)) => match parse_key_s(s, kp3) {
                                                    None => None,
                                                    Some((k3, j6)) => if k3 != "listDefs"@ {
                                                        None
                                                    } else {
                                                        match parse_colon_s(s, j6) {
                                                            None => None,
                                                            Some(vp3) => match skip_json_s(
                                                                s,
                                                                vp3,
                                                            ) {
                                                                None => None,
                                                                Some(j7) => if vp3 <= j7
                                                                    && j7 <= s.len() {
                                                                    match map_next_s(s, j7) {
                                                                        Some((false, end)) => if
                                                                            skip_ws_s(s, end)
                                                                            == s.len() {
                                                                            Some(
                                                                                DocM {
                                                                                    ink_version: ver,
                                                                                    root,
                                                                                    list_defs: Some(
                                                                                        s.subrange(
                                                                                            vp3,
                                                                                            j7,
                                                                                        ),
                                                                                    ),
                                                                                },
                                                                            )
                                                                        } else {
                                                                            None
                                                                        },
                                                                        _ => None,
                                                                    }
                                                                } else {
                                                                    None
                                                                },
                                                            },
                                                        }
                                                    },
                                                },
                                                None => None,
                                            },
                                        },
                                    }
                                },
                            },
                            _ => None,
                        },
                    },
                }
            },
        }
    }
}

// ---------------------------------------------------------------------------
// Divert flag consistency of everything the loader produces
// ---------------------------------------------------------------------------

/// Every divert in the object, however deeply nested, satisfies the
/// divert flag matrix.
pub open spec fn obj_ok(o: ObjM) -> bool
    decreases o,
{
    match o {
        ObjM::Divert(d) => crate::runtime::divert::divert_flags_consistent(d),
        ObjM::Container(c) => objs_ok(c.content),
        _ => true,
    }
}

pub open spec fn objs_ok(s: Seq<ObjM>) -> bool
    decreases s,
{
    if s.len() == 0 {
        true
    } else {
        obj_ok(s[0]) && objs_ok(s.subrange(1, s.len() as int))
    }
}

pub proof fn lemma_objs_ok_pointwise(s: Seq<ObjM>)
    ensures
        objs_ok(s) <==> (forall|i: int| 0 <= i < s.len() ==> obj_ok(#[trigger] s[i])),
    decreases s,
{
    if s.len() > 0 {
        let rest = s.subrange(1, s.len() as int);
        lemma_objs_ok_pointwise(rest);
        assert(forall|i: int| 1 <= i < s.len() ==> s[i] == rest[i - 1]);
    }
}

} // verus!

verus! {

pub proof fn lemma_assemble_ok(items: Seq<(ObjM, bool)>)
    requires
        forall|k: int| 0 <= k < items.len() ==> obj_ok(#[trigger] items[k].0),
    ensures
        obj_ok(ObjM::Container(assemble_array(items))),
{
    let c = assemble_array(items);
    if items.len() == 0 {
        lemma_objs_ok_pointwise(c.content);
    } else {
        let last = items.last();
        assert(obj_ok(items[items.len() - 1].0));
        if last.1 && last.0 is Container {
            let tc = last.0->Container_0;
            assert(obj_ok(last.0));
            assert(objs_ok(tc.content));
            lemma_objs_ok_pointwise(tc.content);
            lemma_objs_ok_pointwise(c.content);
            assert(forall|k: int|
                0 <= k < c.content.len() ==> obj_ok(#[trigger] c.content[k])) by {
                assert(forall|k: int|
                    0 <= k < items.len() - 1 ==> c.content[k] == items_objs(items.drop_last())[k]
                        && items_objs(items.drop_last())[k] == (items.drop_last()[k]).0
                        && items.drop_last()[k] == items[k]);
                assert(forall|k: int|
                    items.len() - 1 <= k < c.content.len() ==> c.content[k] == tc.content[k - (
                    items.len() - 1)]);
            };
        } else if last.0 is Null {
            lemma_objs_ok_pointwise(c.content);
            assert(forall|k: int| 0 <= k < c.content.len() ==> c.content[k] == items[k].0);
        } else {
            lemma_objs_ok_pointwise(c.content);
            assert(forall|k: int| 0 <= k < c.content.len() ==> c.content[k] == items[k].0);
        }
    }
}

/// Divert flag consistency: every divert that deserialization produces,
/// at any nesting depth, satisfies the divert flag matrix.
#[verifier::rlimit(100)]
pub proof fn lemma_value_ok(s: Seq<char>, i: int)
    ensures
        parse_value_s(s, i) matches Some((o, tr, j)) ==> obj_ok(o),
    decreases s.len() - i, 0int,
{
    reveal(parse_value_s);
    reveal(parse_map_s);
    reveal(parse_elems_s);
    if 0 <= i && i < s.len() {
        if s[i] == '{' {
            lemma_map_ok(s, i + 1);
        } else if s[i] == '[' {
            lemma_elems_ok(s, i + 1);
            match parse_elems_s(s, i + 1) {
                Some((items, j)) => {
                    lemma_assemble_ok(items);
                },
                None => {},
            }
        }
    }
    assert(parse_value_s(s, i) matches Some((o, tr, j)) ==> obj_ok(o));
}

/// Every object a recognized map shape produces satisfies the divert
/// flag matrix.
pub proof fn lemma_dispatch_ok(s: Seq<char>, key: Seq<char>, vp: int)
    ensures
        map_dispatch_s(s, key, vp) matches Some((o, end)) ==> obj_ok(o),
{
    reveal(map_dispatch_s);
    assert(map_dispatch_s(s, key, vp) matches Some((o, end)) ==> obj_ok(o));
}

pub proof fn lemma_map_ok(s: Seq<char>, i: int)
    ensures
        parse_map_s(s, i) matches Some((o, tr, j)) ==> obj_ok(o),
    decreases s.len() - i, 1int,
{
    reveal(parse_map_s);
    reveal(map_dispatch_s);
    reveal(parse_trailer_s);
    let j = skip_ws_s(s, i);
    if i <= j && j <= s.len() {
        match parse_key_s(s, j) {
            None => {},
            Some((key, j2)) => match parse_colon_s(s, j2) {
                None => {},
                Some(vp) => {
                    if is_dispatch_key(key) {
                        lemma_dispatch_ok(s, key, vp);
                    } else {
                        if i < vp && vp <= s.len() {
                            lemma_objs_ok_pointwise(empty_cont_m().content);
                            lemma_trailer_ok(s, key, vp, empty_cont_m());
                        }
                    }
                },
            },
        }
    }
    assert(parse_map_s(s, i) matches Some((o, tr, j)) ==> obj_ok(o));
}

/// One trailer entry keeps every child of the container consistent.
pub proof fn lemma_trailer_step_ok(s: Seq<char>, key: Seq<char>, vpos: int, acc: ContainerM)
    requires
        objs_ok(acc.content),
    ensures
        trailer_step_s(s, key, vpos, acc) matches Some((acc2, j)) ==> objs_ok(acc2.content),
    decreases s.len() - vpos, 1int,
{
    reveal(trailer_step_s);
    reveal(parse_value_s);
    if key == "#n"@ {
        assert(trailer_step_s(s, key, vpos, acc) matches Some((acc2, j)) ==> acc2.content
            == acc.content);
        assert(trailer_step_s(s, key, vpos, acc) matches Some((acc2, j)) ==> objs_ok(
            acc2.content,
        ));
    } else if key == "#f"@ {
        assert(trailer_step_s(s, key, vpos, acc) matches Some((acc2, j)) ==> acc2.content
            == acc.content);
        assert(trailer_step_s(s, key, vpos, acc) matches Some((acc2, j)) ==> objs_ok(
            acc2.content,
        ));
    } else {
        lemma_value_ok(s, vpos);
        match parse_value_s(s, vpos) {
            None => {},
            Some((o, _tr, j)) => match o {
                ObjM::Container(cm) => {
                    let child = ObjM::Container(ContainerM { name: Some(key), ..cm });
                    assert(obj_ok(child));
                    lemma_objs_ok_pointwise(acc.content);
                    lemma_objs_ok_pointwise(acc.content.push(child));
                    assert(forall|q: int|
                        0 <= q < acc.content.len() ==> acc.content.push(child)[q]
                            == acc.content[q]);
                    assert(objs_ok(acc.content.push(child)));
                    assert(trailer_step_s(s, key, vpos, acc) matches Some((acc2, j))
                        ==> acc2.content == acc.content.push(child));
                    assert(trailer_step_s(s, key, vpos, acc) matches Some((acc2, j)) ==> objs_ok(
                        acc2.content,
                    ));
                },
                _ => {
                    assert(trailer_step_s(s, key, vpos, acc) is None);
                },
            },
        }
    }
    assert(trailer_step_s(s, key, vpos, acc) matches Some((acc2, j)) ==> objs_ok(acc2.content));
}

pub proof fn lemma_trailer_ok(s: Seq<char>, key: Seq<char>, vpos: int, acc: ContainerM)
    requires
        objs_ok(acc.content),
    ensures
        parse_trailer_s(s, key, vpos, acc) matches Some((tc, end)) ==> objs_ok(tc.content),
    decreases s.len() - vpos, 2int,
{
    reveal(parse_trailer_s);
    reveal(trailer_step_s);
    lemma_trailer_step_ok(s, key, vpos, acc);
    match trailer_step_s(s, key, vpos, acc) {
        None => {},
        Some((acc2, j)) => {
            match map_next_s(s, j) {
                None => {},
                Some((false, end)) => {},
                Some((true, kp)) => match parse_key_s(s, kp) {
                    None => {},
                    Some((key2, kj)) => match parse_colon_s(s, kj) {
                        None => {},
                        Some(vp2) => {
                            if vpos < vp2 && vp2 <= s.len() {
                                lemma_trailer_ok(s, key2, vp2, acc2);
                            }
                        },
                    },
                },
            }
        },
    }
    assert(parse_trailer_s(s, key, vpos, acc) matches Some((tc, end)) ==> objs_ok(tc.content));
}

#[verifier::rlimit(60)]
pub proof fn lemma_elems_ok(s: Seq<char>, i: int)
    ensures
        parse_elems_s(s, i) matches Some((items, j)) ==> forall|k: int|
            0 <= k < items.len() ==> obj_ok(#[trigger] items[k].0),
    decreases s.len() - i, 1int,
{
    reveal(parse_elems_s);
    reveal(parse_elems_rest_s);
    reveal(parse_value_s);
    let j = skip_ws_s(s, i);
    if i <= j && j <= s.len() {
        if j < s.len() && s[j] == ']' {
        } else {
            lemma_value_ok(s, j);
            match parse_value_s(s, j) {
                None => {},
                Some((o, tr, j2)) => {
                    if j < j2 && j2 <= s.len() {
                        lemma_elems_rest_ok(s, j2);
                        match parse_elems_rest_s(s, j2) {
                            None => {},
                            Some((rest, end)) => {
                                let items = seq![(o, tr)] + rest;
                                assert(items[0].0 == o);
                                assert(forall|k: int|
                                    1 <= k < items.len() ==> items[k] == rest[k - 1]);
                            },
                        }
                    }
                },
            }
        }
    }
    assert(parse_elems_s(s, i) matches Some((items, j)) ==> forall|k: int|
        0 <= k < items.len() ==> obj_ok(#[trigger] items[k].0));
}

#[verifier::rlimit(60)]
pub proof fn lemma_elems_rest_ok(s: Seq<char>, i: int)
    ensures
        parse_elems_rest_s(s, i) matches Some((items, j)) ==> forall|k: int|
            0 <= k < items.len() ==> obj_ok(#[trigger] items[k].0),
    decreases s.len() - i, 1int,
{
    reveal(parse_elems_rest_s);
    reveal(parse_value_s);
    let j = skip_ws_s(s, i);
    if i <= j && j <= s.len() {
        if j < s.len() && s[j] == ']' {
        } else if j < s.len() && s[j] == ',' {
            let k = skip_ws_s(s, j + 1);
            if j < k && k <= s.len() {
                lemma_value_ok(s, k);
                match parse_value_s(s, k) {
                    None => {},
                    Some((o, tr, j2)) => {
                        if k < j2 && j2 <= s.len() {
                            lemma_elems_rest_ok(s, j2);
                            match parse_elems_rest_s(s, j2) {
                                None => {},
                                Some((rest, end)) => {
                                    let items = seq![(o, tr)] + rest;
                                    assert(items[0].0 == o);
                                    assert(forall|q: int|
                                        1 <= q < items.len() ==> items[q] == rest[q - 1]);
                                },
                            }
                        }
                    },
                }
            }
        }
    }
    assert(parse_elems_rest_s(s, i) matches Some((items, j)) ==> forall|k: int|
        0 <= k < items.len() ==> obj_ok(#[trigger] items[k].0));
}

} // verus!

