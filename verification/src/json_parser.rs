//! The loader: parses a compiled story document into runtime objects,
//! containers and the top-level document, exactly as the grammar in
//! `json_spec` says.

use vstd::prelude::*;

use std::rc::Rc;

use crate::error::InkError;
use crate::json_spec::{assemble_array, trailer_step_s, map_dispatch_s, divert_branch_s, call_branch_s, choice_branch_s,
    divert_target_branch_s, divert_m, empty_cont_m, exp_end, external_branch_s, frac_end, hex4_ok,
    hex4_val, hex_val, is_dispatch_key, is_hex, is_ws, items_objs, map_next_s, parse_bool_s,
    parse_colon_s, parse_doc_s, parse_elems_rest_s, parse_elems_s, parse_i32_s, parse_key_s,
    parse_map_s, parse_number_s, parse_string_body, parse_string_value_s, parse_trailer_s,
    parse_uint_s, parse_value_s, scan_digits_s, simple_escape, skip_elems_rest_s,
    skip_elems_s, skip_json_s, skip_members_rest_s, skip_members_s, skip_ws_s, string_token_obj,
    var_assign_branch_s, var_pointer_branch_s, DocM};
use crate::path::{digits_val, is_digit, lemma_char_eq_by_u32, lemma_digits_val_nonneg, to_chars,
    Path};
use crate::runtime::choice_point::ChoicePoint;
use crate::runtime::control_command::ControlCommand;
use crate::runtime::divert::{Divert, TargetType};
use crate::runtime::glue::Glue;
use crate::runtime::tag::Tag;
use crate::runtime::value::Value;
use crate::runtime::variable::{ReadCount, VariableAssignment, VariableReference};
use crate::runtime::{cont_m, obj_m, str_eq, Container, ObjM, RuntimeObject};

verus! {

fn is_ws_x(c: char) -> (r: bool)
    ensures
        r == is_ws(c),
{
    c == ' ' || c == '\n' || c == '\r' || c == '\t'
}

fn is_digit_x(c: char) -> (r: bool)
    ensures
        r == is_digit(c),
{
    let u = c as u32;
    48 <= u && u <= 57
}

/// First position at or after `i` holding a non-whitespace character.
fn skip_ws_x(chars: &Vec<char>, i: usize) -> (r: usize)
    requires
        i <= chars@.len(),
    ensures
        r as int == skip_ws_s(chars@, i as int),
        i <= r <= chars@.len(),
{
    let mut j = i;
    while j < chars.len() && is_ws_x(chars[j])
        invariant
            i <= j <= chars@.len(),
            skip_ws_s(chars@, i as int) == skip_ws_s(chars@, j as int),
        decreases chars@.len() - j,
    {
        j = j + 1;
    }
    proof {
        assert(skip_ws_s(chars@, j as int) == j as int);
    }
    j
}

/// First position at or after `i` holding a non-digit.
fn scan_digits_x(chars: &Vec<char>, i: usize) -> (r: usize)
    requires
        i <= chars@.len(),
    ensures
        r as int == scan_digits_s(chars@, i as int),
        i <= r <= chars@.len(),
        forall|k: int| i <= k < r ==> is_digit(chars@[k]),
    decreases chars@.len() - i,
{
    let mut j = i;
    while j < chars.len() && is_digit_x(chars[j])
        invariant
            i <= j <= chars@.len(),
            scan_digits_s(chars@, i as int) == scan_digits_s(chars@, j as int),
            forall|k: int| i <= k < j ==> is_digit(chars@[k]),
        decreases chars@.len() - j,
    {
        j = j + 1;
    }
    proof {
        assert(scan_digits_s(chars@, j as int) == j as int);
    }
    j
}

/// The value of the digits `chars[from..to]`, or `None` when it exceeds
/// `cap`.
fn digits_to_val(chars: &Vec<char>, from: usize, to: usize, cap: u64) -> (r: Option<u64>)
    requires
        from <= to <= chars@.len(),
        cap <= 0xFFFFFFFF,
        forall|k: int| from <= k < to ==> is_digit(chars@[k]),
    ensures
        ({
            let v = digits_val(chars@.subrange(from as int, to as int));
            match r {
                Some(n) => n as int == v && n <= cap,
                None => v > cap,
            }
        }),
{
    let ghost t = chars@.subrange(from as int, to as int);
    let mut acc: u64 = 0;
    let mut over = false;
    let mut i = from;
    while i < to
        invariant
            from <= i <= to <= chars@.len(),
            cap <= 0xFFFFFFFF,
            t == chars@.subrange(from as int, to as int),
            forall|k: int| from <= k < to ==> is_digit(chars@[k]),
            !over ==> acc as int == digits_val(t.take(i - from)) && acc <= cap,
            over ==> digits_val(t.take(i - from)) > cap,
        decreases to - i,
    {
        let c = chars[i];
        let ghost pre = t.take(i - from);
        let ghost post = t.take(i + 1 - from);
        proof {
            assert(post.drop_last() =~= pre);
            assert(post.last() == t[i - from]);
            assert(t[i - from] == chars@[i as int]);
            assert(is_digit(c));
            assert(digits_val(post) == digits_val(pre) * 10 + (c as u32 - 48));
            assert(forall|k: int| 0 <= k < pre.len() ==> is_digit(pre[k]));
        }
        let d = ((c as u32) - 48) as u64;
        if !over {
            let next = acc * 10 + d;
            if next > cap {
                over = true;
            } else {
                acc = next;
            }
        } else {
            proof {
                lemma_digits_val_nonneg(pre);
                assert(digits_val(pre) * 10 >= digits_val(pre)) by (nonlinear_arith)
                    requires
                        digits_val(pre) >= 0,
                ;
            }
        }
        i = i + 1;
    }
    proof {
        assert(t.take(to - from) =~= t);
    }
    if over {
        None
    } else {
        Some(acc)
    }
}

fn is_hex_x(c: char) -> (r: bool)
    ensures
        r == is_hex(c),
{
    let u = c as u32;
    (48 <= u && u <= 57) || (97 <= u && u <= 102) || (65 <= u && u <= 70)
}

fn hex_val_x(c: char) -> (r: u32)
    requires
        is_hex(c),
    ensures
        r as int == hex_val(c),
        r < 16,
{
    let u = c as u32;
    if 48 <= u && u <= 57 {
        proof {
            assert(seq![c].drop_last() =~= Seq::<char>::empty());
            assert(digits_val(Seq::<char>::empty()) == 0);
            assert(seq![c].last() == c);
            assert(digits_val(seq![c]) == c as u32 - 48);
        }
        u - 48
    } else if 97 <= u && u <= 102 {
        u - 87
    } else {
        u - 55
    }
}

/// Four hex digits at `i`, as a value.
fn hex4_x(chars: &Vec<char>, i: usize) -> (r: Option<u32>)
    requires
        i <= chars@.len(),
    ensures
        match r {
            Some(v) => hex4_ok(chars@, i as int) && v as int == hex4_val(chars@, i as int) && v
                < 0x10000,
            None => !hex4_ok(chars@, i as int),
        },
{
    if chars.len() - i < 4 {
        return None;
    }
    if !(is_hex_x(chars[i]) && is_hex_x(chars[i + 1]) && is_hex_x(chars[i + 2]) && is_hex_x(
        chars[i + 3],
    )) {
        return None;
    }
    let v = hex_val_x(chars[i]) * 4096 + hex_val_x(chars[i + 1]) * 256 + hex_val_x(chars[i + 2])
        * 16 + hex_val_x(chars[i + 3]);
    Some(v)
}

fn simple_escape_x(e: char) -> (r: Option<char>)
    ensures
        r == simple_escape(e),
{
    if e == '"' {
        Some('"')
    } else if e == '\\' {
        Some('\\')
    } else if e == '/' {
        Some('/')
    } else if e == 'b' {
        Some('\u{8}')
    } else if e == 'f' {
        Some('\u{c}')
    } else if e == 'n' {
        Some('\n')
    } else if e == 'r' {
        Some('\r')
    } else if e == 't' {
        Some('\t')
    } else {
        None
    }
}

fn err(msg: &str) -> (r: String) {
    String::from_str(msg)
}

/// The body of a string literal, from just after the opening quote.
fn parse_string_body_x(chars: &Vec<char>, i: usize) -> (r: Result<(String, usize), String>)
    requires
        i <= chars@.len(),
    ensures
        match r {
            Ok((t, j)) => parse_string_body(chars@, i as int) == Some((t@, j as int)) && i < j
                <= chars@.len(),
            Err(_) => parse_string_body(chars@, i as int) is None,
        },
{
    let ghost s = chars@;
    let mut acc = String::new();
    let mut cur = i;
    proof {
        match parse_string_body(s, i as int) {
            Some((t, j)) => {
                assert(Seq::<char>::empty() + t =~= t);
            },
            None => {},
        }
    }
    while cur < chars.len()
        invariant
            i <= cur <= chars@.len(),
            s == chars@,
            ({
                match parse_string_body(s, cur as int) {
                    Some((t, j)) => parse_string_body(s, i as int) == Some((acc@ + t, j)),
                    None => parse_string_body(s, i as int) is None,
                }
            }),
        decreases chars@.len() - cur,
    {
        let c = chars[cur];
        if c == '"' {
            proof {
                assert(parse_string_body(s, cur as int) == Some(
                    (Seq::<char>::empty(), cur + 1 as int),
                ));
                assert(acc@ + Seq::<char>::empty() =~= acc@);
            }
            return Ok((acc, cur + 1));
        } else if c == '\\' {
            if chars.len() - cur < 2 {
                return Err(err("unterminated escape in string"));
            }
            let e = chars[cur + 1];
            match simple_escape_x(e) {
                Some(ch) => {
                    let ghost before = acc@;
                    acc.push(ch);
                    proof {
                        match parse_string_body(s, cur + 2) {
                            Some((t, j)) => {
                                assert(parse_string_body(s, cur as int) == Some(
                                    (seq![ch] + t, j),
                                ));
                                assert(before + (seq![ch] + t) =~= acc@ + t);
                            },
                            None => {},
                        }
                    }
                    cur = cur + 2;
                },
                None => {
                    if e == 'u' {
                        if chars.len() - cur < 6 {
                            return Err(err("invalid unicode escape"));
                        }
                        match hex4_x(chars, cur + 2) {
                            None => {
                                return Err(err("invalid unicode escape"));
                            },
                            Some(v) => {
                                if 0xD800 <= v && v < 0xDC00 {
                                    if chars.len() - cur >= 12 && chars[cur + 6] == '\\' && chars[
                                        cur + 7] == 'u' {
                                        match hex4_x(chars, cur + 8) {
                                            None => {
                                                return Err(err("invalid unicode escape"));
                                            },
                                            Some(v2) => {
                                                if 0xDC00 <= v2 && v2 < 0xE000 {
                                                    let cp = 0x10000 + (v - 0xD800) * 1024 + (v2
                                                        - 0xDC00);
                                                    let ch = match char::from_u32(cp) {
                                                        Some(ch) => ch,
                                                        None => {
                                                            proof {
                                                                assert(false);
                                                            }
                                                            ' '
                                                        },
                                                    };
                                                    let ghost before = acc@;
                                                    acc.push(ch);
                                                    proof {
                                                        lemma_char_eq_by_u32(
                                                            ch,
                                                            ((cp as int) as u32) as char,
                                                        );
                                                        match parse_string_body(s, cur + 12) {
                                                            Some((t, j)) => {
                                                                assert(parse_string_body(
                                                                    s,
                                                                    cur as int,
                                                                ) == Some((seq![ch] + t, j)));
                                                                assert(before + (seq![ch] + t)
                                                                    =~= acc@ + t);
                                                            },
                                                            None => {},
                                                        }
                                                    }
                                                    cur = cur + 12;
                                                } else {
                                                    return Err(
                                                        err("unpaired surrogate in string"),
                                                    );
                                                }
                                            },
                                        }
                                    } else {
                                        return Err(err("unpaired surrogate in string"));
                                    }
                                } else if 0xDC00 <= v && v < 0xE000 {
                                    return Err(err("unpaired surrogate in string"));
                                } else {
                                    let ch = match char::from_u32(v) {
                                        Some(ch) => ch,
                                        None => {
                                            proof {
                                                assert(false);
                                            }
                                            ' '
                                        },
                                    };
                                    let ghost before = acc@;
                                    acc.push(ch);
                                    proof {
                                        lemma_char_eq_by_u32(ch, ((v as int) as u32) as char);
                                        match parse_string_body(s, cur + 6) {
                                            Some((t, j)) => {
                                                assert(parse_string_body(s, cur as int) == Some(
                                                    (seq![ch] + t, j),
                                                ));
                                                assert(before + (seq![ch] + t) =~= acc@ + t);
                                            },
                                            None => {},
                                        }
                                    }
                                    cur = cur + 6;
                                }
                            },
                        }
                    } else {
                        return Err(err("unknown escape in string"));
                    }
                },
            }
        } else if (c as u32) < 32 {
            return Err(err("control character in string"));
        } else {
            let ghost before = acc@;
            acc.push(c);
            proof {
                match parse_string_body(s, cur + 1) {
                    Some((t, j)) => {
                        assert(parse_string_body(s, cur as int) == Some((seq![c] + t, j)));
                        assert(before + (seq![c] + t) =~= acc@ + t);
                    },
                    None => {},
                }
            }
            cur = cur + 1;
        }
    }
    Err(err("unterminated string"))
}

} // verus!

verus! {

/// A number value: an integer fitting an `i32`, or a float kept as its
/// decimal text.
fn parse_number_x(chars: &Vec<char>, i: usize) -> (r: Result<(RuntimeObject, usize), String>)
    requires
        i <= chars@.len(),
    ensures
        match r {
            Ok((o, j)) => parse_number_s(chars@, i as int) == Some((obj_m(o), j as int)) && i < j
                <= chars@.len(),
            Err(_) => parse_number_s(chars@, i as int) is None,
        },
{
    let ghost s = chars@;
    let neg = i < chars.len() && chars[i] == '-';
    let j0 = if neg {
        i + 1
    } else {
        i
    };
    if j0 >= chars.len() || !is_digit_x(chars[j0]) {
        return Err(err("invalid number"));
    }
    let ie = scan_digits_x(chars, j0);
    proof {
        crate::json_spec::lemma_scan_digits(s, j0 as int);
        assert(ie > j0);
    }
    if chars[j0] == '0' && ie > j0 + 1 {
        return Err(err("number has a leading zero"));
    }
    let mut isf = false;
    let mut fe = ie;
    if ie < chars.len() && chars[ie] == '.' {
        let fd = scan_digits_x(chars, ie + 1);
        if fd == ie + 1 {
            return Err(err("number has an empty fraction"));
        }
        fe = fd;
        isf = true;
    }
    proof {
        assert(frac_end(s, ie as int) == Some(fe as int));
    }
    let mut ee = fe;
    if fe < chars.len() && (chars[fe] == 'e' || chars[fe] == 'E') {
        let p = if fe + 1 < chars.len() && (chars[fe + 1] == '+' || chars[fe + 1] == '-') {
            fe + 2
        } else {
            fe + 1
        };
        let ed = scan_digits_x(chars, p);
        if ed == p {
            return Err(err("number has an empty exponent"));
        }
        ee = ed;
        isf = true;
        proof {
            crate::json_spec::lemma_scan_digits(s, p as int);
        }
    }
    proof {
        assert(exp_end(s, fe as int) == Some(ee as int));
    }
    if isf {
        let mut text = String::new();
        let mut k = i;
        while k < ee
            invariant
                i <= k <= ee <= chars@.len(),
                s == chars@,
                text@ == s.subrange(i as int, k as int),
            decreases ee - k,
        {
            text.push(chars[k]);
            k = k + 1;
            proof {
                assert(text@ =~= s.subrange(i as int, k as int));
            }
        }
        proof {
            assert(isf ==> (fe != ie || ee != fe));
        }
        Ok((RuntimeObject::Value(Value::Float(text)), ee))
    } else {
        let cap: u64 = if neg {
            0x80000000
        } else {
            0x7FFFFFFF
        };
        match digits_to_val(chars, j0, ie, cap) {
            None => Err(err("number is out of range")),
            Some(v) => {
                let n: i32 = if neg {
                    (-(v as i64)) as i32
                } else {
                    v as i32
                };
                Ok((RuntimeObject::Value(Value::Int(n)), ie))
            },
        }
    }
}

/// A `true` or `false` literal.
fn parse_bool_x(chars: &Vec<char>, i: usize) -> (r: Result<(bool, usize), String>)
    requires
        i <= chars@.len(),
    ensures
        match r {
            Ok((b, j)) => parse_bool_s(chars@, i as int) == Some((b, j as int)) && i < j
                <= chars@.len(),
            Err(_) => parse_bool_s(chars@, i as int) is None,
        },
{
    let ghost s = chars@;
    proof {
        reveal_strlit("true");
        reveal_strlit("false");
    }
    if chars.len() - i >= 4 && chars[i] == 't' && chars[i + 1] == 'r' && chars[i + 2] == 'u'
        && chars[i + 3] == 'e' {
        proof {
            assert(s.subrange(i as int, i + 4) =~= "true"@);
        }
        Ok((true, i + 4))
    } else if chars.len() - i >= 5 && chars[i] == 'f' && chars[i + 1] == 'a' && chars[i + 2] == 'l'
        && chars[i + 3] == 's' && chars[i + 4] == 'e' {
        proof {
            assert(s.subrange(i as int, i + 5) =~= "false"@);
            if i + 4 <= s.len() {
                assert(s.subrange(i as int, i + 4)[0] == 'f');
                assert(s.subrange(i as int, i + 4) != "true"@);
            }
        }
        Ok((false, i + 5))
    } else {
        proof {
            if i + 4 <= s.len() {
                let t4 = s.subrange(i as int, i + 4);
                assert(forall|q: int| 0 <= q < 4 ==> t4[q] == s[i + q]);
                if t4 == "true"@ {
                    assert(s[i as int] == ("true"@)[0]);
                    assert(s[i + 1] == ("true"@)[1]);
                    assert(s[i + 2] == ("true"@)[2]);
                    assert(s[i + 3] == ("true"@)[3]);
                }
            }
            if i + 5 <= s.len() {
                let t5 = s.subrange(i as int, i + 5);
                assert(forall|q: int| 0 <= q < 5 ==> t5[q] == s[i + q]);
                if t5 == "false"@ {
                    assert(s[i as int] == ("false"@)[0]);
                    assert(s[i + 1] == ("false"@)[1]);
                    assert(s[i + 2] == ("false"@)[2]);
                    assert(s[i + 3] == ("false"@)[3]);
                    assert(s[i + 4] == ("false"@)[4]);
                }
            }
        }
        Err(err("expected a boolean"))
    }
}

/// An unsigned integer of at most `max`.
fn parse_uint_x(chars: &Vec<char>, i: usize, max: u64) -> (r: Result<(u64, usize), String>)
    requires
        i <= chars@.len(),
        max <= 0xFFFFFFFF,
    ensures
        match r {
            Ok((v, j)) => parse_uint_s(chars@, i as int, max as int) == Some(
                (v as int, j as int),
            ) && i < j <= chars@.len(),
            Err(_) => parse_uint_s(chars@, i as int, max as int) is None,
        },
{
    let ghost s = chars@;
    if i >= chars.len() || !is_digit_x(chars[i]) {
        return Err(err("expected an unsigned integer"));
    }
    let ie = scan_digits_x(chars, i);
    proof {
        crate::json_spec::lemma_scan_digits(s, i as int);
        assert(ie > i);
    }
    if chars[i] == '0' && ie > i + 1 {
        return Err(err("unsigned integer has a leading zero"));
    }
    match digits_to_val(chars, i, ie, max) {
        None => Err(err("unsigned integer is out of range")),
        Some(v) => Ok((v, ie)),
    }
}

/// A signed integer fitting an `i32`.
fn parse_i32_x(chars: &Vec<char>, i: usize) -> (r: Result<(i32, usize), String>)
    requires
        i <= chars@.len(),
    ensures
        match r {
            Ok((v, j)) => parse_i32_s(chars@, i as int) == Some((v as int, j as int)) && i < j
                <= chars@.len(),
            Err(_) => parse_i32_s(chars@, i as int) is None,
        },
{
    let ghost s = chars@;
    let neg = i < chars.len() && chars[i] == '-';
    let j0 = if neg {
        i + 1
    } else {
        i
    };
    if j0 >= chars.len() || !is_digit_x(chars[j0]) {
        return Err(err("expected an integer"));
    }
    let ie = scan_digits_x(chars, j0);
    proof {
        crate::json_spec::lemma_scan_digits(s, j0 as int);
        assert(ie > j0);
    }
    if chars[j0] == '0' && ie > j0 + 1 {
        return Err(err("integer has a leading zero"));
    }
    let cap: u64 = if neg {
        0x80000000
    } else {
        0x7FFFFFFF
    };
    match digits_to_val(chars, j0, ie, cap) {
        None => Err(err("integer is out of range")),
        Some(v) => {
            let n: i32 = if neg {
                (-(v as i64)) as i32
            } else {
                v as i32
            };
            Ok((n, ie))
        },
    }
}

/// After a value inside a map: `}` ends it, or `,` is followed by the
/// next key.
fn map_next_x(chars: &Vec<char>, i: usize) -> (r: Result<(bool, usize), String>)
    requires
        i <= chars@.len(),
    ensures
        match r {
            Ok((more, p)) => map_next_s(chars@, i as int) == Some((more, p as int)) && i <= p
                <= chars@.len() && (more ==> p < chars@.len() && chars@[p as int] == '"'),
            Err(_) => map_next_s(chars@, i as int) is None,
        },
{
    let j = skip_ws_x(chars, i);
    if j < chars.len() && chars[j] == '}' {
        Ok((false, j + 1))
    } else if j < chars.len() && chars[j] == ',' {
        let k = skip_ws_x(chars, j + 1);
        if k < chars.len() && chars[k] == '"' {
            Ok((true, k))
        } else {
            Err(err("expected a key after a comma"))
        }
    } else {
        Err(err("expected a comma or the end of the map"))
    }
}

/// A key at its opening quote.
fn parse_key_x(chars: &Vec<char>, i: usize) -> (r: Result<(String, usize), String>)
    requires
        i <= chars@.len(),
    ensures
        match r {
            Ok((k, j)) => parse_key_s(chars@, i as int) == Some((k@, j as int)) && i < j
                <= chars@.len(),
            Err(_) => parse_key_s(chars@, i as int) is None,
        },
{
    if i < chars.len() && chars[i] == '"' {
        parse_string_body_x(chars, i + 1)
    } else {
        Err(err("expected a key"))
    }
}

/// The colon after a key; returns the position of the value.
fn parse_colon_x(chars: &Vec<char>, i: usize) -> (r: Result<usize, String>)
    requires
        i <= chars@.len(),
    ensures
        match r {
            Ok(vp) => parse_colon_s(chars@, i as int) == Some(vp as int) && i <= vp
                <= chars@.len(),
            Err(_) => parse_colon_s(chars@, i as int) is None,
        },
{
    let j = skip_ws_x(chars, i);
    if j < chars.len() && chars[j] == ':' {
        Ok(skip_ws_x(chars, j + 1))
    } else {
        Err(err("expected a colon after a key"))
    }
}

/// A string value at its opening quote.
fn parse_string_value_x(chars: &Vec<char>, i: usize) -> (r: Result<(String, usize), String>)
    requires
        i <= chars@.len(),
    ensures
        match r {
            Ok((t, j)) => parse_string_value_s(chars@, i as int) == Some((t@, j as int)) && i < j
                <= chars@.len(),
            Err(_) => parse_string_value_s(chars@, i as int) is None,
        },
{
    if i < chars.len() && chars[i] == '"' {
        parse_string_body_x(chars, i + 1)
    } else {
        Err(err("expected a string value"))
    }
}

/// An optional final `("c", bool)` entry, then the end of the map.
fn parse_opt_c_end_x(chars: &Vec<char>, i: usize) -> (r: Result<(bool, usize), String>)
    requires
        i <= chars@.len(),
    ensures
        match r {
            Ok((c, p)) => crate::json_spec::parse_opt_c_end_s(chars@, i as int) == Some(
                (c, p as int),
            ) && i <= p <= chars@.len(),
            Err(_) => crate::json_spec::parse_opt_c_end_s(chars@, i as int) is None,
        },
{
    let (more, j) = match map_next_x(chars, i) {
        Ok(v) => v,
        Err(e) => {
            return Err(e);
        },
    };
    if !more {
        return Ok((false, j));
    }
    let (k, j2) = match parse_key_x(chars, j) {
        Ok(v) => v,
        Err(e) => {
            return Err(e);
        },
    };
    if !str_eq(k.as_str(), "c") {
        return Err(err("unexpected key in map"));
    }
    let vp = match parse_colon_x(chars, j2) {
        Ok(v) => v,
        Err(e) => {
            return Err(e);
        },
    };
    let (b, j3) = match parse_bool_x(chars, vp) {
        Ok(v) => v,
        Err(e) => {
            return Err(e);
        },
    };
    match map_next_x(chars, j3) {
        Ok((false, j4)) => Ok((b, j4)),
        Ok((true, _)) => Err(err("unexpected extra entry in map")),
        Err(e) => Err(e),
    }
}

} // verus!

verus! {

/// What a string value denotes, mirroring `string_token_obj`.
fn string_token_obj_x(t: &String) -> (r: Result<RuntimeObject, String>)
    ensures
        match r {
            Ok(o) => string_token_obj(t@) == Some(obj_m(o)),
            Err(_) => string_token_obj(t@) is None,
        },
{
    let n = t.as_str().unicode_len();
    if n >= 1 && t.as_str().get_char(0) == '^' {
        let rest = t.as_str().substring_char(1, n);
        let owned = String::from_str(rest);
        proof {
            assert(owned@ =~= t@.skip(1));
        }
        return Ok(RuntimeObject::Value(Value::String(owned)));
    }
    proof {
        reveal_strlit("\n");
        assert("\n"@ =~= seq!['\n']);
    }
    if str_eq(t.as_str(), "\n") {
        Ok(RuntimeObject::Value(Value::String(String::from_str("\n"))))
    } else if str_eq(t.as_str(), "<>") {
        Ok(RuntimeObject::Glue(Glue::Bidirectional))
    } else if str_eq(t.as_str(), "G<") {
        Ok(RuntimeObject::Glue(Glue::Left))
    } else if str_eq(t.as_str(), "G>") {
        Ok(RuntimeObject::Glue(Glue::Right))
    } else if str_eq(t.as_str(), "ev") {
        Ok(RuntimeObject::ControlCommand(ControlCommand::EvalStart))
    } else if str_eq(t.as_str(), "out") {
        Ok(RuntimeObject::ControlCommand(ControlCommand::EvalOutput))
    } else if str_eq(t.as_str(), "/ev") {
        Ok(RuntimeObject::ControlCommand(ControlCommand::EvalEnd))
    } else if str_eq(t.as_str(), "du") {
        Ok(RuntimeObject::ControlCommand(ControlCommand::Duplicate))
    } else if str_eq(t.as_str(), "pop") {
        Ok(RuntimeObject::ControlCommand(ControlCommand::PopEvaluatedValue))
    } else if str_eq(t.as_str(), "~ret") {
        Ok(RuntimeObject::ControlCommand(ControlCommand::PopFunction))
    } else if str_eq(t.as_str(), "->->") {
        Ok(RuntimeObject::ControlCommand(ControlCommand::PopTunnel))
    } else if str_eq(t.as_str(), "str") {
        Ok(RuntimeObject::ControlCommand(ControlCommand::BeginString))
    } else if str_eq(t.as_str(), "/str") {
        Ok(RuntimeObject::ControlCommand(ControlCommand::EndString))
    } else if str_eq(t.as_str(), "nop") {
        Ok(RuntimeObject::ControlCommand(ControlCommand::NoOp))
    } else if str_eq(t.as_str(), "choiceCnt") {
        Ok(RuntimeObject::ControlCommand(ControlCommand::ChoiceCount))
    } else if str_eq(t.as_str(), "turns") {
        Ok(RuntimeObject::ControlCommand(ControlCommand::TurnsSince))
    } else if str_eq(t.as_str(), "readc") {
        Ok(RuntimeObject::ControlCommand(ControlCommand::ReadCount))
    } else if str_eq(t.as_str(), "rnd") {
        Ok(RuntimeObject::ControlCommand(ControlCommand::Random))
    } else if str_eq(t.as_str(), "srnd") {
        Ok(RuntimeObject::ControlCommand(ControlCommand::SeedRandom))
    } else if str_eq(t.as_str(), "visit") {
        Ok(RuntimeObject::ControlCommand(ControlCommand::VisitIndex))
    } else if str_eq(t.as_str(), "seq") {
        Ok(RuntimeObject::ControlCommand(ControlCommand::SequenceShuffleIndex))
    } else if str_eq(t.as_str(), "thread") {
        Ok(RuntimeObject::ControlCommand(ControlCommand::StartThread))
    } else if str_eq(t.as_str(), "done") {
        Ok(RuntimeObject::ControlCommand(ControlCommand::Done))
    } else if str_eq(t.as_str(), "end") {
        Ok(RuntimeObject::ControlCommand(ControlCommand::End))
    } else if str_eq(t.as_str(), "listInt") {
        Ok(RuntimeObject::ControlCommand(ControlCommand::ListFromInt))
    } else if str_eq(t.as_str(), "range") {
        Ok(RuntimeObject::ControlCommand(ControlCommand::ListRange))
    } else if str_eq(t.as_str(), "void") {
        Ok(RuntimeObject::Void)
    } else {
        Err(err("unknown string token"))
    }
}

/// `{"^->": path}`.
fn divert_target_branch_x(chars: &Vec<char>, t: &String, i: usize) -> (r: Result<
    (RuntimeObject, usize),
    String,
>)
    requires
        i <= chars@.len(),
    ensures
        match r {
            Ok((o, j)) => divert_target_branch_s(chars@, t@, i as int) == Some(
                (obj_m(o), j as int),
            ) && i <= j <= chars@.len(),
            Err(_) => divert_target_branch_s(chars@, t@, i as int) is None,
        },
{
    let p = match Path::from_str(t.as_str()) {
        Some(p) => p,
        None => {
            return Err(err("cannot parse a divert target path"));
        },
    };
    match map_next_x(chars, i) {
        Ok((false, end)) => Ok((RuntimeObject::Value(Value::DivertTarget(p)), end)),
        Ok((true, _)) => Err(err("unexpected extra entry in map")),
        Err(e) => Err(e),
    }
}

/// `{"^var": name, "ci": i32?}`.
fn var_pointer_branch_x(chars: &Vec<char>, name: String, i: usize) -> (r: Result<
    (RuntimeObject, usize),
    String,
>)
    requires
        i <= chars@.len(),
    ensures
        match r {
            Ok((o, j)) => var_pointer_branch_s(chars@, name@, i as int) == Some(
                (obj_m(o), j as int),
            ) && i <= j <= chars@.len(),
            Err(_) => var_pointer_branch_s(chars@, name@, i as int) is None,
        },
{
    let (more, j) = match map_next_x(chars, i) {
        Ok(v) => v,
        Err(e) => {
            return Err(e);
        },
    };
    if !more {
        return Ok((RuntimeObject::Value(Value::VariablePointer(name, -1)), j));
    }
    let (k, j2) = match parse_key_x(chars, j) {
        Ok(v) => v,
        Err(e) => {
            return Err(e);
        },
    };
    if !str_eq(k.as_str(), "ci") {
        return Err(err("unexpected key in a variable pointer"));
    }
    let vp = match parse_colon_x(chars, j2) {
        Ok(v) => v,
        Err(e) => {
            return Err(e);
        },
    };
    let (ci, j3) = match parse_i32_x(chars, vp) {
        Ok(v) => v,
        Err(e) => {
            return Err(e);
        },
    };
    match map_next_x(chars, j3) {
        Ok((false, end)) => Ok((RuntimeObject::Value(Value::VariablePointer(name, ci)), end)),
        Ok((true, _)) => Err(err("unexpected extra entry in map")),
        Err(e) => Err(e),
    }
}

/// `{"->": target, "var": bool?, "c": bool?}`.
fn divert_branch_x(chars: &Vec<char>, t: String, i: usize) -> (r: Result<
    (RuntimeObject, usize),
    String,
>)
    requires
        i <= chars@.len(),
    ensures
        match r {
            Ok((o, j)) => divert_branch_s(chars@, t@, i as int) == Some((obj_m(o), j as int)) && i
                <= j <= chars@.len(),
            Err(_) => divert_branch_s(chars@, t@, i as int) is None,
        },
{
    let (more, j) = match map_next_x(chars, i) {
        Ok(v) => v,
        Err(e) => {
            return Err(e);
        },
    };
    if !more {
        let p = match Path::from_str(t.as_str()) {
            Some(p) => p,
            None => {
                return Err(err("cannot parse a divert target path"));
            },
        };
        let mut d = Divert::new();
        d.set_target(TargetType::Path(p));
        return Ok((RuntimeObject::Divert(d), j));
    }
    let (k, j2) = match parse_key_x(chars, j) {
        Ok(v) => v,
        Err(e) => {
            return Err(e);
        },
    };
    let vp = match parse_colon_x(chars, j2) {
        Ok(v) => v,
        Err(e) => {
            return Err(e);
        },
    };
    if str_eq(k.as_str(), "var") {
        let (b, j3) = match parse_bool_x(chars, vp) {
            Ok(v) => v,
            Err(e) => {
                return Err(e);
            },
        };
        if b {
            let (c, end) = match parse_opt_c_end_x(chars, j3) {
                Ok(v) => v,
                Err(e) => {
                    return Err(e);
                },
            };
            let mut d = Divert::new();
            d.set_target(TargetType::Name(t));
            d.set_is_conditional(c);
            Ok((RuntimeObject::Divert(d), end))
        } else {
            let p = match Path::from_str(t.as_str()) {
                Some(p) => p,
                None => {
                    return Err(err("cannot parse a divert target path"));
                },
            };
            match map_next_x(chars, j3) {
                Ok((false, end)) => {
                    let mut d = Divert::new();
                    d.set_target(TargetType::Path(p));
                    Ok((RuntimeObject::Divert(d), end))
                },
                Ok((true, _)) => Err(err("unexpected extra entry in map")),
                Err(e) => Err(e),
            }
        }
    } else if str_eq(k.as_str(), "c") {
        let (b, j3) = match parse_bool_x(chars, vp) {
            Ok(v) => v,
            Err(e) => {
                return Err(e);
            },
        };
        let p = match Path::from_str(t.as_str()) {
            Some(p) => p,
            None => {
                return Err(err("cannot parse a divert target path"));
            },
        };
        match map_next_x(chars, j3) {
            Ok((false, end)) => {
                let mut d = Divert::new();
                d.set_target(TargetType::Path(p));
                d.set_is_conditional(b);
                Ok((RuntimeObject::Divert(d), end))
            },
            Ok((true, _)) => Err(err("unexpected extra entry in map")),
            Err(e) => Err(e),
        }
    } else {
        Err(err("unexpected key in a divert"))
    }
}

/// `{"f()": path, "c": bool?}` and `{"->t->": path, "c": bool?}`.
fn call_branch_x(chars: &Vec<char>, t: &String, i: usize, tunnel: bool) -> (r: Result<
    (RuntimeObject, usize),
    String,
>)
    requires
        i <= chars@.len(),
    ensures
        ({
            let pt = if tunnel {
                crate::runtime::divert::PushPopType::Tunnel
            } else {
                crate::runtime::divert::PushPopType::Function
            };
            match r {
                Ok((o, j)) => call_branch_s(chars@, t@, i as int, pt) == Some(
                    (obj_m(o), j as int),
                ) && i <= j <= chars@.len(),
                Err(_) => call_branch_s(chars@, t@, i as int, pt) is None,
            }
        }),
{
    let p = match Path::from_str(t.as_str()) {
        Some(p) => p,
        None => {
            return Err(err("cannot parse a call target path"));
        },
    };
    let (c, end) = match parse_opt_c_end_x(chars, i) {
        Ok(v) => v,
        Err(e) => {
            return Err(e);
        },
    };
    let mut d = if tunnel {
        Divert::new_tunnel()
    } else {
        Divert::new_function()
    };
    d.set_target(TargetType::Path(p));
    d.set_is_conditional(c);
    Ok((RuntimeObject::Divert(d), end))
}

/// `{"x()": path, "exArgs": u32?, "c": bool?}`.
fn external_branch_x(chars: &Vec<char>, t: &String, i: usize) -> (r: Result<
    (RuntimeObject, usize),
    String,
>)
    requires
        i <= chars@.len(),
    ensures
        match r {
            Ok((o, j)) => external_branch_s(chars@, t@, i as int) == Some((obj_m(o), j as int))
                && i <= j <= chars@.len(),
            Err(_) => external_branch_s(chars@, t@, i as int) is None,
        },
{
    let p = match Path::from_str(t.as_str()) {
        Some(p) => p,
        None => {
            return Err(err("cannot parse an external call path"));
        },
    };
    let (more, j) = match map_next_x(chars, i) {
        Ok(v) => v,
        Err(e) => {
            return Err(e);
        },
    };
    if !more {
        let mut d = Divert::new_external_function();
        d.set_target(TargetType::Path(p));
        return Ok((RuntimeObject::Divert(d), j));
    }
    let (k, j2) = match parse_key_x(chars, j) {
        Ok(v) => v,
        Err(e) => {
            return Err(e);
        },
    };
    let vp = match parse_colon_x(chars, j2) {
        Ok(v) => v,
        Err(e) => {
            return Err(e);
        },
    };
    if str_eq(k.as_str(), "exArgs") {
        let (n, j3) = match parse_uint_x(chars, vp, 0xFFFFFFFF) {
            Ok(v) => v,
            Err(e) => {
                return Err(e);
            },
        };
        let (c, end) = match parse_opt_c_end_x(chars, j3) {
            Ok(v) => v,
            Err(e) => {
                return Err(e);
            },
        };
        let mut d = Divert::new_external_function();
        d.set_target(TargetType::Path(p));
        d.set_external_args(n as u32);
        d.set_is_conditional(c);
        Ok((RuntimeObject::Divert(d), end))
    } else if str_eq(k.as_str(), "c") {
        let (b, j3) = match parse_bool_x(chars, vp) {
            Ok(v) => v,
            Err(e) => {
                return Err(e);
            },
        };
        match map_next_x(chars, j3) {
            Ok((false, end)) => {
                let mut d = Divert::new_external_function();
                d.set_target(TargetType::Path(p));
                d.set_is_conditional(b);
                Ok((RuntimeObject::Divert(d), end))
            },
            Ok((true, _)) => Err(err("unexpected extra entry in map")),
            Err(e) => Err(e),
        }
    } else {
        Err(err("unexpected key in an external call"))
    }
}

/// `{"*": path, "flg": u8?}`.
fn choice_branch_x(chars: &Vec<char>, t: &String, i: usize) -> (r: Result<
    (RuntimeObject, usize),
    String,
>)
    requires
        i <= chars@.len(),
    ensures
        match r {
            Ok((o, j)) => choice_branch_s(chars@, t@, i as int) == Some((obj_m(o), j as int)) && i
                <= j <= chars@.len(),
            Err(_) => choice_branch_s(chars@, t@, i as int) is None,
        },
{
    let p = match Path::from_str(t.as_str()) {
        Some(p) => p,
        None => {
            return Err(err("cannot parse a choice path"));
        },
    };
    let (more, j) = match map_next_x(chars, i) {
        Ok(v) => v,
        Err(e) => {
            return Err(e);
        },
    };
    if !more {
        let mut cp = ChoicePoint::new();
        cp.set_path_on_choice(p);
        cp.set_flags(0);
        return Ok((RuntimeObject::ChoicePoint(cp), j));
    }
    let (k, j2) = match parse_key_x(chars, j) {
        Ok(v) => v,
        Err(e) => {
            return Err(e);
        },
    };
    if !str_eq(k.as_str(), "flg") {
        return Err(err("unexpected key in a choice point"));
    }
    let vp = match parse_colon_x(chars, j2) {
        Ok(v) => v,
        Err(e) => {
            return Err(e);
        },
    };
    let (f, j3) = match parse_uint_x(chars, vp, 255) {
        Ok(v) => v,
        Err(e) => {
            return Err(e);
        },
    };
    match map_next_x(chars, j3) {
        Ok((false, end)) => {
            let mut cp = ChoicePoint::new();
            cp.set_path_on_choice(p);
            cp.set_flags(f as u8);
            Ok((RuntimeObject::ChoicePoint(cp), end))
        },
        Ok((true, _)) => Err(err("unexpected extra entry in map")),
        Err(e) => Err(e),
    }
}

/// `{"VAR=": name, "re": bool?}`.
fn var_assign_branch_x(chars: &Vec<char>, name: String, i: usize) -> (r: Result<
    (RuntimeObject, usize),
    String,
>)
    requires
        i <= chars@.len(),
    ensures
        match r {
            Ok((o, j)) => var_assign_branch_s(chars@, name@, i as int) == Some(
                (obj_m(o), j as int),
            ) && i <= j <= chars@.len(),
            Err(_) => var_assign_branch_s(chars@, name@, i as int) is None,
        },
{
    let (more, j) = match map_next_x(chars, i) {
        Ok(v) => v,
        Err(e) => {
            return Err(e);
        },
    };
    if !more {
        return Ok(
            (RuntimeObject::VariableAssignment(VariableAssignment::new(name, true, true)), j),
        );
    }
    let (k, j2) = match parse_key_x(chars, j) {
        Ok(v) => v,
        Err(e) => {
            return Err(e);
        },
    };
    if !str_eq(k.as_str(), "re") {
        return Err(err("unexpected key in a variable assignment"));
    }
    let vp = match parse_colon_x(chars, j2) {
        Ok(v) => v,
        Err(e) => {
            return Err(e);
        },
    };
    let (re, j3) = match parse_bool_x(chars, vp) {
        Ok(v) => v,
        Err(e) => {
            return Err(e);
        },
    };
    match map_next_x(chars, j3) {
        Ok((false, end)) => Ok(
            (RuntimeObject::VariableAssignment(VariableAssignment::new(name, !re, true)), end),
        ),
        Ok((true, _)) => Err(err("unexpected extra entry in map")),
        Err(e) => Err(e),
    }
}

} // verus!

verus! {

/// A parsed value: a leaf object, or a container together with whether
/// it came from a container-trailer map.
enum Parsed {
    Leaf(RuntimeObject),
    Cont(Container, bool),
}

spec fn parsed_m(p: Parsed) -> (ObjM, bool) {
    match p {
        Parsed::Leaf(o) => (obj_m(o), false),
        Parsed::Cont(c, tr) => (ObjM::Container(cont_m(c)), tr),
    }
}

/// Wraps a parsed value as a child object.
fn to_obj(p: Parsed) -> (r: RuntimeObject)
    ensures
        obj_m(r) == parsed_m(p).0,
{
    match p {
        Parsed::Leaf(o) => o,
        Parsed::Cont(c, _) => RuntimeObject::Container(Rc::new(c)),
    }
}

/// Folds the parsed elements of an array into one container, as
/// `assemble_array` says: a final container-trailer absorbs the other
/// elements, a final `null` is dropped, anything else is a child.
fn assemble_x(objs: Vec<RuntimeObject>, last: Parsed, Ghost(done): Ghost<Seq<(ObjM, bool)>>) -> (r:
    Container)
    requires
        objs@.len() == done.len(),
        forall|k: int| 0 <= k < done.len() ==> obj_m(#[trigger] objs@[k]) == done[k].0,
        (last matches Parsed::Leaf(o) ==> !(obj_m(o) is Container)),
    ensures
        cont_m(r) == assemble_array(done.push(parsed_m(last))),
{
    let ghost items = done.push(parsed_m(last));
    proof {
        assert(items.last() == parsed_m(last));
        assert(items.drop_last() =~= done);
    }
    let mut objs = objs;
    match last {
        Parsed::Cont(mut c2, true) => {
            let ghost tcm = cont_m(c2);
            let ghost ov = objs@;
            c2.prepend(objs);
            proof {
                assert(items_objs(items.drop_last()) =~= Seq::new(ov.len(), |q: int| obj_m(ov[q])));
                assert(cont_m(c2) == assemble_array(items));
            }
            c2
        },
        Parsed::Cont(c2, false) => {
            objs.push(RuntimeObject::Container(Rc::new(c2)));
            let cont = Container::from_runtime_object_vec(objs);
            proof {
                assert(items_objs(items) =~= cont_m(cont).content);
                assert(cont_m(cont) == assemble_array(items));
            }
            cont
        },
        Parsed::Leaf(o) => {
            match o {
                RuntimeObject::Null => {
                    let cont = Container::from_runtime_object_vec(objs);
                    proof {
                        assert(items_objs(items.drop_last()) =~= cont_m(cont).content);
                        assert(cont_m(cont) == assemble_array(items));
                    }
                    cont
                },
                o2 => {
                    let ghost om = obj_m(o2);
                    objs.push(o2);
                    let cont = Container::from_runtime_object_vec(objs);
                    proof {
                        assert(!(om is Null) && !(om is Container));
                        assert(items_objs(items) =~= cont_m(cont).content);
                        assert(cont_m(cont) == assemble_array(items));
                    }
                    cont
                },
            }
        },
    }
}

/// A runtime object at `i`, mirroring `parse_value_s`.
#[verifier::rlimit(100)]
fn parse_value_x(chars: &Vec<char>, i: usize) -> (r: Result<(Parsed, usize), String>)
    requires
        i <= chars@.len(),
    ensures
        match r {
            Ok((p, j)) => parse_value_s(chars@, i as int) == Some(
                (parsed_m(p).0, parsed_m(p).1, j as int),
            ) && i < j <= chars@.len() && (p matches Parsed::Leaf(o) ==> !(obj_m(o)
                is Container)),
            Err(_) => parse_value_s(chars@, i as int) is None,
        },
    decreases chars@.len() - i, 0int,
{
    let ghost s = chars@;
    proof {
        reveal(parse_value_s);
        reveal(parse_map_s);
        reveal(parse_elems_s);
    }
    if i >= chars.len() {
        return Err(err("unexpected end of document"));
    }
    let c = chars[i];
    if c == '"' {
        let (t, j) = match parse_string_body_x(chars, i + 1) {
            Ok(v) => v,
            Err(e) => {
                return Err(e);
            },
        };
        match string_token_obj_x(&t) {
            Ok(o) => Ok((Parsed::Leaf(o), j)),
            Err(e) => Err(e),
        }
    } else if c == '{' {
        parse_map_x(chars, i + 1)
    } else if c == '[' {
        match parse_elems_x(chars, i + 1) {
            Ok((cont, j)) => Ok((Parsed::Cont(cont, false), j)),
            Err(e) => Err(e),
        }
    } else if c == 'n' {
        proof {
            reveal_strlit("null");
        }
        if chars.len() - i >= 4 && chars[i + 1] == 'u' && chars[i + 2] == 'l' && chars[i + 3]
            == 'l' {
            proof {
                assert(s.subrange(i as int, i + 4) =~= "null"@);
            }
            Ok((Parsed::Leaf(RuntimeObject::Null), i + 4))
        } else {
            proof {
                if i + 4 <= s.len() {
                    let t4 = s.subrange(i as int, i + 4);
                    assert(forall|q: int| 0 <= q < 4 ==> t4[q] == s[i + q]);
                    if t4 == "null"@ {
                        assert(s[i + 1] == ("null"@)[1]);
                        assert(s[i + 2] == ("null"@)[2]);
                        assert(s[i + 3] == ("null"@)[3]);
                    }
                }
            }
            Err(err("unexpected token"))
        }
    } else if c == '-' || is_digit_x(c) {
        match parse_number_x(chars, i) {
            Ok((o, j)) => Ok((Parsed::Leaf(o), j)),
            Err(e) => Err(e),
        }
    } else {
        Err(err("unexpected character"))
    }
}

/// The elements of an array, from just after `[`, folded into one
/// container.
#[verifier::rlimit(100)]
fn parse_elems_x(chars: &Vec<char>, i: usize) -> (r: Result<(Container, usize), String>)
    requires
        i <= chars@.len(),
    ensures
        match r {
            Ok((c, j)) => parse_elems_s(chars@, i as int) matches Some((items, end)) && cont_m(c)
                == assemble_array(items) && end == j as int && i <= j <= chars@.len(),
            Err(_) => parse_elems_s(chars@, i as int) is None,
        },
    decreases chars@.len() - i, 1int,
{
    let ghost s = chars@;
    proof {
        reveal(parse_elems_s);
        reveal(parse_elems_rest_s);
        reveal(parse_value_s);
    }
    let j = skip_ws_x(chars, i);
    if j < chars.len() && chars[j] == ']' {
        let cont = Container::new();
        proof {
            assert(parse_elems_s(s, i as int) == Some(
                (Seq::<(ObjM, bool)>::empty(), j + 1 as int),
            ));
        }
        return Ok((cont, j + 1));
    }
    let (p0, j2) = match parse_value_x(chars, j) {
        Ok(v) => v,
        Err(e) => {
            return Err(e);
        },
    };
    let mut objs: Vec<RuntimeObject> = Vec::new();
    let mut last = p0;
    let mut pos = j2;
    let ghost mut done: Seq<(ObjM, bool)> = Seq::empty();
    proof {
        match parse_elems_rest_s(s, pos as int) {
            Some((rest, end)) => {
                assert(parse_elems_s(s, i as int) == Some((seq![parsed_m(last)] + rest, end)));
                assert(done + seq![parsed_m(last)] + rest =~= seq![parsed_m(last)] + rest);
            },
            None => {},
        }
    }
    loop
        invariant
            i < pos <= chars@.len(),
            s == chars@,
            objs@.len() == done.len(),
            forall|k: int| 0 <= k < done.len() ==> obj_m(#[trigger] objs@[k]) == done[k].0,
            (last matches Parsed::Leaf(o) ==> !(obj_m(o) is Container)),
            ({
                match parse_elems_rest_s(s, pos as int) {
                    Some((rest, end)) => parse_elems_s(s, i as int) == Some(
                        (done + seq![parsed_m(last)] + rest, end),
                    ),
                    None => parse_elems_s(s, i as int) is None,
                }
            }),
        decreases chars@.len() - pos,
    {
        proof {
            reveal(parse_elems_s);
            reveal(parse_elems_rest_s);
            reveal(parse_value_s);
        }
        let t = skip_ws_x(chars, pos);
        if t < chars.len() && chars[t] == ']' {
            proof {
                assert(parse_elems_rest_s(s, pos as int) == Some(
                    (Seq::<(ObjM, bool)>::empty(), t + 1 as int),
                ));
                assert(done + seq![parsed_m(last)] + Seq::<(ObjM, bool)>::empty() =~= done.push(
                    parsed_m(last),
                ));
            }
            let cont = assemble_x(objs, last, Ghost(done));
            return Ok((cont, t + 1));
        } else if t < chars.len() && chars[t] == ',' {
            let k = skip_ws_x(chars, t + 1);
            let ghost lastm = parsed_m(last);
            objs.push(to_obj(last));
            proof {
                done = done.push(lastm);
            }
            let (p2, j3) = match parse_value_x(chars, k) {
                Ok(v) => v,
                Err(e) => {
                    proof {
                        assert(parse_elems_rest_s(s, pos as int) is None);
                    }
                    return Err(e);
                },
            };
            proof {
                match parse_elems_rest_s(s, j3 as int) {
                    Some((rest, end)) => {
                        assert(parse_elems_rest_s(s, pos as int) == Some(
                            (seq![parsed_m(p2)] + rest, end),
                        ));
                        assert(done.drop_last() + seq![lastm] + (seq![parsed_m(p2)] + rest)
                            =~= done + seq![parsed_m(p2)] + rest);
                    },
                    None => {
                        assert(parse_elems_rest_s(s, pos as int) is None);
                    },
                }
            }
            last = p2;
            pos = j3;
        } else {
            proof {
                assert(parse_elems_rest_s(s, pos as int) is None);
            }
            return Err(err("expected a comma or the end of the array"));
        }
    }
}

/// One entry of a container-trailer map, applied to the container built
/// so far; returns the position after the entry's value.
fn trailer_entry_x(chars: &Vec<char>, key2: &String, vpos: usize, acc: &mut Container) -> (r:
    Result<usize, String>)
    requires
        vpos <= chars@.len(),
    ensures
        match r {
            Ok(jafter) => trailer_step_s(chars@, key2@, vpos as int, cont_m(*old(acc))) == Some(
                (cont_m(*final(acc)), jafter as int),
            ) && vpos < jafter <= chars@.len(),
            Err(_) => trailer_step_s(chars@, key2@, vpos as int, cont_m(*old(acc))) is None,
        },
    decreases chars@.len() - vpos, 1int,
{
    let ghost s = chars@;
    proof {
        reveal(trailer_step_s);
        reveal(parse_value_s);
    }
    if str_eq(key2.as_str(), "#n") {
        let (n, jj) = match parse_string_value_x(chars, vpos) {
            Ok(v) => v,
            Err(e) => {
                return Err(e);
            },
        };
        acc.set_name(n);
        Ok(jj)
    } else if str_eq(key2.as_str(), "#f") {
        let (f, jj) = match parse_uint_x(chars, vpos, 255) {
            Ok(v) => v,
            Err(e) => {
                return Err(e);
            },
        };
        acc.set_count_flags(f as u8);
        Ok(jj)
    } else {
        let (pv, jj) = match parse_value_x(chars, vpos) {
            Ok(v) => v,
            Err(e) => {
                return Err(e);
            },
        };
        match pv {
            Parsed::Cont(mut c2, _) => {
                c2.set_name(key2.clone());
                acc.add_child(RuntimeObject::Container(Rc::new(c2)));
                Ok(jj)
            },
            Parsed::Leaf(_) => Err(err("a named value in a container must be a container")),
        }
    }
}

/// A map, from just after `{`, mirroring `parse_map_s`.
#[verifier::rlimit(80)]
fn parse_map_x(chars: &Vec<char>, i: usize) -> (r: Result<(Parsed, usize), String>)
    requires
        i <= chars@.len(),
    ensures
        match r {
            Ok((p, j)) => parse_map_s(chars@, i as int) == Some(
                (parsed_m(p).0, parsed_m(p).1, j as int),
            ) && i < j <= chars@.len() && (p matches Parsed::Leaf(o) ==> !(obj_m(o)
                is Container)),
            Err(_) => parse_map_s(chars@, i as int) is None,
        },
    decreases chars@.len() - i, 1int,
{
    let ghost s = chars@;
    proof {
        reveal(parse_map_s);
        reveal(map_dispatch_s);
        reveal(parse_trailer_s);
        reveal(trailer_step_s);
    }
    let j = skip_ws_x(chars, i);
    let (key, j2) = match parse_key_x(chars, j) {
        Ok(v) => v,
        Err(e) => {
            return Err(e);
        },
    };
    let vp = match parse_colon_x(chars, j2) {
        Ok(v) => v,
        Err(e) => {
            return Err(e);
        },
    };
    if str_eq(key.as_str(), "list") {
        return Err(err("list values are reserved and not yet supported"));
    } else if str_eq(key.as_str(), "^->") {
        let (t, j3) = match parse_string_value_x(chars, vp) {
            Ok(v) => v,
            Err(e) => {
                return Err(e);
            },
        };
        match divert_target_branch_x(chars, &t, j3) {
            Ok((o, end)) => Ok((Parsed::Leaf(o), end)),
            Err(e) => Err(e),
        }
    } else if str_eq(key.as_str(), "^var") {
        let (t, j3) = match parse_string_value_x(chars, vp) {
            Ok(v) => v,
            Err(e) => {
                return Err(e);
            },
        };
        match var_pointer_branch_x(chars, t, j3) {
            Ok((o, end)) => Ok((Parsed::Leaf(o), end)),
            Err(e) => Err(e),
        }
    } else if str_eq(key.as_str(), "->") {
        let (t, j3) = match parse_string_value_x(chars, vp) {
            Ok(v) => v,
            Err(e) => {
                return Err(e);
            },
        };
        match divert_branch_x(chars, t, j3) {
            Ok((o, end)) => Ok((Parsed::Leaf(o), end)),
            Err(e) => Err(e),
        }
    } else if str_eq(key.as_str(), "f()") {
        let (t, j3) = match parse_string_value_x(chars, vp) {
            Ok(v) => v,
            Err(e) => {
                return Err(e);
            },
        };
        match call_branch_x(chars, &t, j3, false) {
            Ok((o, end)) => Ok((Parsed::Leaf(o), end)),
            Err(e) => Err(e),
        }
    } else if str_eq(key.as_str(), "->t->") {
        let (t, j3) = match parse_string_value_x(chars, vp) {
            Ok(v) => v,
            Err(e) => {
                return Err(e);
            },
        };
        match call_branch_x(chars, &t, j3, true) {
            Ok((o, end)) => Ok((Parsed::Leaf(o), end)),
            Err(e) => Err(e),
        }
    } else if str_eq(key.as_str(), "x()") {
        let (t, j3) = match parse_string_value_x(chars, vp) {
            Ok(v) => v,
            Err(e) => {
                return Err(e);
            },
        };
        match external_branch_x(chars, &t, j3) {
            Ok((o, end)) => Ok((Parsed::Leaf(o), end)),
            Err(e) => Err(e),
        }
    } else if str_eq(key.as_str(), "*") {
        let (t, j3) = match parse_string_value_x(chars, vp) {
            Ok(v) => v,
            Err(e) => {
                return Err(e);
            },
        };
        match choice_branch_x(chars, &t, j3) {
            Ok((o, end)) => Ok((Parsed::Leaf(o), end)),
            Err(e) => Err(e),
        }
    } else if str_eq(key.as_str(), "VAR?") {
        let (t, j3) = match parse_string_value_x(chars, vp) {
            Ok(v) => v,
            Err(e) => {
                return Err(e);
            },
        };
        match map_next_x(chars, j3) {
            Ok((false, end)) => Ok(
                (Parsed::Leaf(RuntimeObject::VariableReference(VariableReference::new(t))), end),
            ),
            Ok((true, _)) => Err(err("unexpected extra entry in map")),
            Err(e) => Err(e),
        }
    } else if str_eq(key.as_str(), "CNT?") {
        let (t, j3) = match parse_string_value_x(chars, vp) {
            Ok(v) => v,
            Err(e) => {
                return Err(e);
            },
        };
        let p = match Path::from_str(t.as_str()) {
            Some(p) => p,
            None => {
                return Err(err("cannot parse a read count target"));
            },
        };
        match map_next_x(chars, j3) {
            Ok((false, end)) => Ok(
                (Parsed::Leaf(RuntimeObject::ReadCount(ReadCount::new(p))), end),
            ),
            Ok((true, _)) => Err(err("unexpected extra entry in map")),
            Err(e) => Err(e),
        }
    } else if str_eq(key.as_str(), "VAR=") {
        let (t, j3) = match parse_string_value_x(chars, vp) {
            Ok(v) => v,
            Err(e) => {
                return Err(e);
            },
        };
        match var_assign_branch_x(chars, t, j3) {
            Ok((o, end)) => Ok((Parsed::Leaf(o), end)),
            Err(e) => Err(e),
        }
    } else if str_eq(key.as_str(), "temp=") {
        let (t, j3) = match parse_string_value_x(chars, vp) {
            Ok(v) => v,
            Err(e) => {
                return Err(e);
            },
        };
        match map_next_x(chars, j3) {
            Ok((false, end)) => Ok(
                (
                    Parsed::Leaf(
                        RuntimeObject::VariableAssignment(
                            VariableAssignment::new(t, true, false),
                        ),
                    ),
                    end,
                ),
            ),
            Ok((true, _)) => Err(err("unexpected extra entry in map")),
            Err(e) => Err(e),
        }
    } else if str_eq(key.as_str(), "#") {
        let (t, j3) = match parse_string_value_x(chars, vp) {
            Ok(v) => v,
            Err(e) => {
                return Err(e);
            },
        };
        match map_next_x(chars, j3) {
            Ok((false, end)) => Ok((Parsed::Leaf(RuntimeObject::Tag(Tag::new(t))), end)),
            Ok((true, _)) => Err(err("unexpected extra entry in map")),
            Err(e) => Err(e),
        }
    } else {
        let mut acc = Container::new();
        let mut key2 = key;
        let mut vpos = vp;
        loop
            invariant
                i < vpos <= chars@.len(),
                s == chars@,
                ({
                    match parse_trailer_s(s, key2@, vpos as int, cont_m(acc)) {
                        Some((tc, end)) => parse_map_s(s, i as int) == Some(
                            (ObjM::Container(tc), true, end),
                        ),
                        None => parse_map_s(s, i as int) is None,
                    }
                }),
            decreases chars@.len() - vpos,
        {
            proof {
                reveal(parse_trailer_s);
                reveal(trailer_step_s);
            }
            let ghost key_old = key2@;
            let ghost vpos_old = vpos as int;
            let ghost accm_old = cont_m(acc);
            let jafter: usize = match trailer_entry_x(chars, &key2, vpos, &mut acc) {
                Ok(jj) => jj,
                Err(e) => {
                    proof {
                        assert(parse_trailer_s(s, key_old, vpos_old, accm_old) is None);
                    }
                    return Err(e);
                },
            };
            match map_next_x(chars, jafter) {
                Err(e) => {
                    proof {
                        assert(parse_trailer_s(s, key_old, vpos_old, accm_old) is None);
                    }
                    return Err(e);
                },
                Ok((false, end)) => {
                    proof {
                        assert(parse_trailer_s(s, key_old, vpos_old, accm_old) == Some(
                            (cont_m(acc), end as int),
                        ));
                    }
                    return Ok((Parsed::Cont(acc, true), end));
                },
                Ok((true, kp)) => {
                    let (k3, kj) = match parse_key_x(chars, kp) {
                        Ok(v) => v,
                        Err(e) => {
                            proof {
                                assert(parse_trailer_s(s, key_old, vpos_old, accm_old) is None);
                            }
                            return Err(e);
                        },
                    };
                    let vp2 = match parse_colon_x(chars, kj) {
                        Ok(v) => v,
                        Err(e) => {
                            proof {
                                assert(parse_trailer_s(s, key_old, vpos_old, accm_old) is None);
                            }
                            return Err(e);
                        },
                    };
                    key2 = k3;
                    vpos = vp2;
                    proof {
                        assert(parse_trailer_s(s, key_old, vpos_old, accm_old)
                            == parse_trailer_s(s, key2@, vpos as int, cont_m(acc)));
                    }
                },
            }
        }
    }
}

} // verus!

verus! {

/// Skips any document value, mirroring `skip_json_s`.
#[verifier::rlimit(80)]
fn skip_json_x(chars: &Vec<char>, i: usize) -> (r: Result<usize, String>)
    requires
        i <= chars@.len(),
    ensures
        match r {
            Ok(j) => skip_json_s(chars@, i as int) == Some(j as int) && i < j <= chars@.len(),
            Err(_) => skip_json_s(chars@, i as int) is None,
        },
    decreases chars@.len() - i, 0int,
{
    let ghost s = chars@;
    proof {
        reveal(skip_json_s);
        reveal(skip_elems_s);
        reveal(skip_members_s);
    }
    if i >= chars.len() {
        return Err(err("unexpected end of document"));
    }
    let c = chars[i];
    if c == '"' {
        match parse_string_body_x(chars, i + 1) {
            Ok((_t, j)) => Ok(j),
            Err(e) => Err(e),
        }
    } else if c == '{' {
        skip_members_x(chars, i + 1)
    } else if c == '[' {
        skip_elems_x(chars, i + 1)
    } else if c == 'n' {
        proof {
            reveal_strlit("null");
        }
        if chars.len() - i >= 4 && chars[i + 1] == 'u' && chars[i + 2] == 'l' && chars[i + 3]
            == 'l' {
            proof {
                assert(s.subrange(i as int, i + 4) =~= "null"@);
            }
            Ok(i + 4)
        } else {
            proof {
                if i + 4 <= s.len() {
                    let t4 = s.subrange(i as int, i + 4);
                    assert(forall|q: int| 0 <= q < 4 ==> t4[q] == s[i + q]);
                    if t4 == "null"@ {
                        assert(s[i + 1] == ("null"@)[1]);
                        assert(s[i + 2] == ("null"@)[2]);
                        assert(s[i + 3] == ("null"@)[3]);
                    }
                }
            }
            Err(err("unexpected token"))
        }
    } else if c == 't' {
        proof {
            reveal_strlit("true");
        }
        if chars.len() - i >= 4 && chars[i + 1] == 'r' && chars[i + 2] == 'u' && chars[i + 3]
            == 'e' {
            proof {
                assert(s.subrange(i as int, i + 4) =~= "true"@);
            }
            Ok(i + 4)
        } else {
            proof {
                if i + 4 <= s.len() {
                    let t4 = s.subrange(i as int, i + 4);
                    assert(forall|q: int| 0 <= q < 4 ==> t4[q] == s[i + q]);
                    if t4 == "true"@ {
                        assert(s[i + 1] == ("true"@)[1]);
                        assert(s[i + 2] == ("true"@)[2]);
                        assert(s[i + 3] == ("true"@)[3]);
                    }
                }
            }
            Err(err("unexpected token"))
        }
    } else if c == 'f' {
        proof {
            reveal_strlit("false");
        }
        if chars.len() - i >= 5 && chars[i + 1] == 'a' && chars[i + 2] == 'l' && chars[i + 3]
            == 's' && chars[i + 4] == 'e' {
            proof {
                assert(s.subrange(i as int, i + 5) =~= "false"@);
            }
            Ok(i + 5)
        } else {
            proof {
                if i + 5 <= s.len() {
                    let t5 = s.subrange(i as int, i + 5);
                    assert(forall|q: int| 0 <= q < 5 ==> t5[q] == s[i + q]);
                    if t5 == "false"@ {
                        assert(s[i + 1] == ("false"@)[1]);
                        assert(s[i + 2] == ("false"@)[2]);
                        assert(s[i + 3] == ("false"@)[3]);
                        assert(s[i + 4] == ("false"@)[4]);
                    }
                }
            }
            Err(err("unexpected token"))
        }
    } else if c == '-' || is_digit_x(c) {
        let j0 = if c == '-' {
            i + 1
        } else {
            i
        };
        if j0 >= chars.len() || !is_digit_x(chars[j0]) {
            return Err(err("invalid number"));
        }
        let ie = scan_digits_x(chars, j0);
        proof {
            crate::json_spec::lemma_scan_digits(s, j0 as int);
            assert(ie > j0);
        }
        if chars[j0] == '0' && ie > j0 + 1 {
            return Err(err("number has a leading zero"));
        }
        let mut fe = ie;
        if ie < chars.len() && chars[ie] == '.' {
            let fd = scan_digits_x(chars, ie + 1);
            if fd == ie + 1 {
                return Err(err("number has an empty fraction"));
            }
            fe = fd;
        }
        proof {
            assert(frac_end(s, ie as int) == Some(fe as int));
        }
        let mut ee = fe;
        if fe < chars.len() && (chars[fe] == 'e' || chars[fe] == 'E') {
            let p = if fe + 1 < chars.len() && (chars[fe + 1] == '+' || chars[fe + 1] == '-') {
                fe + 2
            } else {
                fe + 1
            };
            let ed = scan_digits_x(chars, p);
            if ed == p {
                return Err(err("number has an empty exponent"));
            }
            ee = ed;
            proof {
                crate::json_spec::lemma_scan_digits(s, p as int);
            }
        }
        proof {
            assert(exp_end(s, fe as int) == Some(ee as int));
        }
        Ok(ee)
    } else {
        Err(err("unexpected character"))
    }
}

/// Skips the elements of an array, from just after `[`.
fn skip_elems_x(chars: &Vec<char>, i: usize) -> (r: Result<usize, String>)
    requires
        i <= chars@.len(),
    ensures
        match r {
            Ok(j) => skip_elems_s(chars@, i as int) == Some(j as int) && i < j <= chars@.len(),
            Err(_) => skip_elems_s(chars@, i as int) is None,
        },
    decreases chars@.len() - i, 1int,
{
    let ghost s = chars@;
    proof {
        reveal(skip_elems_s);
        reveal(skip_elems_rest_s);
        reveal(skip_json_s);
    }
    let j = skip_ws_x(chars, i);
    if j < chars.len() && chars[j] == ']' {
        return Ok(j + 1);
    }
    let mut pos = match skip_json_x(chars, j) {
        Ok(v) => v,
        Err(e) => {
            return Err(e);
        },
    };
    loop
        invariant
            i < pos <= chars@.len(),
            s == chars@,
            ({
                match skip_elems_rest_s(s, pos as int) {
                    Some(end) => skip_elems_s(s, i as int) == Some(end),
                    None => skip_elems_s(s, i as int) is None,
                }
            }),
        decreases chars@.len() - pos,
    {
        proof {
            reveal(skip_elems_rest_s);
            reveal(skip_json_s);
        }
        let t = skip_ws_x(chars, pos);
        if t < chars.len() && chars[t] == ']' {
            proof {
                assert(skip_elems_rest_s(s, pos as int) == Some(t + 1 as int));
            }
            return Ok(t + 1);
        } else if t < chars.len() && chars[t] == ',' {
            let k = skip_ws_x(chars, t + 1);
            let j3 = match skip_json_x(chars, k) {
                Ok(v) => v,
                Err(e) => {
                    proof {
                        assert(skip_elems_rest_s(s, pos as int) is None);
                    }
                    return Err(e);
                },
            };
            proof {
                assert(skip_elems_rest_s(s, pos as int) == skip_elems_rest_s(s, j3 as int));
            }
            pos = j3;
        } else {
            proof {
                assert(skip_elems_rest_s(s, pos as int) is None);
            }
            return Err(err("expected a comma or the end of the array"));
        }
    }
}

/// Skips the members of an object, from just after `{`.
fn skip_members_x(chars: &Vec<char>, i: usize) -> (r: Result<usize, String>)
    requires
        i <= chars@.len(),
    ensures
        match r {
            Ok(j) => skip_members_s(chars@, i as int) == Some(j as int) && i < j <= chars@.len(),
            Err(_) => skip_members_s(chars@, i as int) is None,
        },
    decreases chars@.len() - i, 1int,
{
    let ghost s = chars@;
    proof {
        reveal(skip_members_s);
        reveal(skip_members_rest_s);
        reveal(skip_json_s);
    }
    let j = skip_ws_x(chars, i);
    if j < chars.len() && chars[j] == '}' {
        return Ok(j + 1);
    }
    let (_k, j2) = match parse_key_x(chars, j) {
        Ok(v) => v,
        Err(e) => {
            return Err(e);
        },
    };
    let vp = match parse_colon_x(chars, j2) {
        Ok(v) => v,
        Err(e) => {
            return Err(e);
        },
    };
    if !(j < vp) {
        proof {
            assert(false);
        }
        return Err(err("unreachable"));
    }
    let mut pos = match skip_json_x(chars, vp) {
        Ok(v) => v,
        Err(e) => {
            return Err(e);
        },
    };
    loop
        invariant
            i < pos <= chars@.len(),
            s == chars@,
            ({
                match skip_members_rest_s(s, pos as int) {
                    Some(end) => skip_members_s(s, i as int) == Some(end),
                    None => skip_members_s(s, i as int) is None,
                }
            }),
        decreases chars@.len() - pos,
    {
        proof {
            reveal(skip_members_rest_s);
            reveal(skip_json_s);
        }
        let t = skip_ws_x(chars, pos);
        if t < chars.len() && chars[t] == '}' {
            proof {
                assert(skip_members_rest_s(s, pos as int) == Some(t + 1 as int));
            }
            return Ok(t + 1);
        } else if t < chars.len() && chars[t] == ',' {
            let k = skip_ws_x(chars, t + 1);
            let (_k2, j2b) = match parse_key_x(chars, k) {
                Ok(v) => v,
                Err(e) => {
                    proof {
                        assert(skip_members_rest_s(s, pos as int) is None);
                    }
                    return Err(e);
                },
            };
            let vp2 = match parse_colon_x(chars, j2b) {
                Ok(v) => v,
                Err(e) => {
                    proof {
                        assert(skip_members_rest_s(s, pos as int) is None);
                    }
                    return Err(e);
                },
            };
            if !(k < vp2) {
                proof {
                    assert(false);
                }
                return Err(err("unreachable"));
            }
            let j3 = match skip_json_x(chars, vp2) {
                Ok(v) => v,
                Err(e) => {
                    proof {
                        assert(skip_members_rest_s(s, pos as int) is None);
                    }
                    return Err(e);
                },
            };
            proof {
                assert(skip_members_rest_s(s, pos as int) == skip_members_rest_s(s, j3 as int));
            }
            pos = j3;
        } else {
            proof {
                assert(skip_members_rest_s(s, pos as int) is None);
            }
            return Err(err("expected a comma or the end of the map"));
        }
    }
}

} // verus!

verus! {

/// A parsed story document: its compiler version, its root object, and
/// the raw text of its list definitions, kept uninterpreted.
#[derive(Debug)]
pub struct InkJSon {
    ink_version: u32,
    root: RuntimeObject,
    list_defs: Option<String>,
}

impl View for InkJSon {
    type V = DocM;

    closed spec fn view(&self) -> DocM {
        DocM {
            ink_version: self.ink_version as int,
            root: obj_m(self.root),
            list_defs: match &self.list_defs {
                Some(t) => Some(t@),
                None => None,
            },
        }
    }
}

impl InkJSon {
    pub fn ink_version(&self) -> (r: u32)
        ensures
            r as int == self@.ink_version,
    {
        self.ink_version
    }

    pub fn root(&self) -> (r: &RuntimeObject)
        ensures
            obj_m(*r) == self@.root,
    {
        &self.root
    }

    /// Consumes the document, handing out the root object.
    pub fn into_root(self) -> (r: RuntimeObject)
        ensures
            obj_m(r) == self@.root,
    {
        self.root
    }

    pub fn list_defs(&self) -> (r: Option<&str>)
        ensures
            match r {
                Some(t) => self@.list_defs == Some(t@),
                None => self@.list_defs is None,
            },
    {
        match &self.list_defs {
            Some(t) => Some(t.as_str()),
            None => None,
        }
    }

    /// Parses a whole story document: `{"inkVersion": <u32>, "root":
    /// <value>, "listDefs": <value>?}`, with nothing but whitespace after
    /// it. Every ill-formed document is rejected with a message naming
    /// the offending construct.
    pub fn from_str(text: &str) -> (r: Result<InkJSon, InkError>)
        ensures
            match r {
                Ok(d) => parse_doc_s(text@) == Some(d@),
                Err(e) => parse_doc_s(text@) is None && e is Parse,
            },
    {
        let ghost s = text@;
        proof {
            reveal(parse_value_s);
            reveal(skip_json_s);
        }
        let chars = to_chars(text);
        let j = skip_ws_x(&chars, 0);
        if !(j < chars.len() && chars[j] == '{') {
            return Err(InkError::Parse(err("expected a document object")));
        }
        let kp = skip_ws_x(&chars, j + 1);
        let (k1, j2) = match parse_key_x(&chars, kp) {
            Ok(v) => v,
            Err(e) => {
                return Err(InkError::Parse(e));
            },
        };
        if !str_eq(k1.as_str(), "inkVersion") {
            return Err(InkError::Parse(err("expected the version as the first entry")));
        }
        let vp1 = match parse_colon_x(&chars, j2) {
            Ok(v) => v,
            Err(e) => {
                return Err(InkError::Parse(e));
            },
        };
        let (ver, j3) = match parse_uint_x(&chars, vp1, 0xFFFFFFFF) {
            Ok(v) => v,
            Err(e) => {
                return Err(InkError::Parse(e));
            },
        };
        let kp2 = match map_next_x(&chars, j3) {
            Ok((true, p)) => p,
            Ok((false, _)) => {
                return Err(InkError::Parse(err("expected a root entry")));
            },
            Err(e) => {
                return Err(InkError::Parse(e));
            },
        };
        let (k2, j4) = match parse_key_x(&chars, kp2) {
            Ok(v) => v,
            Err(e) => {
                return Err(InkError::Parse(e));
            },
        };
        if !str_eq(k2.as_str(), "root") {
            return Err(InkError::Parse(err("expected the root as the second entry")));
        }
        let vp2 = match parse_colon_x(&chars, j4) {
            Ok(v) => v,
            Err(e) => {
                return Err(InkError::Parse(e));
            },
        };
        let (rootp, j5) = match parse_value_x(&chars, vp2) {
            Ok(v) => v,
            Err(e) => {
                return Err(InkError::Parse(e));
            },
        };
        let root = to_obj(rootp);
        match map_next_x(&chars, j5) {
            Err(e) => Err(InkError::Parse(e)),
            Ok((false, end)) => {
                let tail = skip_ws_x(&chars, end);
                if tail != chars.len() {
                    return Err(InkError::Parse(err("unexpected text after the document")));
                }
                Ok(InkJSon { ink_version: ver as u32, root, list_defs: None })
            },
            Ok((true, kp3)) => {
                let (k3, j6) = match parse_key_x(&chars, kp3) {
                    Ok(v) => v,
                    Err(e) => {
                        return Err(InkError::Parse(e));
                    },
                };
                if !str_eq(k3.as_str(), "listDefs") {
                    return Err(InkError::Parse(err("unexpected entry in the document")));
                }
                let vp3 = match parse_colon_x(&chars, j6) {
                    Ok(v) => v,
                    Err(e) => {
                        return Err(InkError::Parse(e));
                    },
                };
                let j7 = match skip_json_x(&chars, vp3) {
                    Ok(v) => v,
                    Err(e) => {
                        return Err(InkError::Parse(e));
                    },
                };
                let mut raw = String::new();
                let mut q = vp3;
                while q < j7
                    invariant
                        vp3 <= q <= j7 <= chars@.len(),
                        s == chars@,
                        raw@ == s.subrange(vp3 as int, q as int),
                    decreases j7 - q,
                {
                    raw.push(chars[q]);
                    q = q + 1;
                    proof {
                        assert(raw@ =~= s.subrange(vp3 as int, q as int));
                    }
                }
                match map_next_x(&chars, j7) {
                    Ok((false, end)) => {
                        let tail = skip_ws_x(&chars, end);
                        if tail != chars.len() {
                            return Err(
                                InkError::Parse(err("unexpected text after the document")),
                            );
                        }
                        Ok(InkJSon { ink_version: ver as u32, root, list_defs: Some(raw) })
                    },
                    Ok((true, _)) => Err(InkError::Parse(err("unexpected entry in the document"))),
                    Err(e) => Err(InkError::Parse(e)),
                }
            },
        }
    }
}

} // verus!

verus! {

/// Parses one runtime object from a text holding exactly one value,
/// with nothing but whitespace around it.
pub fn runtime_object_from_str(text: &str) -> (r: Result<RuntimeObject, InkError>)
    ensures
        match r {
            Ok(o) => ({
                let j = skip_ws_s(text@, 0);
                parse_value_s(text@, j) matches Some((m, tr, end)) && obj_m(o) == m && skip_ws_s(
                    text@,
                    end,
                ) == text@.len()
            }),
            Err(e) => e is Parse && ({
                let j = skip_ws_s(text@, 0);
                parse_value_s(text@, j) is None || (parse_value_s(text@, j) matches Some(
                    (m, tr, end),
                ) && skip_ws_s(text@, end) != text@.len())
            }),
        },
{
    let chars = to_chars(text);
    let j = skip_ws_x(&chars, 0);
    let (p, end) = match parse_value_x(&chars, j) {
        Ok(v) => v,
        Err(e) => {
            return Err(InkError::Parse(e));
        },
    };
    let tail = skip_ws_x(&chars, end);
    if tail != chars.len() {
        return Err(InkError::Parse(err("unexpected text after the value")));
    }
    Ok(to_obj(p))
}

} // verus!
