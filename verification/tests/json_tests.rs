//! Tests of the loader: string tokens, recognized map shapes, arrays and
//! trailer folding, and the top-level document.

use rink_runtime::error::InkError;
use rink_runtime::json_parser::{runtime_object_from_str, InkJSon};
use rink_runtime::runtime::control_command::ControlCommand;
use rink_runtime::runtime::divert::{PushPopType, TargetType};
use rink_runtime::runtime::glue::Glue;
use rink_runtime::runtime::value::Value;
use rink_runtime::runtime::{Container, RuntimeObject};
use std::rc::Rc;

fn parse(json: &str) -> RuntimeObject {
    runtime_object_from_str(json).unwrap()
}

fn parse_container(json: &str) -> Rc<Container> {
    match parse(json) {
        RuntimeObject::Container(c) => c,
        _ => panic!("expected a container"),
    }
}

#[test]
fn value_int_test() {
    let json = "[42]";
    let container = parse_container(json);
    match container.content().get(0).unwrap() {
        RuntimeObject::Value(value) => match value {
            Value::Int(int_value) => assert_eq!(*int_value, 42),
            _ => assert!(false),
        },
        _ => assert!(false),
    }
}

#[test]
fn value_float_test() {
    let json = "[3.14159265359]";
    let container = parse_container(json);
    match container.content().get(0).unwrap() {
        RuntimeObject::Value(value) => match value {
            Value::Float(text) => {
                let float_value: f32 = text.parse().unwrap();
                assert_eq!(float_value, 3.14159265359);
            }
            _ => assert!(false),
        },
        _ => assert!(false),
    }
}

#[test]
fn value_string_test() {
    let json = "[\"^I looked at Monsieur Fogg\"]";
    let container = parse_container(json);
    match container.content().get(0).unwrap() {
        RuntimeObject::Value(value) => match value {
            Value::String(string_value) => assert_eq!(string_value, "I looked at Monsieur Fogg"),
            _ => assert!(false),
        },
        _ => assert!(false),
    }
}

#[test]
fn value_divert_target_test() {
    let json = "{\"^->\":\"0.g-0.2.$r1\"}";
    match parse(json) {
        RuntimeObject::Value(value) => match value {
            Value::DivertTarget(path) => assert_eq!(path.to_string(), "0.g-0.2.$r1"),
            _ => assert!(false),
        },
        _ => assert!(false),
    }
}

#[test]
fn value_variable_pointer_test() {
    let json = "{\"^var\": \"varname\", \"ci\": 0}";
    match parse(json) {
        RuntimeObject::Value(value) => match value {
            Value::VariablePointer(name, context_index) => {
                assert_eq!(name, "varname");
                assert_eq!(context_index, 0);
            }
            _ => assert!(false),
        },
        _ => assert!(false),
    }
}

#[test]
fn newline_test() {
    let json = "[\"\\n\"]";
    let container = parse_container(json);
    match container.content().get(0).unwrap() {
        RuntimeObject::Value(value) => match value {
            Value::String(string_value) => assert_eq!(string_value, "\n"),
            _ => assert!(false),
        },
        _ => assert!(false),
    }
}

#[test]
fn glue_test() {
    let json = "[\"<>\", \"G<\", \"G>\"]";
    let glues: Vec<Glue> = vec![Glue::Bidirectional, Glue::Left, Glue::Right];
    let container = parse_container(json);
    let content = container.content();
    assert_eq!(glues.len(), content.len());
    for (i, runtime_object) in content.iter().enumerate() {
        let glue = glues.get(i).unwrap();
        match runtime_object {
            RuntimeObject::Glue(value) => assert_eq!(value, glue),
            _ => assert!(false),
        }
    }
}

#[test]
fn control_command_test() {
    let json = "[\"ev\", \"out\", \"/ev\", \"du\", \"pop\", \"~ret\", \"->->\", \"str\", \"/str\", \"nop\", \"choiceCnt\", \"turns\", \"readc\", \"rnd\", \"srnd\", \"visit\", \"seq\", \"thread\", \"done\", \"end\", \"listInt\", \"range\"]";
    let control_commands: Vec<ControlCommand> = vec![
        ControlCommand::EvalStart,
        ControlCommand::EvalOutput,
        ControlCommand::EvalEnd,
        ControlCommand::Duplicate,
        ControlCommand::PopEvaluatedValue,
        ControlCommand::PopFunction,
        ControlCommand::PopTunnel,
        ControlCommand::BeginString,
        ControlCommand::EndString,
        ControlCommand::NoOp,
        ControlCommand::ChoiceCount,
        ControlCommand::TurnsSince,
        ControlCommand::ReadCount,
        ControlCommand::Random,
        ControlCommand::SeedRandom,
        ControlCommand::VisitIndex,
        ControlCommand::SequenceShuffleIndex,
        ControlCommand::StartThread,
        ControlCommand::Done,
        ControlCommand::End,
        ControlCommand::ListFromInt,
        ControlCommand::ListRange,
    ];
    let container = parse_container(json);
    let content = container.content();
    assert_eq!(control_commands.len(), content.len());
    for (i, runtime_object) in content.iter().enumerate() {
        let control_command = control_commands.get(i).unwrap();
        match runtime_object {
            RuntimeObject::ControlCommand(value) => assert_eq!(value, control_command),
            _ => assert!(false),
        }
    }
}

#[test]
fn void_test() {
    let json = "[\"void\"]";
    let container = parse_container(json);
    match container.content().get(0).unwrap() {
        RuntimeObject::Void => {}
        _ => assert!(false),
    }
}

#[test]
fn divert_test() {
    let json = "{\"->\": \".^.s\"}";
    match parse(json) {
        RuntimeObject::Divert(divert) => {
            match divert.target().unwrap() {
                TargetType::Path(path) => {
                    assert_eq!(path.to_string(), ".^.s");
                }
                _ => assert!(false),
            }
            assert_eq!(divert.stack_push_type(), &PushPopType::NoPush);
            assert_eq!(divert.pushes_to_stack(), false);
            assert_eq!(divert.is_conditional(), false);
        }
        _ => assert!(false),
    }
}

#[test]
fn divert_conditional_test() {
    let json = "{\"->\": \".^.s\", \"c\": true}";
    match parse(json) {
        RuntimeObject::Divert(divert) => {
            assert_eq!(divert.is_conditional(), true);
        }
        _ => assert!(false),
    }
}

#[test]
fn divert_with_var_test() {
    let json = "{\"->\":\"$r\",\"var\":true}";
    match parse(json) {
        RuntimeObject::Divert(divert) => {
            match divert.target().unwrap() {
                TargetType::Name(target_name) => {
                    assert_eq!(target_name, "$r");
                }
                _ => assert!(false),
            }
            assert_eq!(divert.stack_push_type(), &PushPopType::NoPush);
            assert_eq!(divert.pushes_to_stack(), false);
            assert_eq!(divert.is_conditional(), false);
        }
        _ => assert!(false),
    }
}

#[test]
fn function_call_test() {
    let json = "{\"f()\": \"0.g-0.2.c.12.0.c.11.g-0.2.c.$r2\"}";
    match parse(json) {
        RuntimeObject::Divert(divert) => {
            match divert.target().unwrap() {
                TargetType::Path(path) => {
                    assert_eq!(path.to_string(), "0.g-0.2.c.12.0.c.11.g-0.2.c.$r2");
                }
                _ => assert!(false),
            }
            assert_eq!(divert.stack_push_type(), &PushPopType::Function);
            assert_eq!(divert.pushes_to_stack(), true);
            assert_eq!(divert.is_conditional(), false);
        }
        _ => assert!(false),
    }
}

#[test]
fn function_call_conditional_test() {
    let json = "{\"f()\": \".^.s\", \"c\": true}";
    match parse(json) {
        RuntimeObject::Divert(divert) => {
            assert_eq!(divert.is_conditional(), true);
        }
        _ => assert!(false),
    }
}

#[test]
fn tunnel_test() {
    let json = "{\"->t->\": \"0.g-0.2.c.12.0.c.11.g-0.2.$r1\"}";
    match parse(json) {
        RuntimeObject::Divert(divert) => {
            match divert.target().unwrap() {
                TargetType::Path(path) => {
                    assert_eq!(path.to_string(), "0.g-0.2.c.12.0.c.11.g-0.2.$r1");
                }
                _ => assert!(false),
            }
            assert_eq!(divert.stack_push_type(), &PushPopType::Tunnel);
            assert_eq!(divert.pushes_to_stack(), true);
            assert_eq!(divert.is_conditional(), false);
        }
        _ => assert!(false),
    }
}

#[test]
fn tunnel_conditional_test() {
    let json = "{\"->t->\": \".^.s\", \"c\": true}";
    match parse(json) {
        RuntimeObject::Divert(divert) => {
            assert_eq!(divert.is_conditional(), true);
        }
        _ => assert!(false),
    }
}

#[test]
fn external_function_test() {
    let json = "{\"x()\": \"0.g-0.3.$r1\"}";
    match parse(json) {
        RuntimeObject::Divert(divert) => {
            match divert.target().unwrap() {
                TargetType::Path(path) => {
                    assert_eq!(path.to_string(), "0.g-0.3.$r1");
                }
                _ => assert!(false),
            }
            assert_eq!(divert.stack_push_type(), &PushPopType::Function);
            assert_eq!(divert.pushes_to_stack(), false);
            assert_eq!(divert.is_conditional(), false);
            assert_eq!(divert.is_external(), true);
        }
        _ => assert!(false),
    }
}

#[test]
fn external_function_with_args_test() {
    let json = "{\"x()\": \"0.g-0.3.$r1\", \"exArgs\": 5}";
    match parse(json) {
        RuntimeObject::Divert(divert) => {
            assert_eq!(divert.external_args().unwrap(), 5);
        }
        _ => assert!(false),
    }
}

#[test]
fn external_function_with_conditional_test() {
    let json = "{\"x()\": \"0.g-0.3.$r1\", \"exArgs\": 5, \"c\": true}";
    match parse(json) {
        RuntimeObject::Divert(divert) => {
            assert_eq!(divert.is_conditional(), true);
        }
        _ => assert!(false),
    }
}

#[test]
fn choice_test() {
    let json = "{\"*\":\".^.c\",\"flg\":18}";
    match parse(json) {
        RuntimeObject::ChoicePoint(choice) => {
            assert_eq!(choice.path_on_choice().unwrap().to_string(), ".^.c");
            assert_eq!(choice.has_condition(), false);
            assert_eq!(choice.has_start_content(), true);
            assert_eq!(choice.has_choice_only_content(), false);
            assert_eq!(choice.is_invisible_default(), false);
            assert_eq!(choice.once_only(), true);
        }
        _ => assert!(false),
    }
}

#[test]
fn variable_reference_test() {
    let json = "{\"VAR?\": \"danger\"}";
    match parse(json) {
        RuntimeObject::VariableReference(variable) => {
            assert_eq!(variable.name(), "danger");
        }
        _ => assert!(false),
    }
}

#[test]
fn read_count_test() {
    let json = "{\"CNT?\": \"the_hall.light_switch\"}";
    match parse(json) {
        RuntimeObject::ReadCount(variable) => {
            assert_eq!(variable.target().to_string(), "the_hall.light_switch");
        }
        _ => assert!(false),
    }
}

#[test]
fn variable_assignment_test() {
    let json = "{\"VAR=\": \"money\"}";
    match parse(json) {
        RuntimeObject::VariableAssignment(variable) => {
            assert_eq!(variable.name(), "money");
            assert_eq!(variable.is_new_declaration(), true);
            assert_eq!(variable.is_global(), true);
        }
        _ => assert!(false),
    }
}

#[test]
fn variable_assignment_redeclared_test() {
    let json = "{\"VAR=\": \"money\", \"re\": true}";
    match parse(json) {
        RuntimeObject::VariableAssignment(variable) => {
            assert_eq!(variable.name(), "money");
            assert_eq!(variable.is_new_declaration(), false);
            assert_eq!(variable.is_global(), true);
        }
        _ => assert!(false),
    }
}

#[test]
fn temporary_variable_assignment_test() {
    let json = "{\"temp=\": \"x\"}";
    match parse(json) {
        RuntimeObject::VariableAssignment(variable) => {
            assert_eq!(variable.name(), "x");
            assert_eq!(variable.is_new_declaration(), true);
            assert_eq!(variable.is_global(), false);
        }
        _ => assert!(false),
    }
}

#[test]
fn tag_test() {
    let json = "{\"#\": \"This is a tag\"}";
    match parse(json) {
        RuntimeObject::Tag(tag) => {
            assert_eq!(tag.text(), "This is a tag");
        }
        _ => assert!(false),
    }
}

#[test]
fn container_test() {
    let json = "[\"^'Ah\",{\"->\":\"$r\",\"var\":true}, null]";
    let container = parse_container(json);
    let content = container.content();
    assert_eq!(content.len(), 2);
    match content.get(0).unwrap() {
        RuntimeObject::Value(value) => match value {
            Value::String(s) => assert_eq!(s, "'Ah"),
            _ => assert!(false),
        },
        _ => assert!(false),
    }
    match content.get(1).unwrap() {
        RuntimeObject::Divert(divert) => {
            match divert.target().unwrap() {
                TargetType::Name(target_name) => {
                    assert_eq!(target_name, "$r");
                }
                _ => assert!(false),
            }
            assert_eq!(divert.stack_push_type(), &PushPopType::NoPush);
            assert_eq!(divert.pushes_to_stack(), false);
            assert_eq!(divert.is_conditional(), false);
        }
        _ => assert!(false),
    }
}

#[test]
fn nested_container_test() {
    let json = "[\"^test\",{\"subContainer\":[5,6,null],\"#f\":3,\"#n\":\"container\"}]";
    let container = parse_container(json);
    let content = container.content();
    assert_eq!(content.len(), 2);
    assert_eq!(container.name().unwrap(), "container");
    assert_eq!(container.visits_should_be_counted(), true);
    assert_eq!(container.turn_index_should_be_counted(), true);
    assert_eq!(container.count_at_start_only(), false);
    assert_eq!(container.count_flags(), 3);
    match content.get(0).unwrap() {
        RuntimeObject::Value(value) => match value {
            Value::String(s) => assert_eq!(s, "test"),
            _ => assert!(false),
        },
        _ => assert!(false),
    }
    match content.get(1).unwrap() {
        RuntimeObject::Container(sub_container) => {
            let sub_content = sub_container.content();
            assert_eq!(sub_content.len(), 2);
            assert_eq!(sub_container.name().unwrap(), "subContainer");
            match sub_content.get(0).unwrap() {
                RuntimeObject::Value(value) => match value {
                    Value::Int(int_value) => assert_eq!(*int_value, 5),
                    _ => assert!(false),
                },
                _ => assert!(false),
            }
            match sub_content.get(1).unwrap() {
                RuntimeObject::Value(value) => match value {
                    Value::Int(int_value) => assert_eq!(*int_value, 6),
                    _ => assert!(false),
                },
                _ => assert!(false),
            }
        }
        _ => assert!(false),
    }
}

#[test]
fn ink_test() {
    let json = r###"{"inkVersion":17,"root":[[["^I looked at Monsieur Fogg","\n",["ev",{"^->":"0.g-0.2.$r1"},{"temp=":"$r"},"str",{"->":".^.s"},[{"#n":"$r1"}],"/str","/ev",{"*":".^.c","flg":18},{"s":["^... and I could contain myself no longer.",{"->":"$r","var":true},null],"c":["ev",{"^->":"0.g-0.2.c.$r2"},"/ev",{"temp=":"$r"},{"->":".^.^.s"},[{"#n":"$r2"}],"\n","\n","^'What is the purpose of our journey, Monsieur?'","\n","^'A wager,' he replied.","\n",[["ev",{"^->":"0.g-0.2.c.12.0.$r1"},{"temp=":"$r"},"str",{"->":".^.s"},[{"#n":"$r1"}],"/str","/ev",{"*":".^.c","flg":18},{"s":["^'A wager!'",{"->":"$r","var":true},null],"c":["ev",{"^->":"0.g-0.2.c.12.0.c.$r2"},"/ev",{"temp=":"$r"},{"->":".^.^.s"},[{"#n":"$r2"}],"^ I returned.","\n","\n","^He nodded.","\n",[["ev",{"^->":"0.g-0.2.c.12.0.c.11.0.$r1"},{"temp=":"$r"},"str",{"->":".^.s"},[{"#n":"$r1"}],"/str","/ev",{"*":".^.c","flg":18},{"s":["^'But surely that is foolishness!'",{"->":"$r","var":true},null],"c":["ev",{"^->":"0.g-0.2.c.12.0.c.11.0.c.$r2"},"/ev",{"temp=":"$r"},{"->":".^.^.s"},[{"#n":"$r2"}],"\n","\n",{"->":".^.^.^.g-0"},{"#f":5}]}],["ev",{"^->":"0.g-0.2.c.12.0.c.11.1.$r1"},{"temp=":"$r"},"str",{"->":".^.s"},[{"#n":"$r1"}],"/str","/ev",{"*":".^.c","flg":18},{"s":["^'A most serious matter then!'",{"->":"$r","var":true},null],"c":["ev",{"^->":"0.g-0.2.c.12.0.c.11.1.c.$r2"},"/ev",{"temp=":"$r"},{"->":".^.^.s"},[{"#n":"$r2"}],"\n","\n",{"->":".^.^.^.g-0"},{"#f":5}]}],{"g-0":["^He nodded again.","\n",["ev",{"^->":"0.g-0.2.c.12.0.c.11.g-0.2.$r1"},{"temp=":"$r"},"str",{"->":".^.s"},[{"#n":"$r1"}],"/str","/ev",{"*":".^.c","flg":18},{"s":["^'But can we win?'",{"->":"$r","var":true},null],"c":["ev",{"^->":"0.g-0.2.c.12.0.c.11.g-0.2.c.$r2"},"/ev",{"temp=":"$r"},{"->":".^.^.s"},[{"#n":"$r2"}],"\n","\n","^'That is what we will endeavour to find out,' he answered.","\n",{"->":"0.g-0.2.c.12.g-0"},{"#f":5}]}],["ev",{"^->":"0.g-0.2.c.12.0.c.11.g-0.3.$r1"},{"temp=":"$r"},"str",{"->":".^.s"},[{"#n":"$r1"}],"/str","/ev",{"*":".^.c","flg":18},{"s":["^'A modest wager, I trust?'",{"->":"$r","var":true},null],"c":["ev",{"^->":"0.g-0.2.c.12.0.c.11.g-0.3.c.$r2"},"/ev",{"temp=":"$r"},{"->":".^.^.s"},[{"#n":"$r2"}],"\n","\n","^'Twenty thousand pounds,' he replied, quite flatly.","\n",{"->":"0.g-0.2.c.12.g-0"},{"#f":5}]}],["ev",{"^->":"0.g-0.2.c.12.0.c.11.g-0.4.$r1"},{"temp=":"$r"},"str",{"->":".^.s"},[{"#n":"$r1"}],"/str","str","^.","/str","/ev",{"*":".^.c","flg":22},{"s":["^I asked nothing further of him then",{"->":"$r","var":true},null],"c":["ev",{"^->":"0.g-0.2.c.12.0.c.11.g-0.4.c.$r2"},"/ev",{"temp=":"$r"},{"->":".^.^.s"},[{"#n":"$r2"}],"^, and after a final, polite cough, he offered nothing more to me. ","<>","\n","\n",{"->":"0.g-0.2.c.12.g-0"},{"#f":5}]}],null]}],{"#f":5}]}],["ev",{"^->":"0.g-0.2.c.12.1.$r1"},{"temp=":"$r"},"str",{"->":".^.s"},[{"#n":"$r1"}],"/str","str","^.'","/str","/ev",{"*":".^.c","flg":22},{"s":["^'Ah",{"->":"$r","var":true},null],"c":["ev",{"^->":"0.g-0.2.c.12.1.c.$r2"},"/ev",{"temp=":"$r"},{"->":".^.^.s"},[{"#n":"$r2"}],"^,' I replied, uncertain what I thought.","\n","\n",{"->":".^.^.^.g-0"},{"#f":5}]}],{"g-0":["^After that, ","<>","\n",{"->":"0.g-1"},null]}],{"#f":5}]}],["ev",{"^->":"0.g-0.3.$r1"},{"temp=":"$r"},"str",{"->":".^.s"},[{"#n":"$r1"}],"/str","/ev",{"*":".^.c","flg":18},{"s":["^... but I said nothing",{"->":"$r","var":true},null],"c":["ev",{"^->":"0.g-0.3.c.$r2"},"/ev",{"temp=":"$r"},{"->":".^.^.s"},[{"#n":"$r2"}],"^ and ","<>","\n","\n",{"->":"0.g-1"},{"#f":5}]}],{"#n":"g-0"}],{"g-1":["^we passed the day in silence.","\n",["end",{"#n":"g-2"}],null]}],"done",{"#f":3}],"listDefs":{}}"###;
    let ink_object: InkJSon = InkJSon::from_str(json).unwrap();
    assert_eq!(ink_object.ink_version(), 17)
}

#[test]
fn empty_array_test() {
    let container = parse_container("[]");
    assert_eq!(container.content().len(), 0);
    assert!(container.name().is_none());
    assert_eq!(container.count_flags(), 0);
}

#[test]
fn unicode_escape_test() {
    let json = "[\"^\\u0041\\uD83D\\uDE00\"]";
    let container = parse_container(json);
    match container.content().get(0).unwrap() {
        RuntimeObject::Value(Value::String(s)) => assert_eq!(s, "A\u{1F600}"),
        _ => assert!(false),
    }
}

#[test]
fn unknown_string_token_test() {
    let r = runtime_object_from_str("[\"bogus\"]");
    assert!(matches!(r, Err(InkError::Parse(_))));
}

#[test]
fn list_value_rejected_test() {
    let r = runtime_object_from_str("{\"list\": {}}");
    assert!(matches!(r, Err(InkError::Parse(_))));
}

#[test]
fn int_out_of_range_test() {
    assert!(matches!(
        runtime_object_from_str("[2147483648]"),
        Err(InkError::Parse(_))
    ));
    let container = parse_container("[2147483647, -2147483648]");
    match container.content().get(0).unwrap() {
        RuntimeObject::Value(Value::Int(v)) => assert_eq!(*v, 2147483647),
        _ => assert!(false),
    }
    match container.content().get(1).unwrap() {
        RuntimeObject::Value(Value::Int(v)) => assert_eq!(*v, -2147483648),
        _ => assert!(false),
    }
}

#[test]
fn float_text_forms_test() {
    let container = parse_container("[1e3, -0.5]");
    match container.content().get(0).unwrap() {
        RuntimeObject::Value(Value::Float(t)) => assert_eq!(t, "1e3"),
        _ => assert!(false),
    }
    match container.content().get(1).unwrap() {
        RuntimeObject::Value(Value::Float(t)) => assert_eq!(t, "-0.5"),
        _ => assert!(false),
    }
}

#[test]
fn leading_zero_rejected_test() {
    assert!(matches!(
        runtime_object_from_str("[01]"),
        Err(InkError::Parse(_))
    ));
}

#[test]
fn list_defs_kept_raw_test() {
    let json = "{\"inkVersion\":17,\"root\":[null],\"listDefs\":{\"a\":{\"b\":1}}}";
    let doc = InkJSon::from_str(json).unwrap();
    assert_eq!(doc.list_defs().unwrap(), "{\"a\":{\"b\":1}}");
    match doc.root() {
        RuntimeObject::Container(c) => assert_eq!(c.content().len(), 0),
        _ => assert!(false),
    }
}
