//! Tests of paths, the graph resolver, the depth-first cursor and the
//! call stack of narrative threads.

use rink_runtime::callstack::{CallStack, Thread};
use rink_runtime::runtime::control_command::ControlCommand;
use rink_runtime::error::InkError;
use rink_runtime::json_parser::runtime_object_from_str;
use rink_runtime::path::{Fragment, Path};
use rink_runtime::runtime::divert::{Divert, TargetType};
use rink_runtime::runtime::value::Value;
use rink_runtime::runtime::{Container, RuntimeObject};
use rink_runtime::runtime_context::RuntimeContext;
use rink_runtime::runtime_graph::{RuntimeGraph, INK_VERSION, INK_VERSION_MINIMUM_COMPATIBLE};
use std::rc::Rc;

#[test]
fn runtime_context_test() {
    // [42, [10, "value1", [3.14]], "value2"]
    let mut root_container = Container::new();
    root_container.add_child(RuntimeObject::Value(Value::Int(42)));

    let mut sub_container = Container::new();
    sub_container.add_child(RuntimeObject::Value(Value::Int(10)));
    sub_container.add_child(RuntimeObject::Value(Value::String("value1".to_owned())));

    let mut sub_sub_container = Container::new();
    sub_sub_container.add_child(RuntimeObject::Value(Value::Float("3.14".to_owned())));
    sub_container.add_child(RuntimeObject::Container(Rc::new(sub_sub_container)));

    root_container.add_child(RuntimeObject::Container(Rc::new(sub_container)));
    root_container.add_child(RuntimeObject::Value(Value::String("value2".to_owned())));

    let root_container = Rc::new(root_container);
    let mut runtime_context = RuntimeContext::new(&root_container);

    assert_eq!(
        runtime_context.get().unwrap().as_value().unwrap().as_int().unwrap(),
        42
    );
    assert_eq!(runtime_context.depth(), 1);

    assert_eq!(
        runtime_context.next().unwrap().as_value().unwrap().as_int().unwrap(),
        10
    );
    assert_eq!(runtime_context.depth(), 2);

    assert_eq!(
        runtime_context.next().unwrap().as_value().unwrap().as_string().unwrap(),
        "value1"
    );
    assert_eq!(runtime_context.depth(), 2);

    let float_text: f32 = {
        let o = runtime_context.next().unwrap();
        o.as_value().unwrap().as_float_text().unwrap().parse().unwrap()
    };
    assert_eq!(float_text, 3.14);
    assert_eq!(runtime_context.depth(), 3);

    assert_eq!(
        runtime_context.next().unwrap().as_value().unwrap().as_string().unwrap(),
        "value2"
    );
    assert_eq!(runtime_context.depth(), 1);

    assert!(runtime_context.next().is_none());
    assert_eq!(
        runtime_context.get().unwrap().as_value().unwrap().as_string().unwrap(),
        "value2"
    );
}

#[test]
fn empty_container_test() {
    let root_container = Rc::new(Container::new());
    let mut runtime_context = RuntimeContext::new(&root_container);

    assert!(runtime_context.get().is_none());
    assert!(runtime_context.next().is_none());
    assert_eq!(runtime_context.depth(), 1);
}

#[test]
fn resolve_path_by_name_test() {
    let path = Path::from_str("a.b.c");

    let mut root_container = Container::new();

    let mut child_level_1 = Container::new();
    child_level_1.set_name("a".to_owned());

    let mut child_level_2 = Container::new();
    child_level_2.set_name("b".to_owned());

    let mut child_level_3 = Container::new();
    child_level_3.set_name("c".to_owned());

    child_level_2.add_child(RuntimeObject::Container(Rc::new(child_level_3)));
    child_level_1.add_child(RuntimeObject::Container(Rc::new(child_level_2)));
    root_container.add_child(RuntimeObject::Container(Rc::new(child_level_1)));

    let graph = RuntimeGraph::new(Rc::new(root_container));

    match graph.resolve_path(&path.unwrap()) {
        Some(RuntimeObject::Container(container)) => {
            assert_eq!(container.name().unwrap(), "c")
        }
        _ => assert!(false),
    }
}

#[test]
fn resolve_path_by_index_test() {
    let path = Path::from_str("a.b.1");

    let mut root_container = Container::new();

    let mut child_level_1 = Container::new();
    child_level_1.set_name("a".to_owned());

    let mut child_level_2 = Container::new();
    child_level_2.set_name("b".to_owned());

    let mut child_level_3_1 = Container::new();
    child_level_3_1.set_name("c".to_owned());

    let mut child_level_3_2 = Divert::new();
    child_level_3_2.set_target(TargetType::Name("mytarget".to_owned()));

    child_level_2.add_child(RuntimeObject::Container(Rc::new(child_level_3_1)));
    child_level_2.add_child(RuntimeObject::Divert(child_level_3_2));
    child_level_1.add_child(RuntimeObject::Container(Rc::new(child_level_2)));
    root_container.add_child(RuntimeObject::Container(Rc::new(child_level_1)));

    let graph = RuntimeGraph::new(Rc::new(root_container));

    match graph.resolve_path(&path.unwrap()) {
        Some(RuntimeObject::Divert(divert)) => match divert.target().unwrap() {
            TargetType::Name(name) => assert_eq!(name, "mytarget"),
            _ => assert!(false),
        },
        _ => assert!(false),
    }
}

#[test]
fn path_round_trip_test() {
    for text in ["0.g-0.2.$r1", ".^.s", "a.b.1", ".", "g-0", "0"] {
        let p = Path::from_str(text).unwrap();
        assert_eq!(p.to_string(), text);
    }
    assert!(Path::from_str("").is_none());
}

#[test]
fn path_accessors_test() {
    let p = Path::from_str(".^.s.3").unwrap();
    assert!(p.is_relative());
    assert_eq!(p.len(), 3);
    assert_eq!(p.first().unwrap(), &Fragment::Name("^".to_owned()));
    assert_eq!(p.last().unwrap(), &Fragment::Index(3));
    assert_eq!(p.get(1).unwrap(), &Fragment::Name("s".to_owned()));
    let q = Path::from_str(".^.s.3").unwrap();
    assert!(p == q);
    let r = Path::from_str("^.s.3").unwrap();
    assert!(!(p == r));
}

#[test]
fn dfs_preorder_test() {
    // root = [A, [B, C, [D]], E]; the cursor visits A, B, C, D, E then
    // stops, with the depths of the original walk.
    let json = "[\"^A\",[\"^B\",\"^C\",[\"^D\"]],\"^E\"]";
    let root = match runtime_object_from_str(json).unwrap() {
        RuntimeObject::Container(c) => c,
        _ => panic!("expected a container"),
    };
    let mut ctx = RuntimeContext::new(&root);
    let texts_and_depths = [("A", 1), ("B", 2), ("C", 2), ("D", 3), ("E", 1)];
    let (first, d0) = texts_and_depths[0];
    assert_eq!(
        ctx.get().unwrap().as_value().unwrap().as_string().unwrap(),
        first
    );
    assert_eq!(ctx.depth(), d0);
    for (text, depth) in &texts_and_depths[1..] {
        assert_eq!(
            ctx.next().unwrap().as_value().unwrap().as_string().unwrap(),
            *text
        );
        assert_eq!(ctx.depth(), *depth);
    }
    assert!(ctx.next().is_none());
}

#[test]
fn callstack_walk_test() {
    let json = "[\"^A\",[\"^B\"],\"^C\"]";
    let root = match runtime_object_from_str(json).unwrap() {
        RuntimeObject::Container(c) => c,
        _ => panic!("expected a container"),
    };
    let mut cs = CallStack::new(&root);
    assert_eq!(
        cs.runtime_object().unwrap().as_value().unwrap().as_string().unwrap(),
        "A"
    );
    assert_eq!(cs.depth(), 1);
    assert_eq!(
        cs.step().unwrap().as_value().unwrap().as_string().unwrap(),
        "B"
    );
    assert_eq!(
        cs.step().unwrap().as_value().unwrap().as_string().unwrap(),
        "C"
    );
    assert!(cs.step().is_none());
}

#[test]
fn thread_clone_independence_test() {
    let json = "[\"^A\",\"^B\",\"^C\"]";
    let root = match runtime_object_from_str(json).unwrap() {
        RuntimeObject::Container(c) => c,
        _ => panic!("expected a container"),
    };
    let mut cs = CallStack::new(&root);
    assert!(cs.push_thread());
    // Advance the new (top) thread's cursor twice.
    assert_eq!(
        cs.step().unwrap().as_value().unwrap().as_string().unwrap(),
        "B"
    );
    assert_eq!(
        cs.step().unwrap().as_value().unwrap().as_string().unwrap(),
        "C"
    );
    // The original thread still points at A.
    let original = cs.thread_from_index(0).unwrap();
    let frame = original.stack().last().unwrap();
    assert_eq!(
        frame.get().unwrap().as_value().unwrap().as_string().unwrap(),
        "A"
    );
    // Discarding the new thread brings the original cursor back.
    assert!(cs.pop_thread());
    assert_eq!(
        cs.runtime_object().unwrap().as_value().unwrap().as_string().unwrap(),
        "A"
    );
}

#[test]
fn version_window_test() {
    let newer = "{\"inkVersion\":99,\"root\":[null],\"listDefs\":{}}";
    match RuntimeGraph::from_str(newer, INK_VERSION_MINIMUM_COMPATIBLE, INK_VERSION) {
        Err(InkError::Version(_)) => {}
        _ => assert!(false),
    }
    let older = "{\"inkVersion\":1,\"root\":[null],\"listDefs\":{}}";
    match RuntimeGraph::from_str(older, INK_VERSION_MINIMUM_COMPATIBLE, INK_VERSION) {
        Err(InkError::Version(_)) => {}
        _ => assert!(false),
    }
    let current = "{\"inkVersion\":17,\"root\":[\"^hello\",null],\"listDefs\":{}}";
    let graph = RuntimeGraph::from_str(current, INK_VERSION_MINIMUM_COMPATIBLE, INK_VERSION)
        .unwrap();
    assert_eq!(graph.root_container().content().len(), 1);
    let malformed = "{\"inkVersion\":17";
    match RuntimeGraph::from_str(malformed, INK_VERSION_MINIMUM_COMPATIBLE, INK_VERSION) {
        Err(e) => assert!(e.is_parse()),
        _ => assert!(false),
    }
}

#[test]
fn resolve_parent_fragment_test() {
    // Resolving "a.^.b" cancels the parent step: it names the same node
    // as "b".
    let json = "[{\"a\":[null],\"b\":[\"^x\",null]}]";
    let root = match runtime_object_from_str(json).unwrap() {
        RuntimeObject::Container(c) => c,
        _ => panic!("expected a container"),
    };
    let graph = RuntimeGraph::new(root);
    let p = Path::from_str("a.^.b").unwrap();
    match graph.resolve_path(&p) {
        Some(RuntimeObject::Container(c)) => assert_eq!(c.name().unwrap(), "b"),
        _ => assert!(false),
    }
    // A parent step above the start resolves to nothing.
    let q = Path::from_str("^.a").unwrap();
    assert!(graph.resolve_path(&q).is_none());
}

#[test]
fn control_command_token_test() {
    assert_eq!(ControlCommand::EvalStart.to_string(), "ev");
    assert_eq!(ControlCommand::PopTunnel.to_string(), "->->");
    assert_eq!(ControlCommand::ListRange.to_string(), "range");
}

#[test]
fn pop_if_test() {
    let json = "[\"^A\"]";
    let root = match runtime_object_from_str(json).unwrap() {
        RuntimeObject::Container(c) => c,
        _ => panic!("expected a container"),
    };
    let mut thread = Thread::new();
    thread.push(RuntimeContext::new(&root));
    // A rejecting predicate leaves the thread alone.
    assert!(thread.pop_if(|_c| false).is_none());
    assert_eq!(thread.stack().len(), 1);
    // An accepting predicate pops the frame it was shown.
    let popped = thread.pop_if(|c| c.depth() == 1);
    assert!(popped.is_some());
    assert_eq!(thread.stack().len(), 0);
    // On an empty thread the predicate is never consulted.
    assert!(thread.pop_if(|_c| true).is_none());
}
