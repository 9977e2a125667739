use avm_core::avm1::error::Error;
use avm_core::avm1::heap::{Heap, ReturnValue};
use avm_core::avm1::object::ScriptObject;
use avm_core::avm1::scope::{Frame, Scope, ScopeClass, Scopes};
use avm_core::value::Value;

fn same(a: &Value, b: &Value) -> bool {
    format!("{:?}", a) == format!("{:?}", b)
}

fn resolved(r: Result<ReturnValue, Error>) -> Value {
    match r {
        Ok(ReturnValue::Immediate(v)) => v,
        other => panic!("{:?}", other),
    }
}

struct World {
    heap: Heap,
    scopes: Scopes,
    globals: usize,
    global: usize,
    clip: usize,
    target: usize,
    local: usize,
}

fn world() -> World {
    let mut heap = Heap::new();
    let mut scopes = Scopes::new();
    let globals = heap.allocate(ScriptObject::object(None));
    let clip = heap.allocate(ScriptObject::object(None));
    let global = scopes.allocate(Scope::from_global_object(globals));
    let target = scopes.allocate(Scope::new(global, ScopeClass::Target, clip));
    let node = Scope::new_local_scope(target, &mut heap);
    let local = scopes.allocate(node);
    World { heap, scopes, globals, global, clip, target, local }
}

#[test]
fn a_name_of_an_ancestor_is_visible_from_a_descendant() {
    let mut w = world();
    w.heap.set(w.globals, "far", Value::from_i32(1), true);
    w.heap.set(w.clip, "near", Value::from_i32(2), true);
    assert!(same(&resolved(w.scopes.resolve(w.local, "far", &w.heap, true)), &Value::from_i32(1)));
    assert!(same(&resolved(w.scopes.resolve(w.local, "near", &w.heap, true)), &Value::from_i32(2)));
    assert!(same(&resolved(w.scopes.resolve(w.global, "near", &w.heap, true)), &Value::Undefined));
    assert!(w.scopes.is_defined(w.local, "far", &w.heap, true));
    assert!(!w.scopes.is_defined(w.local, "nowhere", &w.heap, true));
    assert!(same(&resolved(w.scopes.resolve(w.local, "nowhere", &w.heap, true)), &Value::Undefined));
    assert!(same(&resolved(w.scopes.resolve(999, "far", &w.heap, true)), &Value::Undefined));
}

#[test]
fn the_nearest_scope_shadows_the_others() {
    let mut w = world();
    w.heap.set(w.globals, "x", Value::from_str("global"), true);
    w.heap.set(w.clip, "x", Value::from_str("clip"), true);
    assert!(same(&resolved(w.scopes.resolve(w.local, "x", &w.heap, true)), &Value::from_str("clip")));
    w.scopes.define(w.local, "x", Value::from_str("local"), &mut w.heap);
    assert!(same(&resolved(w.scopes.resolve(w.local, "x", &w.heap, true)), &Value::from_str("local")));
    assert!(same(&resolved(w.scopes.resolve(w.target, "x", &w.heap, true)), &Value::from_str("clip")));
}

#[test]
fn overwrite_assigns_where_the_name_is_defined() {
    let mut w = world();
    w.heap.set(w.globals, "g", Value::from_i32(1), true);
    let done = w.scopes.overwrite(w.local, "g", Value::from_i32(2), &mut w.heap, true);
    assert!(matches!(done, Ok(ReturnValue::Immediate(Value::Undefined))));
    assert!(same(&w.heap.object(w.globals).unwrap().get_data("g"), &Value::from_i32(2)));
    let locals = w.scopes.get(w.local).unwrap().locals_cell();
    assert!(!w.heap.has_own_property(locals, "g", true));
}

#[test]
fn overwrite_hands_back_the_value_of_an_undefined_name() {
    let mut w = world();
    let before = w.heap.len();
    match w.scopes.overwrite(w.local, "fresh", Value::from_str("v"), &mut w.heap, true) {
        Err(back) => assert!(same(&back, &Value::from_str("v"))),
        other => panic!("{:?}", other),
    }
    assert!(!w.scopes.is_defined(w.local, "fresh", &w.heap, true));
    assert_eq!(w.heap.len(), before);
}

#[test]
fn delete_removes_the_variable_from_its_scope() {
    let mut w = world();
    w.heap.set(w.clip, "gone", Value::Null, true);
    assert!(w.scopes.delete(w.local, "gone", &mut w.heap, true));
    assert!(!w.scopes.is_defined(w.local, "gone", &w.heap, true));
    assert!(!w.scopes.delete(w.local, "gone", &mut w.heap, true));
}

#[test]
fn with_makes_the_properties_of_an_object_visible() {
    let mut w = world();
    let object = w.heap.allocate(ScriptObject::object(None));
    w.heap.set(object, "inside", Value::from_i32(7), true);
    w.scopes.define(w.local, "mine", Value::from_i32(1), &mut w.heap);
    let with_scope = w.scopes.new_with_scope(w.local, object);
    assert!(same(&resolved(w.scopes.resolve(with_scope, "inside", &w.heap, true)), &Value::from_i32(7)));
    assert!(same(&resolved(w.scopes.resolve(with_scope, "mine", &w.heap, true)), &Value::from_i32(1)));
    assert!(same(&resolved(w.scopes.resolve(w.local, "inside", &w.heap, true)), &Value::Undefined));
    let frames = w.scopes.frames(with_scope);
    assert_eq!(frames.len(), 4);
    assert_eq!(frames[0].class, ScopeClass::Local);
    assert_eq!(frames[1], Frame { class: ScopeClass::With, values: object });
    assert_eq!(frames[2], Frame { class: ScopeClass::Target, values: w.clip });
    assert_eq!(frames[3], Frame { class: ScopeClass::Global, values: w.globals });
    assert_eq!(frames[0].values, w.scopes.get(w.local).unwrap().locals_cell());
    w.scopes.define(with_scope, "later", Value::Null, &mut w.heap);
    assert!(w.scopes.is_defined(w.local, "later", &w.heap, true));
    assert!(!w.heap.has_own_property(object, "later", true));
}

#[test]
fn a_closure_does_not_capture_with_scopes() {
    let mut w = world();
    let object = w.heap.allocate(ScriptObject::object(None));
    w.heap.set(object, "inside", Value::from_i32(7), true);
    w.heap.set(object, "both", Value::from_str("with"), true);
    w.heap.set(w.globals, "both", Value::from_str("global"), true);
    let with_scope = w.scopes.new_with_scope(w.local, object);
    let heap_before = w.heap.len();
    let closure = w.scopes.new_closure_scope(with_scope, &mut w.heap);
    assert_eq!(w.heap.len(), heap_before);
    let frames = w.scopes.frames(closure);
    assert_eq!(frames.len(), 3);
    assert!(frames.iter().all(|f| f.class != ScopeClass::With));
    assert!(same(&resolved(w.scopes.resolve(closure, "inside", &w.heap, true)), &Value::Undefined));
    assert!(same(&resolved(w.scopes.resolve(closure, "both", &w.heap, true)), &Value::from_str("global")));
    assert!(same(&resolved(w.scopes.resolve(with_scope, "both", &w.heap, true)), &Value::from_str("with")));
}

#[test]
fn a_closure_of_nothing_is_a_bare_global_scope() {
    let mut w = world();
    let lonely = w.heap.allocate(ScriptObject::object(None));
    let only_with = w.scopes.allocate(Scope { parent: None, class: ScopeClass::With, values: lonely });
    let heap_before = w.heap.len();
    let closure = w.scopes.new_closure_scope(only_with, &mut w.heap);
    assert_eq!(w.heap.len(), heap_before + 1);
    assert_eq!(w.scopes.frames(closure), vec![Frame { class: ScopeClass::Global, values: heap_before }]);
    let from_nothing = w.scopes.new_closure_scope(12345, &mut w.heap);
    assert_eq!(w.scopes.frames(from_nothing).len(), 1);
}

#[test]
fn tell_target_replaces_the_object_of_the_timeline_scopes_only() {
    let mut w = world();
    let other_clip = w.heap.allocate(ScriptObject::object(None));
    w.heap.set(w.clip, "where", Value::from_str("old"), true);
    w.heap.set(other_clip, "where", Value::from_str("new"), true);
    let retargeted = w.scopes.new_target_scope(w.local, other_clip, &mut w.heap);
    let before = w.scopes.frames(w.local);
    let after = w.scopes.frames(retargeted);
    assert_eq!(after.len(), before.len());
    assert_eq!(after[0], before[0]);
    assert_eq!(after[1], Frame { class: ScopeClass::Target, values: other_clip });
    assert_eq!(after[2], before[2]);
    assert!(same(&resolved(w.scopes.resolve(retargeted, "where", &w.heap, true)), &Value::from_str("new")));
    assert!(same(&resolved(w.scopes.resolve(w.local, "where", &w.heap, true)), &Value::from_str("old")));
}

#[test]
fn a_link_to_a_younger_scope_is_no_link() {
    let mut scopes = Scopes::new();
    let a = scopes.allocate(Scope { parent: Some(1), class: ScopeClass::Local, values: 0 });
    let b = scopes.allocate(Scope { parent: Some(a), class: ScopeClass::Local, values: 1 });
    assert_eq!(scopes.frames(a).len(), 1);
    assert_eq!(scopes.frames(b).len(), 2);
    assert_eq!(scopes.parent(a), None);
    assert_eq!(scopes.parent(b), Some(a));
    assert_eq!(scopes.get(b).unwrap().class(), ScopeClass::Local);
    assert!(scopes.get(2).is_none());
}
