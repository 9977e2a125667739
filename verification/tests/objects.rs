use avm_core::avm1::collect::{collect, mark};
use avm_core::avm1::error::Error;
use avm_core::avm1::heap::{Heap, ReturnValue, MAX_PROTOTYPE_DEPTH};
use avm_core::avm1::object::ScriptObject;
use avm_core::avm1::property::Attributes;
use avm_core::number::Number;
use avm_core::value::Value;

fn immediate(r: Result<ReturnValue, Error>) -> Value {
    match r {
        Ok(ReturnValue::Immediate(v)) => v,
        other => panic!("no immediate value: {:?}", other),
    }
}

fn read(heap: &Heap, obj: usize, name: &str) -> Value {
    immediate(heap.get(obj, name, true))
}

fn same(a: &Value, b: &Value) -> bool {
    format!("{:?}", a) == format!("{:?}", b)
}

const READ_ONLY: Attributes = Attributes { dont_enum: false, dont_delete: false, read_only: true };
const DONT_DELETE: Attributes = Attributes { dont_enum: false, dont_delete: true, read_only: false };
const DONT_ENUM: Attributes = Attributes { dont_enum: true, dont_delete: false, read_only: false };

#[test]
fn a_property_reads_as_what_was_assigned() {
    let mut heap = Heap::new();
    let obj = heap.allocate(ScriptObject::object(None));
    for (name, value) in [("a", Value::from_i32(1)), ("b", Value::from_str("two")), ("", Value::Null), ("a", Value::Bool(true))] {
        let done = heap.set(obj, name, value.duplicate(), true);
        assert!(matches!(done, ReturnValue::Immediate(Value::Undefined)));
        assert!(same(&read(&heap, obj, name), &value));
    }
    assert!(same(&read(&heap, obj, "b"), &Value::from_str("two")));
    assert_eq!(heap.get_keys(obj), vec!["a".to_string(), "b".to_string(), "".to_string()]);
}

#[test]
fn a_read_only_property_keeps_its_value() {
    let mut heap = Heap::new();
    let obj = heap.allocate(ScriptObject::object(None));
    heap.define_value(obj, "fixed", Value::from_i32(1), READ_ONLY);
    heap.set(obj, "fixed", Value::from_i32(2), true);
    assert!(same(&read(&heap, obj, "fixed"), &Value::from_i32(1)));
    assert_eq!(heap.object(obj).unwrap().properties.len(), 1);
}

#[test]
fn a_missing_property_is_undefined() {
    let mut heap = Heap::new();
    let obj = heap.allocate(ScriptObject::object(None));
    assert!(same(&read(&heap, obj, "nothing"), &Value::Undefined));
    assert!(same(&read(&heap, 99, "nothing"), &Value::Undefined));
    assert!(!heap.has_property(obj, "nothing", true));
    assert!(!heap.has_property(99, "nothing", true));
    assert!(!heap.has_own_property(99, "nothing", true));
    let done = heap.set(99, "x", Value::Null, true);
    assert!(matches!(done, ReturnValue::Immediate(Value::Undefined)));
    assert_eq!(heap.len(), 1);
}

#[test]
fn a_protected_property_is_not_deleted() {
    let mut heap = Heap::new();
    let obj = heap.allocate(ScriptObject::object(None));
    heap.define_value(obj, "kept", Value::from_i32(5), DONT_DELETE);
    heap.define_value(obj, "loose", Value::from_i32(6), Attributes::empty());
    assert!(!heap.delete(obj, "kept", true));
    assert!(heap.has_property(obj, "kept", true));
    assert!(same(&read(&heap, obj, "kept"), &Value::from_i32(5)));
    assert!(heap.delete(obj, "loose", true));
    assert!(!heap.has_property(obj, "loose", true));
    assert!(!heap.delete(obj, "loose", true));
    assert!(!heap.delete(obj, "never", true));
    assert!(!heap.delete(42, "kept", true));
}

#[test]
fn properties_are_inherited_from_prototypes() {
    let mut heap = Heap::new();
    let base = heap.allocate(ScriptObject::object(None));
    let middle = heap.allocate(ScriptObject::object(Some(base)));
    let obj = heap.allocate(ScriptObject::object(Some(middle)));
    heap.set(base, "shared", Value::from_str("base"), true);
    assert!(same(&read(&heap, obj, "shared"), &Value::from_str("base")));
    assert!(heap.has_property(obj, "shared", true));
    assert!(!heap.has_own_property(obj, "shared", true));
    heap.set(obj, "shared", Value::from_str("own"), true);
    assert!(same(&read(&heap, obj, "shared"), &Value::from_str("own")));
    assert!(same(&read(&heap, middle, "shared"), &Value::from_str("base")));
    assert_eq!(heap.proto(obj), Some(middle));
    heap.set_proto(obj, None);
    assert_eq!(heap.proto(obj), None);
    assert_eq!(heap.proto(77), None);
}

#[test]
fn a_prototype_chain_that_is_too_long_is_an_error() {
    let mut heap = Heap::new();
    let mut last = heap.allocate(ScriptObject::object(None));
    heap.set(last, "deep", Value::from_i32(1), true);
    for _ in 0..MAX_PROTOTYPE_DEPTH {
        last = heap.allocate(ScriptObject::object(Some(last)));
    }
    assert!(same(&read(&heap, last, "deep"), &Value::from_i32(1)));
    let beyond = heap.allocate(ScriptObject::object(Some(last)));
    assert!(matches!(heap.get(beyond, "deep", true), Err(Error::PrototypeRecursionLimit)));
    assert!(!heap.has_property(beyond, "deep", true));
    let circle = heap.allocate(ScriptObject::object(None));
    heap.set_proto(circle, Some(circle));
    assert!(matches!(heap.get(circle, "x", true), Err(Error::PrototypeRecursionLimit)));
    assert!(Error::PrototypeRecursionLimit.is_halting());
}

#[test]
fn names_are_matched_by_the_case_rule() {
    let mut heap = Heap::new();
    let obj = heap.allocate(ScriptObject::object(None));
    heap.set(obj, "Name", Value::from_i32(1), true);
    assert!(same(&read(&heap, obj, "Name"), &Value::from_i32(1)));
    assert!(same(&immediate(heap.get(obj, "name", true)), &Value::Undefined));
    assert!(same(&immediate(heap.get(obj, "name", false)), &Value::from_i32(1)));
    heap.set(obj, "NAME", Value::from_i32(2), false);
    assert_eq!(heap.get_keys(obj), vec!["Name".to_string()]);
    assert!(same(&read(&heap, obj, "Name"), &Value::from_i32(2)));
    heap.set(obj, "NAME", Value::from_i32(3), true);
    assert_eq!(heap.get_keys(obj), vec!["Name".to_string(), "NAME".to_string()]);
    assert!(same(&immediate(heap.get(obj, "name", false)), &Value::from_i32(2)));
}

#[test]
fn accessors_are_handed_back_not_called() {
    let mut heap = Heap::new();
    let getter = heap.allocate(ScriptObject::function(None));
    let setter = heap.allocate(ScriptObject::function(None));
    let mut object = ScriptObject::object(None);
    object.add_property("both", getter, Some(setter), Attributes::empty());
    object.add_property("get_only", getter, None, Attributes::empty());
    let obj = heap.allocate(object);
    match heap.get(obj, "both", true) {
        Ok(ReturnValue::Deferred { function, this, args }) => {
            assert_eq!((function, this), (getter, obj));
            assert!(args.is_empty());
        }
        other => panic!("{:?}", other),
    }
    match heap.set(obj, "both", Value::from_i32(9), true) {
        ReturnValue::Deferred { function, this, args } => {
            assert_eq!((function, this), (setter, obj));
            assert_eq!(args.len(), 1);
            assert!(same(&args[0], &Value::from_i32(9)));
        }
        other => panic!("{:?}", other),
    }
    assert!(matches!(heap.set(obj, "get_only", Value::from_i32(9), true), ReturnValue::Immediate(Value::Undefined)));
    assert_eq!(heap.object(obj).unwrap().properties.len(), 2);
    assert!(heap.object(obj).unwrap().has_own_virtual("both", true));
    assert!(!heap.object(obj).unwrap().has_own_virtual("nothing", true));
    let child = heap.allocate(ScriptObject::object(Some(obj)));
    match heap.get(child, "both", true) {
        Ok(ReturnValue::Deferred { function, this, .. }) => assert_eq!((function, this), (getter, child)),
        other => panic!("{:?}", other),
    }
}

#[test]
fn a_watcher_stands_in_for_the_first_assignment() {
    let mut heap = Heap::new();
    let callback = heap.allocate(ScriptObject::function(None));
    let proto = heap.allocate(ScriptObject::object(None));
    let mut object = ScriptObject::object(Some(proto));
    object.set_watcher("seen", callback, Value::from_str("data"), true);
    let obj = heap.allocate(object);
    match heap.set(obj, "seen", Value::from_i32(1), true) {
        ReturnValue::Deferred { function, this, args } => {
            assert_eq!((function, this), (callback, obj));
            assert_eq!(args.len(), 4);
            assert!(same(&args[0], &Value::from_str("seen")));
            assert!(same(&args[1], &Value::Undefined));
            assert!(same(&args[2], &Value::from_i32(1)));
            assert!(same(&args[3], &Value::from_str("data")));
        }
        other => panic!("{:?}", other),
    }
    assert!(!heap.has_own_property(obj, "seen", true));
    heap.set(obj, "other", Value::from_i32(2), true);
    assert!(heap.has_own_property(obj, "other", true));
    heap.set(proto, "seen", Value::from_i32(0), true);
    assert!(matches!(heap.set(obj, "seen", Value::from_i32(3), true), ReturnValue::Immediate(_)));
    assert!(same(&read(&heap, obj, "seen"), &Value::from_i32(3)));
}

#[test]
fn deleting_a_property_removes_its_watcher() {
    let mut object = ScriptObject::object(None);
    object.set_watcher("w", 1, Value::Null, true);
    object.set_watcher("w", 2, Value::Null, true);
    assert_eq!(object.watchers.len(), 1);
    assert_eq!(object.watchers[0].callback, 2);
    object.define_value("w", Value::from_i32(1), Attributes::empty());
    assert!(object.delete("w", true));
    assert!(object.watchers.is_empty());
    assert!(!object.remove_watcher("w", true));
    object.set_watcher("x", 3, Value::Null, true);
    assert!(object.remove_watcher("x", true));
}

#[test]
fn enumeration_shows_properties_in_the_order_of_definition() {
    let mut object = ScriptObject::object(None);
    object.define_value("z", Value::Null, Attributes::empty());
    object.define_value("hidden", Value::Null, DONT_ENUM);
    object.define_value("a", Value::Null, Attributes::empty());
    object.define_value("z", Value::from_i32(1), Attributes::empty());
    assert_eq!(object.get_keys(), vec!["z".to_string(), "a".to_string()]);
    assert!(object.is_property_enumerable("a", true));
    assert!(!object.is_property_enumerable("hidden", true));
    assert!(!object.is_property_enumerable("missing", true));
    assert!(same(&object.get_data("z"), &Value::from_i32(1)));
    assert!(same(&object.get_data("missing"), &Value::Undefined));
    assert!(object.has_own_property("hidden", true));
}

#[test]
fn attributes_are_added_and_removed() {
    let mut object = ScriptObject::object(None);
    object.define_value("a", Value::Null, Attributes::empty());
    object.define_value("b", Value::Null, READ_ONLY);
    object.set_attributes(Some("a"), DONT_DELETE, Attributes::empty(), true);
    assert!(!object.delete("a", true));
    object.set_attributes(None, DONT_ENUM, READ_ONLY, true);
    assert!(object.get_keys().is_empty());
    assert!(object.properties[1].property.is_overwritable());
    assert!(!object.properties[0].property.can_delete());
    object.set_attributes(Some("a"), Attributes::empty(), DONT_DELETE, true);
    assert!(object.delete("a", true));
    let all = DONT_ENUM.union(DONT_DELETE).union(READ_ONLY);
    assert_eq!(all, Attributes { dont_enum: true, dont_delete: true, read_only: true });
    assert_eq!(all.difference(DONT_ENUM), Attributes { dont_enum: false, dont_delete: true, read_only: true });
    let _ = Number::nan();
}

#[test]
fn an_object_stores_values_under_names() {
    let mut object = ScriptObject::object(None);
    assert_eq!(object.type_of(), "object");
    assert_eq!(ScriptObject::function(None).type_of(), "function");
    assert!(!object.has_property("a"));
    object.set("a", Value::from_i32(1));
    object.set("a", Value::from_i32(2));
    object.set("A", Value::from_i32(3));
    assert!(object.has_property("a"));
    assert!(same(&object.get("a"), &Value::from_i32(2)));
    assert!(same(&object.get("A"), &Value::from_i32(3)));
    assert!(same(&object.get("b"), &Value::Undefined));
    assert_eq!(object.properties.len(), 2);
}

#[test]
fn a_collection_empties_what_the_roots_do_not_reach() {
    let mut heap = Heap::new();
    let root = heap.allocate(ScriptObject::object(None));
    let proto = heap.allocate(ScriptObject::object(None));
    let held = heap.allocate(ScriptObject::object(Some(proto)));
    let getter = heap.allocate(ScriptObject::function(None));
    let setter = heap.allocate(ScriptObject::function(None));
    let callback = heap.allocate(ScriptObject::function(None));
    let user_data = heap.allocate(ScriptObject::object(None));
    let lonely = heap.allocate(ScriptObject::object(None));
    let circle_a = heap.allocate(ScriptObject::object(None));
    let circle_b = heap.allocate(ScriptObject::object(Some(circle_a)));
    heap.set(root, "held", Value::Object(held), true);
    heap.set(root, "self", Value::Object(root), true);
    heap.set(root, "number", Value::from_i32(1), true);
    heap.set(root, "dangling", Value::Object(500), true);
    heap.objects[held].add_property("p", getter, Some(setter), Attributes::empty());
    heap.objects[held].set_watcher("w", callback, Value::Object(user_data), true);
    heap.set(lonely, "x", Value::Object(held), true);
    heap.set(circle_a, "b", Value::Object(circle_b), true);
    heap.set(circle_b, "root", Value::Object(root), true);
    let roots = vec![root, 9999];
    assert_eq!(mark(&heap, &roots), vec![true, true, true, true, true, true, true, false, false, false]);
    let before: Vec<String> = heap.objects.iter().map(|o| format!("{:?}", o)).collect();
    collect(&mut heap, &roots);
    assert_eq!(heap.len(), 10);
    for living in [root, proto, held, getter, setter, callback, user_data] {
        assert_eq!(format!("{:?}", heap.objects[living]), before[living]);
    }
    for dead in [lonely, circle_a, circle_b] {
        assert!(heap.objects[dead].properties.is_empty());
        assert_eq!(heap.proto(dead), None);
    }
    assert_eq!(mark(&heap, &vec![]), vec![false; 10]);
    assert_eq!(mark(&heap, &vec![circle_b, circle_b]).iter().filter(|m| **m).count(), 1);
    collect(&mut heap, &vec![held]);
    assert!(heap.objects[root].properties.is_empty());
    assert_eq!(format!("{:?}", heap.objects[held]), before[held]);
    assert_eq!(format!("{:?}", heap.objects[user_data]), before[user_data]);
}

#[test]
fn an_object_can_stand_for_a_display_node() {
    let mut object = ScriptObject::object(None);
    object.set("x", Value::from_i32(3));
    assert_eq!(object.display_node(), None);
    assert_eq!(object.type_of(), "object");
    object.set_display_node(12);
    assert_eq!(object.display_node(), Some(12));
    assert_eq!(object.type_of(), "movieclip");
    assert!(object.has_property("x"));
    assert_eq!(ScriptObject::function(None).type_of(), "function");
}
