use avm_core::avm1::array_object::ArrayObject;
use avm_core::avm1::globals::shared_object::{
    clear, constructor, copy_value, create_local, create_proto, create_shared_object_object, deserialize_value, flush, full_name, get_local,
    choose_loaded, mark_json_arrays, restore_array, serialize_value, Copied, KeptEntry, Loaded,
    shared_object_name, LocalLookup, MovieUrl, SharedObjects, MAX_PERSIST_DEPTH,
};
use avm_core::avm1::globals::shared_object::{
    add_listener, close, connect, get_disk_usage, get_max_size, get_remote, get_size, on_status, on_sync, remove_listener, send,
    set_fps,
};
use avm_core::avm1::heap::Heap;
use avm_core::avm1::object::{ObjectKind, ScriptObject};
use avm_core::avm1::property::Attributes;
use avm_core::number::Number;
use avm_core::value::Value;

fn value_of(copied: Copied) -> Value {
    match copied {
        Copied::Value(v) => v,
        other => panic!("no copy: {:?}", other),
    }
}

fn name(script_name: &str, url: Option<&str>, local: Option<&str>, secure: bool) -> Option<String> {
    shared_object_name(script_name, url, local, secure)
}

/// The data of a value as a text, for comparison: the properties of an object in the order
/// in which enumeration shows them.
fn shape(heap: &Heap, value: &Value) -> String {
    match value {
        Value::Object(o) => {
            let object = heap.object(*o).unwrap();
            let mut parts = vec![];
            for key in object.get_keys() {
                parts.push(format!("{}: {}", key, shape(heap, &object.get_data(&key))));
            }
            match &object.kind {
                ObjectKind::Array => format!("[{}; {}]", object.length(), parts.join(", ")),
                ObjectKind::Date(ms) => format!("date({})", ms.to_bits()),
                ObjectKind::Xml(text) => format!("xml({})", text),
                ObjectKind::Function => "function".to_string(),
                _ => format!("{{{}}}", parts.join(", ")),
            }
        }
        other => format!("{:?}", other),
    }
}

#[test]
fn a_name_is_placed_below_host_and_path() {
    assert_eq!(name("save", Some("https://example.org/games/game.swf"), None, false).as_deref(), Some("example.org/games/game.swf/save"));
    assert_eq!(name("save", Some("http://Example.ORG:8080/game.swf?x=1#frag"), None, false).as_deref(), Some("example.org/game.swf/save"));
    assert_eq!(name("save", Some("https://example.org"), None, false).as_deref(), Some("example.org//save"));
    assert_eq!(name("save", Some("https://example.org/dir/"), None, false).as_deref(), Some("example.org/dir/save"));
    assert_eq!(name("a/b", Some("https://example.org/g.swf"), None, false).as_deref(), Some("example.org/g.swf/#a/b"));
}

#[test]
fn a_movie_without_a_url_is_a_local_file() {
    assert_eq!(name("save", None, None, false).as_deref(), Some("localhost//save"));
    assert_eq!(name("save", Some("file:///home/user/game.swf"), None, false).as_deref(), Some("localhost/home/user/game.swf/save"));
    assert_eq!(name("save", Some("file:///C:/games/game.swf"), None, false).as_deref(), Some("localhost/games/game.swf/save"));
}

#[test]
fn names_with_forbidden_characters_are_refused() {
    for bad in ["a b", "a~", "%41", "a&b", "a\\b", "a;b", "a:b", "\"a\"", "a'b", "a,b", "<a", "a>", "a?", "#a"] {
        assert_eq!(name(bad, Some("https://example.org/g.swf"), None, false), None, "{:?}", bad);
    }
    assert!(name("fine_name-1.sol", Some("https://example.org/g.swf"), None, false).is_some());
}

#[test]
fn a_url_that_cannot_be_parsed_is_refused() {
    assert_eq!(name("save", Some("not a url"), None, false), None);
    assert_eq!(name("save", Some(""), None, false), None);
    assert_eq!(name("save", Some("/relative/path.swf"), None, false), None);
}

#[test]
fn a_secure_shared_object_needs_https() {
    assert_eq!(name("save", Some("http://example.org/g.swf"), None, true), None);
    assert_eq!(name("save", None, None, true), None);
    assert!(name("save", Some("https://example.org/g.swf"), None, true).is_some());
    assert!(name("save", Some("HTTPS://example.org/g.swf"), None, true).is_some());
}

#[test]
fn a_local_path_has_to_lead_to_the_movie() {
    let url = Some("https://example.org/games/puzzle/game.swf");
    assert_eq!(name("s", url, Some("/"), false).as_deref(), Some("example.org//s"));
    assert_eq!(name("s", url, Some("/games"), false).as_deref(), Some("example.org/games/s"));
    assert_eq!(name("s", url, Some("/games/"), false).as_deref(), Some("example.org/games/s"));
    assert_eq!(name("s", url, Some("games/puzzle"), false).as_deref(), Some("example.org/games/puzzle/s"));
    assert_eq!(name("s", url, Some("/games/puzzle/game.swf"), false).as_deref(), Some("example.org/games/puzzle/game.swf/s"));
    assert_eq!(name("s", url, Some(""), false), None);
    assert_eq!(name("s", url, Some("/gam"), false), None);
    assert_eq!(name("s", url, Some("/other"), false), None);
    assert_eq!(name("s", url, Some("/games/puzzle/game.swf/more"), false), None);
}

#[test]
fn hidden_segments_are_refused() {
    assert_eq!(name(".hidden", Some("https://example.org/g.swf"), None, false), None);
    assert_eq!(name("a/.b", Some("https://example.org/g.swf"), None, false), None);
    assert_eq!(name("a/../b", Some("https://example.org/g.swf"), None, false), None);
    assert_eq!(name("s", Some("https://example.org/.config/g.swf"), None, false), None);
    assert!(name("a.b", Some("https://example.org/g.swf"), None, false).is_some());
}

#[test]
fn a_name_from_the_parts_of_a_url() {
    let url = MovieUrl { scheme: "ftp".to_string(), host: None, path: "/a/b/".to_string() };
    assert_eq!(full_name("n", Some(&url), None, false).as_deref(), Some("/a/b/n"));
    assert_eq!(full_name("n", None, None, false), None);
    let file = MovieUrl { scheme: "file".to_string(), host: Some("ignored".to_string()), path: "/é:/x".to_string() };
    assert_eq!(full_name("n", Some(&file), None, false).as_deref(), Some("localhost/é:/x/n"));
    let dotted = MovieUrl { scheme: "http".to_string(), host: Some(".host".to_string()), path: "/p".to_string() };
    assert_eq!(full_name("n", Some(&dotted), None, false), None);
}

fn sample(heap: &mut Heap) -> usize {
    let proto = heap.allocate(ScriptObject::object(None));
    let inner = heap.allocate(ScriptObject::object(Some(proto)));
    heap.set(inner, "x", Value::from_i32(1), true);
    heap.set(inner, "y", Value::Number(Number::from_bits(2.5f64.to_bits())), true);
    let function = heap.allocate(ScriptObject::function(None));
    let array = ArrayObject::new(heap, proto, &vec![Value::from_str("a"), Value::Object(inner), Value::Null]);
    heap.set(array.0, "note", Value::Bool(true), true);
    let date = heap.allocate(ScriptObject::new(None, ObjectKind::Date(Number::from_bits(1e12f64.to_bits()))));
    let xml = heap.allocate(ScriptObject::new(None, ObjectKind::Xml("<a/>".to_string())));
    let root = heap.allocate(ScriptObject::object(Some(proto)));
    heap.set(root, "name", Value::from_str("player"), true);
    heap.set(root, "score", Value::from_i32(-7), true);
    heap.set(root, "items", Value::Object(array.0), true);
    heap.set(root, "callback", Value::Object(function), true);
    heap.set(root, "when", Value::Object(date), true);
    heap.set(root, "doc", Value::Object(xml), true);
    heap.set(root, "nothing", Value::Undefined, true);
    heap.set(root, "dangling", Value::Object(100_000), true);
    heap.define_value(root, "hidden", Value::from_i32(1), Attributes { dont_enum: true, dont_delete: false, read_only: false });
    heap.set(proto, "inherited", Value::from_i32(1), true);
    root
}

#[test]
fn what_is_written_out_and_read_back_is_the_same_data() {
    let mut heap = Heap::new();
    let root = sample(&mut heap);
    let mut kept = Heap::new();
    let copy = value_of(serialize_value(&heap, &Value::Object(root), &mut kept));
    let object_proto = heap.allocate(ScriptObject::object(None));
    let array_proto = heap.allocate(ScriptObject::object(None));
    let restored = deserialize_value(&kept, &copy, &mut heap, object_proto, array_proto).unwrap();
    let written = shape(&kept, &copy);
    assert_eq!(shape(&heap, &restored), written);
    assert_eq!(
        written,
        format!(
            "{{nothing: Undefined, doc: xml(<a/>), when: date({}), items: [3; note: Bool(true), 2: Null, 1: {{y: {:?}, x: {:?}}}, 0: {:?}], score: {:?}, name: {:?}}}",
            1e12f64.to_bits(),
            Value::Number(Number::from_bits(2.5f64.to_bits())),
            Value::from_i32(1),
            Value::from_str("a"),
            Value::from_i32(-7),
            Value::from_str("player"),
        )
    );
    let restored_id = restored.as_object().unwrap();
    assert_ne!(restored_id, root);
    assert_eq!(heap.proto(restored_id), Some(object_proto));
    let items = heap.object(restored_id).unwrap().get_data("items").as_object().unwrap();
    assert_eq!(heap.proto(items), Some(array_proto));
    assert_eq!(ArrayObject(items).length(&heap), 3);
    assert_eq!(format!("{:?}", ArrayObject(items).get_element(&heap, 0)), format!("{:?}", Value::from_str("a")));
    assert!(!heap.has_property(restored_id, "callback", true));
    assert!(!heap.has_property(restored_id, "hidden", true));
}

#[test]
fn writing_out_twice_gives_the_first_order_back() {
    let mut heap = Heap::new();
    let root = sample(&mut heap);
    let mut once = Heap::new();
    let first = value_of(serialize_value(&heap, &Value::Object(root), &mut once));
    let mut twice = Heap::new();
    let second = value_of(serialize_value(&once, &first, &mut twice));
    let mut plain = Heap::new();
    let forward = value_of(copy_value(&heap, &Value::Object(root), &mut plain, MAX_PERSIST_DEPTH, false, None, None));
    assert_eq!(shape(&twice, &second), shape(&plain, &forward));
    assert!(shape(&plain, &forward).starts_with("{name: "));
}

#[test]
fn nothing_is_kept_of_functions_and_of_what_is_not_there() {
    let mut heap = Heap::new();
    let function = heap.allocate(ScriptObject::function(None));
    let mut kept = Heap::new();
    assert!(matches!(serialize_value(&heap, &Value::Object(function), &mut kept), Copied::Nothing));
    assert!(matches!(serialize_value(&heap, &Value::Object(55), &mut kept), Copied::Nothing));
    assert_eq!(kept.len(), 0);
    assert!(matches!(serialize_value(&heap, &Value::from_i32(3), &mut kept), Copied::Value(Value::Number(_))));
    let back = deserialize_value(&heap, &Value::Object(function), &mut kept, 0, 0);
    assert!(back.unwrap().is_undefined());
}

#[test]
fn a_date_without_a_valid_time_is_not_kept() {
    let mut heap = Heap::new();
    let valid = heap.allocate(ScriptObject::new(None, ObjectKind::Date(Number::from_bits(0f64.to_bits()))));
    let invalid = heap.allocate(ScriptObject::new(None, ObjectKind::Date(Number::nan())));
    let endless = heap.allocate(ScriptObject::new(None, ObjectKind::Date(Number::from_bits(f64::INFINITY.to_bits()))));
    let root = heap.allocate(ScriptObject::object(None));
    heap.set(root, "valid", Value::Object(valid), true);
    heap.set(root, "invalid", Value::Object(invalid), true);
    heap.set(root, "endless", Value::Object(endless), true);
    let mut kept = Heap::new();
    let copy = value_of(serialize_value(&heap, &Value::Object(root), &mut kept));
    assert_eq!(shape(&kept, &copy), format!("{{valid: date({})}}", 0f64.to_bits()));
    assert!(matches!(serialize_value(&heap, &Value::Object(invalid), &mut kept), Copied::Nothing));
    assert!(matches!(copy_value(&heap, &Value::Object(valid), &mut kept, 0, false, None, None), Copied::Value(_)));
}

#[test]
fn data_that_are_nested_deep_are_kept_whole() {
    let mut heap = Heap::new();
    let mut inner = heap.allocate(ScriptObject::object(None));
    heap.set(inner, "leaf", Value::from_i32(9), true);
    let levels = MAX_PERSIST_DEPTH as usize;
    for _ in 1..levels {
        let outer = heap.allocate(ScriptObject::object(None));
        heap.set(outer, "in", Value::Object(inner), true);
        inner = outer;
    }
    let mut kept = Heap::new();
    let copy = value_of(serialize_value(&heap, &Value::Object(inner), &mut kept));
    assert_eq!(kept.len(), levels);
    let mut back = Heap::new();
    let restored = deserialize_value(&kept, &copy, &mut back, 0, 0).unwrap();
    assert_eq!(shape(&back, &restored), shape(&heap, &Value::Object(inner)));
    let mut at = restored.as_object().unwrap();
    for _ in 1..levels {
        at = back.object(at).unwrap().get_data("in").as_object().unwrap();
    }
    assert_eq!(format!("{:?}", back.object(at).unwrap().get_data("leaf")), format!("{:?}", Value::from_i32(9)));
    let outer = heap.allocate(ScriptObject::object(None));
    heap.set(outer, "in", Value::Object(inner), true);
    let mut more = Heap::new();
    assert!(matches!(serialize_value(&heap, &Value::Object(outer), &mut more), Copied::TooDeep));
    assert!(deserialize_value(&heap, &Value::Object(outer), &mut more, 0, 0).is_none());
}

#[test]
fn a_kept_array_is_restored_through_its_elements() {
    let mut kept = Heap::new();
    let entries = vec![
        KeptEntry { name: "0".to_string(), value: Value::from_str("a") },
        KeptEntry { name: "5".to_string(), value: Value::from_str("f") },
        KeptEntry { name: "note".to_string(), value: Value::Bool(true) },
        KeptEntry { name: "1".to_string(), value: Value::from_str("b") },
    ];
    let array = restore_array(&mut kept, None, 2, &entries);
    assert_eq!(ArrayObject(array).length(&kept), 6);
    assert_eq!(format!("{:?}", ArrayObject(array).get_element(&kept, 5)), format!("{:?}", Value::from_str("f")));
    assert_eq!(format!("{:?}", ArrayObject(array).get_element(&kept, 1)), format!("{:?}", Value::from_str("b")));
    assert_eq!(format!("{:?}", kept.object(array).unwrap().get_data("note")), format!("{:?}", Value::Bool(true)));
    assert!(matches!(kept.object(array).unwrap().kind, ObjectKind::Array));
    let longer = restore_array(&mut kept, Some(array), 10, &entries);
    assert_eq!(ArrayObject(longer).length(&kept), 10);
    assert_eq!(kept.proto(longer), Some(array));
    let empty = restore_array(&mut kept, None, -4, &vec![]);
    assert_eq!(ArrayObject(empty).length(&kept), 0);
}

#[test]
fn the_binary_format_is_read_before_the_text_format() {
    let loaded = |n: i32| {
        let mut kept = Heap::new();
        let marked = kept.allocate(ScriptObject::object(None));
        kept.set(marked, "__proto__", Value::from_str("Array"), true);
        kept.set(marked, "0", Value::from_i32(n), true);
        Loaded { kept, root: Value::Object(marked) }
    };
    let both = choose_loaded(Some(loaded(1)), Some(loaded(2))).unwrap();
    let root = both.root.as_object().unwrap();
    assert_eq!(format!("{:?}", both.kept.object(root).unwrap().get_data("0")), format!("{:?}", Value::from_i32(1)));
    assert!(matches!(both.kept.object(root).unwrap().kind, ObjectKind::Object));
    let text = choose_loaded(None, Some(loaded(2))).unwrap();
    let root = text.root.as_object().unwrap();
    assert!(matches!(text.kept.object(root).unwrap().kind, ObjectKind::Array));
    assert_eq!(ArrayObject(root).length(&text.kept), 1);
    assert!(choose_loaded(None, None).is_none());
}

#[test]
fn a_graph_that_runs_in_a_circle_is_reported_as_too_deep() {
    let mut heap = Heap::new();
    let a = heap.allocate(ScriptObject::object(None));
    let b = heap.allocate(ScriptObject::object(None));
    heap.set(a, "b", Value::Object(b), true);
    heap.set(b, "a", Value::Object(a), true);
    heap.set(a, "mark", Value::from_i32(1), true);
    let mut kept = Heap::new();
    assert!(matches!(serialize_value(&heap, &Value::Object(a), &mut kept), Copied::TooDeep));
    assert!(deserialize_value(&heap, &Value::Object(a), &mut kept, 0, 0).is_none());
    let mut shallow = Heap::new();
    assert!(matches!(copy_value(&heap, &Value::Object(a), &mut shallow, 2, false, None, None), Copied::TooDeep));
    assert!(matches!(copy_value(&heap, &Value::Object(a), &mut shallow, 0, false, None, None), Copied::TooDeep));
    heap.set(b, "a", Value::Null, true);
    let copy = value_of(copy_value(&heap, &Value::Object(a), &mut shallow, 2, false, None, None));
    assert_eq!(shape(&shallow, &copy), format!("{{b: {{a: Null}}, mark: {:?}}}", Value::from_i32(1)));
    assert!(matches!(copy_value(&heap, &Value::Object(a), &mut shallow, 1, false, None, None), Copied::TooDeep));
}

#[test]
fn get_local_finds_or_names_a_shared_object() {
    let mut registry = SharedObjects::new();
    let url = Some("https://example.org/g.swf");
    let args = vec![Value::from_str("save")];
    match get_local(&registry, "save", &args, url, 7) {
        LocalLookup::Load(name) => assert_eq!(name, "example.org/g.swf/save"),
        other => panic!("{:?}", other),
    }
    registry.insert("example.org/g.swf/save".to_string(), 12);
    assert!(matches!(get_local(&registry, "save", &args, url, 7), LocalLookup::Existing(12)));
    assert_eq!(registry.get("example.org/g.swf/save"), Some(12));
    assert_eq!(registry.get("other"), None);
    assert!(matches!(get_local(&registry, "bad name", &vec![Value::from_str("bad name")], url, 7), LocalLookup::Invalid));
    match get_local(&registry, "2.5", &vec![Value::Number(Number::from_bits(2.5f64.to_bits()))], url, 7) {
        LocalLookup::Load(name) => assert_eq!(name, "example.org/g.swf/2.5"),
        other => panic!("{:?}", other),
    }
    match get_local(&registry, "textOfAnObject", &vec![Value::Object(1)], url, 7) {
        LocalLookup::Load(name) => assert_eq!(name, "example.org/g.swf/textOfAnObject"),
        other => panic!("{:?}", other),
    }
    assert!(matches!(get_local(&registry, "[object Object]", &vec![Value::Object(1)], url, 7), LocalLookup::Invalid));
    assert!(matches!(get_local(&registry, "s", &vec![Value::from_str("s"), Value::from_str("/nope")], url, 7), LocalLookup::Invalid));
    assert!(matches!(get_local(&registry, "s", &vec![Value::from_str("s"), Value::Null, Value::Bool(true)], Some("http://example.org/g.swf"), 7), LocalLookup::Invalid));
    match get_local(&registry, "undefined", &vec![], url, 7) {
        LocalLookup::Load(name) => assert_eq!(name, "example.org/g.swf/undefined"),
        other => panic!("{:?}", other),
    }
    match get_local(&registry, "12", &vec![Value::from_i32(12), Value::from_i32(3), Value::from_str("")], url, 7) {
        LocalLookup::Load(name) => assert_eq!(name, "example.org/g.swf/12"),
        other => panic!("{:?}", other),
    }
}

#[test]
fn a_new_shared_object_holds_the_data_that_was_loaded() {
    let mut heap = Heap::new();
    let so_proto = heap.allocate(ScriptObject::object(None));
    let object_proto = heap.allocate(ScriptObject::object(None));
    let array_proto = heap.allocate(ScriptObject::object(None));
    let mut registry = SharedObjects::new();
    let fresh = create_local(&mut heap, &mut registry, "host/p/fresh".to_string(), None, so_proto, object_proto, array_proto);
    let data = heap.object(fresh).unwrap().get_data("data").as_object().unwrap();
    assert!(heap.get_keys(data).is_empty());
    assert_eq!(heap.proto(data), Some(object_proto));
    assert_eq!(heap.proto(fresh), Some(so_proto));
    assert!(!heap.delete(fresh, "data", true));
    assert_eq!(registry.get("host/p/fresh"), Some(fresh));
    let mut kept = Heap::new();
    let saved = kept.allocate(ScriptObject::object(None));
    kept.set(saved, "level", Value::from_i32(3), true);
    let loaded = create_local(&mut heap, &mut registry, "host/p/old".to_string(), Some((&kept, &Value::Object(saved))), so_proto, object_proto, array_proto);
    let data = heap.object(loaded).unwrap().get_data("data");
    assert_eq!(shape(&heap, &data), format!("{{level: {:?}}}", Value::from_i32(3)));
    let nothing = create_local(&mut heap, &mut registry, "host/p/none".to_string(), Some((&kept, &Value::Undefined)), so_proto, object_proto, array_proto);
    let data = heap.object(nothing).unwrap().get_data("data").as_object().unwrap();
    assert!(heap.get_keys(data).is_empty());
    assert_eq!(registry.entries.len(), 3);
    assert_eq!(registry.entries[1].name, "host/p/old");
}

#[test]
fn flush_writes_out_the_data() {
    let mut heap = Heap::new();
    let mut registry = SharedObjects::new();
    let this = create_local(&mut heap, &mut registry, "example.org/dir/game.swf/save".to_string(), None, 0, 0, 0);
    let data = heap.object(this).unwrap().get_data("data").as_object().unwrap();
    heap.set(data, "a", Value::from_i32(1), true);
    heap.set(data, "b", Value::from_str("two"), true);
    let flushed = flush(&heap, this).unwrap();
    assert_eq!(flushed.name, "example.org/dir/game.swf/save");
    assert_eq!(flushed.lso_name, "save");
    assert_eq!(shape(&flushed.kept, &value_of(flushed.data)), format!("{{b: {:?}, a: {:?}}}", Value::from_str("two"), Value::from_i32(1)));
    assert!(flush(&heap, data).is_none());
    assert!(flush(&heap, 9999).is_none());
    let plain = heap.allocate(ScriptObject::new(None, ObjectKind::SharedObject("no_slash".to_string())));
    let flushed = flush(&heap, plain).unwrap();
    assert_eq!(flushed.lso_name, "no_slash");
    assert!(matches!(flushed.data, Copied::Value(Value::Undefined)));
    let ends = heap.allocate(ScriptObject::new(None, ObjectKind::SharedObject("a/b/".to_string())));
    assert_eq!(flush(&heap, ends).unwrap().lso_name, "");
}

#[test]
fn clear_deletes_the_data() {
    let mut heap = Heap::new();
    let mut registry = SharedObjects::new();
    let this = create_local(&mut heap, &mut registry, "h/p/n".to_string(), None, 0, 0, 0);
    let data = heap.object(this).unwrap().get_data("data").as_object().unwrap();
    heap.set(data, "a", Value::from_i32(1), true);
    heap.set(data, "b", Value::from_i32(2), true);
    heap.define_value(data, "fixed", Value::from_i32(3), Attributes { dont_enum: false, dont_delete: true, read_only: false });
    assert_eq!(clear(&mut heap, this).as_deref(), Some("h/p/n"));
    assert_eq!(heap.get_keys(data), vec!["fixed".to_string()]);
    assert!(heap.has_property(this, "data", true));
    assert_eq!(clear(&mut heap, data), None);
    assert_eq!(clear(&mut heap, 12345), None);
}

#[test]
fn what_is_not_there_yet_answers_undefined() {
    let args = vec![Value::from_i32(1)];
    for f in [
        get_disk_usage, get_remote, get_max_size, add_listener, remove_listener, close, connect, get_size, send, set_fps,
        on_status, on_sync,
    ] {
        assert!(f(3, &args).is_undefined());
    }
    assert_eq!(constructor(5).as_object(), Some(5));
}

#[test]
fn objects_of_the_older_format_that_stand_for_arrays_become_arrays() {
    let mut kept = Heap::new();
    let plain = kept.allocate(ScriptObject::object(None));
    kept.set(plain, "length", Value::from_i32(9), true);
    kept.set(plain, "0", Value::from_str("not an element"), true);
    let marked = kept.allocate(ScriptObject::object(None));
    kept.set(marked, "1", Value::from_str("b"), true);
    kept.set(marked, "__proto__", Value::from_str("Array"), true);
    kept.set(marked, "0", Value::from_str("a"), true);
    kept.set(marked, "length", Value::from_i32(2), true);
    kept.set(marked, "5", Value::from_str("f"), true);
    kept.set(marked, "tag", Value::Object(plain), true);
    let odd = kept.allocate(ScriptObject::object(None));
    kept.set(odd, "__proto__", Value::from_str("Array"), true);
    kept.set(odd, "length", Value::Number(Number::from_bits(2.5f64.to_bits())), true);
    let other = kept.allocate(ScriptObject::object(None));
    kept.set(other, "__proto__", Value::from_str("Object"), true);
    mark_json_arrays(&mut kept);
    assert!(matches!(kept.object(plain).unwrap().kind, ObjectKind::Object));
    assert_eq!(kept.get_keys(plain), vec!["length".to_string(), "0".to_string()]);
    assert!(matches!(kept.object(marked).unwrap().kind, ObjectKind::Array));
    assert_eq!(kept.get_keys(marked), vec!["1".to_string(), "0".to_string(), "5".to_string(), "tag".to_string()]);
    assert_eq!(ArrayObject(marked).length(&kept), 6);
    assert!(!kept.has_property(marked, "__proto__", true));
    assert!(matches!(kept.object(odd).unwrap().kind, ObjectKind::Array));
    assert_eq!(ArrayObject(odd).length(&kept), 0);
    assert!(matches!(kept.object(other).unwrap().kind, ObjectKind::Object));
    assert!(kept.has_property(other, "__proto__", true));
    let mut heap = Heap::new();
    let restored = deserialize_value(&kept, &Value::Object(marked), &mut heap, 0, 0).unwrap();
    assert_eq!(
        shape(&heap, &restored),
        format!("[6; 1: {:?}, 0: {:?}, 5: {:?}, tag: {{length: {:?}, 0: {:?}}}]", Value::from_str("b"), Value::from_str("a"), Value::from_str("f"), Value::from_i32(9), Value::from_str("not an element"))
    );
}

#[test]
fn shared_objects_have_their_methods() {
    let mut heap = Heap::new();
    let object_proto = heap.allocate(ScriptObject::object(None));
    let fn_proto = heap.allocate(ScriptObject::object(None));
    let proto = create_proto(&mut heap, object_proto, fn_proto);
    assert_eq!(heap.get_keys(proto), ["clear", "close", "connect", "flush", "getSize", "send", "setFps", "onStatus", "onSync"].map(String::from).to_vec());
    assert_eq!(heap.proto(proto), Some(object_proto));
    assert!(matches!(heap.object(proto).unwrap().kind, ObjectKind::SharedObject(_)));
    let constructor = create_shared_object_object(&mut heap, proto, fn_proto);
    assert_eq!(
        heap.get_keys(constructor),
        ["deleteAll", "getDiskUsage", "getLocal", "getRemote", "getMaxSize", "addListener", "removeListener"].map(String::from).to_vec()
    );
    assert_eq!(heap.object(constructor).unwrap().get_data("prototype").as_object(), Some(proto));
    assert_eq!(heap.object(constructor).unwrap().type_of(), "function");
    let mut seen = vec![];
    for holder in [proto, constructor] {
        for key in heap.get_keys(holder) {
            let function = heap.object(holder).unwrap().get_data(&key).as_object().unwrap();
            assert_eq!(heap.object(function).unwrap().type_of(), "function");
            assert_eq!(heap.proto(function), Some(fn_proto));
            assert!(!seen.contains(&function));
            seen.push(function);
        }
    }
    assert_eq!(seen.len(), 16);
}
