use avm_core::avm1::coercion::{after_to_string, after_value_of, to_primitive, Conversion, Method};
use avm_core::avm1::heap::Heap;
use avm_core::avm1::object::ScriptObject;
use avm_core::number::Number;
use avm_core::value::{duplicate_values, Value};

fn num(x: f64) -> Value {
    Value::Number(Number::from_bits(x.to_bits()))
}

fn text(v: &Value) -> Option<String> {
    v.to_text()
}

#[test]
fn truth_of_values() {
    assert!(!Value::Undefined.as_bool(7));
    assert!(!Value::Null.as_bool(7));
    assert!(Value::Bool(true).as_bool(7));
    assert!(!Value::Bool(false).as_bool(7));
    assert!(num(1.0).as_bool(7));
    assert!(num(-0.5).as_bool(7));
    assert!(!num(0.0).as_bool(7));
    assert!(!num(-0.0).as_bool(7));
    assert!(!num(f64::NAN).as_bool(7));
    assert!(Value::Object(0).as_bool(7));
}

#[test]
fn truth_of_texts_depends_on_the_version() {
    assert!(Value::from_str("false").as_bool(7));
    assert!(Value::from_str("0").as_bool(7));
    assert!(!Value::from_str("").as_bool(7));
    assert!(!Value::from_str("false").as_bool(6));
    assert!(!Value::from_str("0").as_bool(6));
    assert!(Value::from_str("1").as_bool(6));
    assert!(Value::from_str("-12").as_bool(6));
    assert!(!Value::from_str("").as_bool(6));
}

#[test]
fn values_convert_to_integers() {
    assert_eq!(Value::Undefined.coerce_to_i32(), 0);
    assert_eq!(Value::Null.coerce_to_i32(), 0);
    assert_eq!(Value::Bool(true).coerce_to_i32(), 1);
    assert_eq!(Value::Bool(false).coerce_to_i32(), 0);
    assert_eq!(num(7.9).coerce_to_i32(), 7);
    assert_eq!(Value::from_str("12").coerce_to_i32(), 12);
    assert_eq!(Value::from_str("x").coerce_to_i32(), 0);
    assert_eq!(Value::Object(3).coerce_to_i32(), 0);
    assert_eq!(Value::from_i32(-5).coerce_to_i32(), -5);
}

#[test]
fn values_convert_to_numbers() {
    assert!(Value::Undefined.coerce_to_number(7).is_nan());
    assert!(Value::Undefined.coerce_to_number(6).is_zero());
    assert!(Value::Null.coerce_to_number(7).is_nan());
    assert_eq!(Value::Bool(true).coerce_to_number(7).to_bits(), 1.0f64.to_bits());
    assert_eq!(Value::from_str("-3").coerce_to_number(7).to_bits(), (-3.0f64).to_bits());
    assert!(Value::from_str("abc").coerce_to_number(7).is_nan());
    assert!(Value::Object(1).coerce_to_number(7).is_nan());
    assert_eq!(num(2.5).coerce_to_number(7).to_bits(), 2.5f64.to_bits());
}

#[test]
fn values_have_texts() {
    assert_eq!(text(&Value::Undefined).as_deref(), Some("undefined"));
    assert_eq!(text(&Value::Null).as_deref(), Some("null"));
    assert_eq!(text(&Value::Bool(true)).as_deref(), Some("true"));
    assert_eq!(text(&Value::Bool(false)).as_deref(), Some("false"));
    assert_eq!(text(&num(12.0)).as_deref(), Some("12"));
    assert_eq!(text(&num(-0.0)).as_deref(), Some("0"));
    assert_eq!(text(&num(-7.0)).as_deref(), Some("-7"));
    assert_eq!(text(&num(f64::NAN)).as_deref(), Some("NaN"));
    assert_eq!(text(&num(f64::INFINITY)).as_deref(), Some("Infinity"));
    assert_eq!(text(&num(f64::NEG_INFINITY)).as_deref(), Some("-Infinity"));
    assert_eq!(text(&Value::from_str("héllo")).as_deref(), Some("héllo"));
    assert_eq!(text(&num(1.5)), None);
    assert_eq!(text(&num(1e10)), None);
    assert_eq!(text(&Value::Object(0)), None);
}

#[test]
fn strict_equality_compares_kind_and_content() {
    assert!(Value::Undefined.strict_eq(&Value::Undefined));
    assert!(!Value::Undefined.strict_eq(&Value::Null));
    assert!(Value::from_str("a").strict_eq(&Value::from_str("a")));
    assert!(!Value::from_str("a").strict_eq(&Value::from_str("b")));
    assert!(!Value::from_str("1").strict_eq(&num(1.0)));
    assert!(num(0.0).strict_eq(&num(-0.0)));
    assert!(!num(f64::NAN).strict_eq(&num(f64::NAN)));
    assert!(Value::Object(4).strict_eq(&Value::Object(4)));
    assert!(!Value::Object(4).strict_eq(&Value::Object(5)));
    assert!(Value::Bool(true).strict_eq(&Value::Bool(true)));
}

#[test]
fn type_names_of_primitives() {
    assert_eq!(Value::Undefined.primitive_type_name(), "undefined");
    assert_eq!(Value::Null.primitive_type_name(), "null");
    assert_eq!(Value::Bool(true).primitive_type_name(), "boolean");
    assert_eq!(num(1.0).primitive_type_name(), "number");
    assert_eq!(Value::from_str("").primitive_type_name(), "string");
}

#[test]
fn copies_equal_what_they_copy() {
    let values = vec![Value::Undefined, num(2.5), Value::from_str("x"), Value::Object(9), Value::Null, Value::Bool(true)];
    let copies = duplicate_values(&values);
    assert_eq!(copies.len(), values.len());
    for (a, b) in values.iter().zip(copies.iter()) {
        assert_eq!(format!("{:?}", a), format!("{:?}", b));
    }
    assert_eq!(Value::Object(3).as_object(), Some(3));
    assert_eq!(Value::Null.as_object(), None);
    assert!(Value::Null.is_primitive());
    assert!(!Value::Object(0).is_primitive());
    assert!(Value::Undefined.is_undefined());
}

#[test]
fn objects_convert_by_their_own_methods() {
    let mut heap = Heap::new();
    let value_of = heap.allocate(ScriptObject::function(None));
    let to_string = heap.allocate(ScriptObject::function(None));
    let proto = heap.allocate(ScriptObject::object(None));
    heap.set(proto, "toString", Value::Object(to_string), true);
    let both = heap.allocate(ScriptObject::object(Some(proto)));
    heap.set(both, "valueOf", Value::Object(value_of), true);
    let plain = heap.allocate(ScriptObject::object(None));
    heap.set(plain, "valueOf", Value::from_i32(3), true);
    assert!(matches!(to_primitive(&heap, Value::from_i32(1), true), Ok(Conversion::Done(Value::Number(_)))));
    assert!(matches!(to_primitive(&heap, Value::Object(both), true), Ok(Conversion::Call { function, this, method: Method::ValueOf }) if function == value_of && this == both));
    assert!(matches!(to_primitive(&heap, Value::Object(proto), true), Ok(Conversion::Call { function, this, method: Method::ToString }) if function == to_string && this == proto));
    assert!(matches!(to_primitive(&heap, Value::Object(plain), true), Ok(Conversion::Done(Value::String(s))) if s == "[object Object]"));
    assert!(matches!(to_primitive(&heap, Value::Object(value_of), true), Ok(Conversion::Done(Value::String(s))) if s == "[type Function]"));
    assert!(matches!(to_primitive(&heap, Value::Object(9999), true), Ok(Conversion::Done(Value::String(s))) if s == "[object Object]"));
    assert!(matches!(after_value_of(&heap, both, Some(Value::from_i32(5)), true), Ok(Conversion::Done(Value::Number(_)))));
    assert!(matches!(after_value_of(&heap, both, Some(Value::Object(plain)), true), Ok(Conversion::Call { method: Method::ToString, .. })));
    assert!(matches!(after_value_of(&heap, both, None, true), Ok(Conversion::Call { function, .. }) if function == to_string));
    assert!(matches!(after_value_of(&heap, plain, None, true), Ok(Conversion::Done(Value::String(_)))));
    assert!(matches!(after_to_string(&heap, both, Some(Value::from_str("text"))), Value::String(s) if s == "text"));
    assert!(matches!(after_to_string(&heap, both, Some(Value::Object(plain))), Value::String(s) if s == "[object Object]"));
    assert!(matches!(after_to_string(&heap, value_of, None), Value::String(s) if s == "[type Function]"));
    let circle = heap.allocate(ScriptObject::object(None));
    heap.set_proto(circle, Some(circle));
    assert!(to_primitive(&heap, Value::Object(circle), true).is_err());
}
