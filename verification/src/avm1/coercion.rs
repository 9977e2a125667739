//! The conversion of objects to primitive values.
//!
//! An object is converted by its own methods: first `valueOf`, then
//! `toString`. These are script code, so the conversion does not run them:
//! it says which call comes next, and goes on when it is told how the call
//! ended.

use crate::avm1::error::{Error, ErrorView};
use crate::avm1::heap::{get_spec, outcome_view, Heap, ReturnValue, ReturnView};
use crate::avm1::object::{KindView, ObjectKind, ObjectView};
use crate::value::{ObjectId, Value, ValueView};
use vstd::prelude::*;

verus! {

/// Which method of an object a conversion calls.
#[derive(Clone, Copy, Debug, PartialEq, Eq, Structural)]
pub enum Method {
    ValueOf,
    ToString,
}

/// How a conversion goes on.
#[derive(Debug)]
pub enum Conversion {
    /// It is done: this is the primitive value.
    Done(Value),
    /// A method of the object is to be called on it.
    Call { function: ObjectId, this: ObjectId, method: Method },
}

pub enum ConversionView {
    Done(ValueView),
    Call { function: ObjectId, this: ObjectId, method: Method },
}

impl View for Conversion {
    type V = ConversionView;

    open spec fn view(&self) -> ConversionView {
        match self {
            Conversion::Done(v) => ConversionView::Done(v@),
            Conversion::Call { function, this, method } => ConversionView::Call {
                function: *function,
                this: *this,
                method: *method,
            },
        }
    }
}

/// The view of the outcome of a step of a conversion.
pub open spec fn step_view(r: Result<Conversion, Error>) -> Result<ConversionView, ErrorView> {
    match r {
        Ok(c) => Ok(c@),
        Err(e) => Err(e@),
    }
}

/// The text of an object that has no method to give one.
pub open spec fn default_text(heap: Seq<ObjectView>, obj: ObjectId) -> Seq<char> {
    if obj < heap.len() && heap[obj as int].kind is Function {
        "[type Function]"@
    } else {
        "[object Object]"@
    }
}

/// The function that an object has as a method: the object that it or one
/// of its prototypes holds under the name, if that is a function. An error
/// where the chain of prototypes is too long.
pub open spec fn method_of(
    heap: Seq<ObjectView>,
    obj: ObjectId,
    name: Seq<char>,
    case_sensitive: bool,
) -> Result<Option<ObjectId>, ErrorView> {
    match get_spec(heap, obj, name, case_sensitive) {
        Ok(ReturnView::Immediate(ValueView::Object(f))) => if f < heap.len() && heap[f as int].kind
            is Function {
            Ok(Some(f))
        } else {
            Ok(None)
        },
        Ok(_) => Ok(None),
        Err(e) => Err(e),
    }
}

/// How the conversion of an object goes on after `valueOf`. `result` is the
/// value that `valueOf` returned; there is none where the object has no such
/// method or where the method threw. A primitive result ends the conversion;
/// else `toString` is called; without it the conversion ends with the
/// default text.
pub open spec fn after_value_of_spec(
    heap: Seq<ObjectView>,
    obj: ObjectId,
    result: Option<ValueView>,
    case_sensitive: bool,
) -> Result<ConversionView, ErrorView> {
    match result {
        Some(v) => if !(v is Object) {
            Ok(ConversionView::Done(v))
        } else {
            to_string_step(heap, obj, case_sensitive)
        },
        None => to_string_step(heap, obj, case_sensitive),
    }
}

/// The call of `toString`, or the default text in its place.
pub open spec fn to_string_step(heap: Seq<ObjectView>, obj: ObjectId, case_sensitive: bool) -> Result<
    ConversionView,
    ErrorView,
> {
    match method_of(heap, obj, "toString"@, case_sensitive) {
        Ok(Some(function)) => Ok(
            ConversionView::Call { function, this: obj, method: Method::ToString },
        ),
        Ok(None) => Ok(ConversionView::Done(ValueView::String(default_text(heap, obj)))),
        Err(e) => Err(e),
    }
}

/// How the conversion of a value begins: a primitive value is its own
/// conversion; for an object `valueOf` is called, and what follows
/// `valueOf` where it has none.
pub open spec fn to_primitive_spec(heap: Seq<ObjectView>, value: ValueView, case_sensitive: bool) -> Result<
    ConversionView,
    ErrorView,
> {
    match value {
        ValueView::Object(obj) => match method_of(heap, obj, "valueOf"@, case_sensitive) {
            Ok(Some(function)) => Ok(
                ConversionView::Call { function, this: obj, method: Method::ValueOf },
            ),
            Ok(None) => after_value_of_spec(heap, obj, None, case_sensitive),
            Err(e) => Err(e),
        },
        _ => Ok(ConversionView::Done(value)),
    }
}

/// The end of the conversion of an object after `toString`: the value that
/// `toString` returned if it is primitive, and the default text where it is
/// not or where the method threw.
pub open spec fn after_to_string_spec(
    heap: Seq<ObjectView>,
    obj: ObjectId,
    result: Option<ValueView>,
) -> ValueView {
    match result {
        Some(v) => if !(v is Object) {
            v
        } else {
            ValueView::String(default_text(heap, obj))
        },
        None => ValueView::String(default_text(heap, obj)),
    }
}

fn method(heap: &Heap, obj: ObjectId, name: &str, case_sensitive: bool) -> (r: Result<
    Option<ObjectId>,
    Error,
>)
    ensures
        match method_of(heap@, obj, name@, case_sensitive) {
            Ok(f) => r matches Ok(x) && x == f,
            Err(e) => r matches Err(x) && x@ == e,
        },
{
    match heap.get(obj, name, case_sensitive) {
        Ok(ReturnValue::Immediate(Value::Object(f))) => {
            match heap.object(f) {
                Some(object) => match object.kind {
                    ObjectKind::Function => Ok(Some(f)),
                    _ => Ok(None),
                },
                None => Ok(None),
            }
        },
        Ok(_) => Ok(None),
        Err(e) => Err(e),
    }
}

fn default_text_of(heap: &Heap, obj: ObjectId) -> (r: Value)
    ensures
        r@ == ValueView::String(default_text(heap@, obj)),
{
    let is_function: bool = match heap.object(obj) {
        Some(object) => match object.kind {
            ObjectKind::Function => true,
            _ => false,
        },
        None => false,
    };
    if is_function {
        Value::from_str("[type Function]")
    } else {
        Value::from_str("[object Object]")
    }
}

/// Begins the conversion of an object to a text: the call of `toString`, or
/// the default text in its place.
pub fn to_string_call(heap: &Heap, obj: ObjectId, case_sensitive: bool) -> (r: Result<Conversion, Error>)
    ensures
        step_view(r) == to_string_step(heap@, obj, case_sensitive),
{
    match method(heap, obj, "toString", case_sensitive) {
        Ok(Some(function)) => Ok(Conversion::Call { function, this: obj, method: Method::ToString }),
        Ok(None) => Ok(Conversion::Done(default_text_of(heap, obj))),
        Err(e) => Err(e),
    }
}

/// Begins the conversion of a value to a primitive value.
pub fn to_primitive(heap: &Heap, value: Value, case_sensitive: bool) -> (r: Result<
    Conversion,
    Error,
>)
    ensures
        step_view(r) == to_primitive_spec(heap@, value@, case_sensitive),
{
    match value {
        Value::Object(obj) => match method(heap, obj, "valueOf", case_sensitive) {
            Ok(Some(function)) => Ok(
                Conversion::Call { function, this: obj, method: Method::ValueOf },
            ),
            Ok(None) => to_string_call(heap, obj, case_sensitive),
            Err(e) => Err(e),
        },
        other => Ok(Conversion::Done(other)),
    }
}

/// Goes on with the conversion of an object after `valueOf`.
pub fn after_value_of(heap: &Heap, obj: ObjectId, result: Option<Value>, case_sensitive: bool) -> (r:
    Result<Conversion, Error>)
    ensures
        step_view(r) == after_value_of_spec(
            heap@,
            obj,
            match result {
                Some(v) => Some(v@),
                None => None,
            },
            case_sensitive,
        ),
{
    match result {
        Some(Value::Object(_)) => to_string_call(heap, obj, case_sensitive),
        Some(v) => Ok(Conversion::Done(v)),
        None => to_string_call(heap, obj, case_sensitive),
    }
}

/// Ends the conversion of an object after `toString`.
pub fn after_to_string(heap: &Heap, obj: ObjectId, result: Option<Value>) -> (r: Value)
    ensures
        r@ == after_to_string_spec(
            heap@,
            obj,
            match result {
                Some(v) => Some(v@),
                None => None,
            },
        ),
{
    match result {
        Some(Value::Object(_)) => default_text_of(heap, obj),
        Some(v) => v,
        None => default_text_of(heap, obj),
    }
}

/// A conversion ends with a primitive value.
pub proof fn lemma_conversion_is_primitive(
    heap: Seq<ObjectView>,
    value: ValueView,
    obj: ObjectId,
    result: Option<ValueView>,
    case_sensitive: bool,
)
    ensures
        to_primitive_spec(heap, value, case_sensitive) matches Ok(ConversionView::Done(v)) ==> !(v
            is Object),
        after_value_of_spec(heap, obj, result, case_sensitive) matches Ok(
            ConversionView::Done(v),
        ) ==> !(v is Object),
        !(after_to_string_spec(heap, obj, result) is Object),
{
}

} // verus!
