//! The `Error` objects of scripts.

use crate::avm1::heap::{get_spec, set_result, set_spec, Heap, ReturnValue, ReturnView};
use crate::avm1::object::{KindView, ObjectView, ScriptObject};
use crate::avm1::property::{Attributes, PropertyView};
use crate::value::{values_view, ObjectId, Value, ValueView};
use vstd::prelude::*;

verus! {

/// The prototype of errors: its message and its name are `Error`, and its
/// `toString` is the function that was made for it.
pub open spec fn error_proto(proto: ObjectId, to_string: ObjectId) -> ObjectView {
    ObjectView {
        properties: seq![
            crate::avm1::object::EntryView {
                name: "message"@,
                property: PropertyView::Stored {
                    value: ValueView::String("Error"@),
                    attributes: Attributes::empty_spec(),
                },
            },
            crate::avm1::object::EntryView {
                name: "name"@,
                property: PropertyView::Stored {
                    value: ValueView::String("Error"@),
                    attributes: Attributes::empty_spec(),
                },
            },
            crate::avm1::object::EntryView {
                name: "toString"@,
                property: PropertyView::Stored {
                    value: ValueView::Object(to_string),
                    attributes: Attributes { dont_enum: true, dont_delete: true, read_only: true },
                },
            },
        ],
        proto: Some(proto),
        kind: KindView::Object,
        watchers: Seq::empty(),
    }
}

/// The constructor of errors: stores the first argument as the message of
/// the new error, unless there is none or it is `Undefined`.
pub fn constructor(heap: &mut Heap, this: ObjectId, args: &Vec<Value>, case_sensitive: bool) -> (r:
    ReturnValue)
    ensures
        args@.len() > 0 && args@[0]@ != ValueView::Undefined ==> final(heap)@ == set_spec(
            old(heap)@,
            this,
            "message"@,
            args@[0]@,
            case_sensitive,
        ) && r@ == set_result(old(heap)@, this, "message"@, args@[0]@, case_sensitive),
        !(args@.len() > 0 && args@[0]@ != ValueView::Undefined) ==> final(heap)@ == old(heap)@
            && r@ == ReturnView::Immediate(ValueView::Undefined),
{
    if args.len() > 0 && !args[0].is_undefined() {
        heap.set(this, "message", args[0].duplicate(), case_sensitive)
    } else {
        ReturnValue::Immediate(Value::Undefined)
    }
}

/// Makes the prototype of errors, and the function object of its
/// `toString`. Returns the prototype.
pub fn create_proto(heap: &mut Heap, proto: ObjectId, fn_proto: ObjectId) -> (r: ObjectId)
    ensures
        r == old(heap)@.len() + 1,
        final(heap)@ == old(heap)@.push(
            ObjectView {
                properties: Seq::empty(),
                proto: Some(fn_proto),
                kind: KindView::Function,
                watchers: Seq::empty(),
            },
        ).push(error_proto(proto, old(heap)@.len() as usize)),
{
    let to_string = heap.allocate(ScriptObject::function(Some(fn_proto)));
    let mut object = ScriptObject::object(Some(proto));
    assert(object@.properties.len() == 0);
    assert(object.properties@.len() == 0);
    proof {
        reveal_strlit("message");
        reveal_strlit("name");
        reveal_strlit("toString");
    }
    object.properties.push(
        crate::avm1::object::PropertyEntry {
            name: String::from_str("message"),
            property: crate::avm1::property::Property::Stored {
                value: Value::from_str("Error"),
                attributes: Attributes::empty(),
            },
        },
    );
    object.properties.push(
        crate::avm1::object::PropertyEntry {
            name: String::from_str("name"),
            property: crate::avm1::property::Property::Stored {
                value: Value::from_str("Error"),
                attributes: Attributes::empty(),
            },
        },
    );
    object.properties.push(
        crate::avm1::object::PropertyEntry {
            name: String::from_str("toString"),
            property: crate::avm1::property::Property::Stored {
                value: Value::Object(to_string),
                attributes: Attributes { dont_enum: true, dont_delete: true, read_only: true },
            },
        },
    );
    assert(object@.properties =~= error_proto(proto, to_string).properties);
    assert(object@.watchers =~= error_proto(proto, to_string).watchers);
    heap.allocate(object)
}

/// `toString` of an error: its message. What comes back is the message as
/// it is read from the error: a value, or the call of a getter.
pub fn to_string(heap: &Heap, this: ObjectId, case_sensitive: bool) -> (r: Result<
    ReturnValue,
    crate::avm1::error::Error,
>)
    ensures
        crate::avm1::heap::outcome_view(r) == get_spec(heap@, this, "message"@, case_sensitive),
{
    heap.get(this, "message", case_sensitive)
}

} // verus!
