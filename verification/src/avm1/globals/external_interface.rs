//! `ExternalInterface`: calls between scripts and the page that holds the
//! player.

use crate::avm1::heap::Heap;
use crate::avm1::object::{EntryView, KindView, ObjectView, PropertyEntry, ScriptObject};
use crate::avm1::property::{Attributes, Property, PropertyView};
use crate::value::{ObjectId, Value, ValueView};
use vstd::prelude::*;

verus! {

/// A function of scripts that the page may call: the object it is called
/// on, and the function.
#[derive(Debug)]
pub struct Callback {
    pub name: String,
    pub this: Value,
    pub method: ObjectId,
}

/// `available`: whether the host provides an external interface.
pub fn get_available(available: bool) -> (r: Value)
    ensures
        r@ == ValueView::Bool(available),
{
    Value::Bool(available)
}

/// `addCallback`: the callback to register under the text of the first
/// argument, if there are three arguments of which the first has a text and
/// the third is an object. The answer to the script is whether there is one.
pub fn add_callback(args: &Vec<Value>) -> (r: Option<Callback>)
    ensures
        match r {
            Some(c) => {
                &&& args@.len() >= 3
                &&& args@[0]@.to_text() == Some(c.name@)
                &&& c.this@ == args@[1]@
                &&& args@[2]@ == ValueView::Object(c.method)
            },
            None => args@.len() < 3 || args@[0]@.to_text() is None || !(args@[2]@ is Object),
        },
{
    if args.len() < 3 {
        return None;
    }
    let name = match args[0].to_text() {
        Some(name) => name,
        None => {
            return None;
        },
    };
    match &args[2] {
        Value::Object(method) => Some(Callback { name, this: args[1].duplicate(), method: *method }),
        _ => None,
    }
}

/// `call`: the name of the function of the page to call, if the first
/// argument has a text. The answer to the script is `null` in any case.
pub fn call(args: &Vec<Value>) -> (r: Option<String>)
    ensures
        match r {
            Some(name) => args@.len() > 0 && args@[0]@.to_text() == Some(name@),
            None => args@.len() == 0 || args@[0]@.to_text() is None,
        },
{
    if args.len() == 0 {
        return None;
    }
    args[0].to_text()
}

/// The attributes of the members of `ExternalInterface`.
pub open spec fn member_attributes() -> Attributes {
    Attributes { dont_enum: true, dont_delete: true, read_only: false }
}

/// A function object with the given prototype.
pub open spec fn function_object(fn_proto: ObjectId) -> ObjectView {
    ObjectView {
        properties: Seq::empty(),
        proto: Some(fn_proto),
        kind: KindView::Function,
        watchers: Seq::empty(),
    }
}

/// The `ExternalInterface` object: `available` is read through a getter,
/// `addCallback` and `call` are functions.
pub open spec fn external_interface_object(proto: ObjectId, first: ObjectId) -> ObjectView {
    ObjectView {
        properties: seq![
            EntryView {
                name: "available"@,
                property: PropertyView::Virtual {
                    get: first,
                    set: None,
                    attributes: member_attributes(),
                },
            },
            EntryView {
                name: "addCallback"@,
                property: PropertyView::Stored {
                    value: ValueView::Object((first + 1) as usize),
                    attributes: member_attributes(),
                },
            },
            EntryView {
                name: "call"@,
                property: PropertyView::Stored {
                    value: ValueView::Object((first + 2) as usize),
                    attributes: member_attributes(),
                },
            },
        ],
        proto: Some(proto),
        kind: KindView::Object,
        watchers: Seq::empty(),
    }
}

/// Makes the `ExternalInterface` object and the three function objects of
/// its members. Returns the object.
pub fn create_external_interface_object(heap: &mut Heap, proto: ObjectId, fn_proto: ObjectId) -> (r:
    ObjectId)
    requires
        old(heap)@.len() < usize::MAX - 3,
    ensures
        r == old(heap)@.len() + 3,
        final(heap)@ == old(heap)@.push(function_object(fn_proto)).push(
            function_object(fn_proto),
        ).push(function_object(fn_proto)).push(
            external_interface_object(proto, old(heap)@.len() as usize),
        ),
{
    let available = heap.allocate(ScriptObject::function(Some(fn_proto)));
    let add_callback = heap.allocate(ScriptObject::function(Some(fn_proto)));
    let call = heap.allocate(ScriptObject::function(Some(fn_proto)));
    let attributes = Attributes { dont_enum: true, dont_delete: true, read_only: false };
    let mut object = ScriptObject::object(Some(proto));
    assert(object@.properties.len() == 0);
    assert(object.properties@.len() == 0);
    object.properties.push(
        PropertyEntry {
            name: String::from_str("available"),
            property: Property::Virtual { get: available, set: None, attributes },
        },
    );
    object.properties.push(
        PropertyEntry {
            name: String::from_str("addCallback"),
            property: Property::Stored { value: Value::Object(add_callback), attributes },
        },
    );
    object.properties.push(
        PropertyEntry {
            name: String::from_str("call"),
            property: Property::Stored { value: Value::Object(call), attributes },
        },
    );
    assert(object@.properties =~= external_interface_object(proto, available).properties);
    assert(object@.watchers =~= external_interface_object(proto, available).watchers);
    heap.allocate(object)
}

/// Makes the prototype of `ExternalInterface`: an empty object.
pub fn create_proto(heap: &mut Heap, proto: ObjectId) -> (r: ObjectId)
    ensures
        r == old(heap)@.len(),
        final(heap)@ == old(heap)@.push(crate::avm1::empty_object(Some(proto))),
{
    heap.allocate(ScriptObject::object(Some(proto)))
}

} // verus!
