//! Arrays.
//!
//! An array is an object whose elements are the properties named by the
//! decimal notation of their index, and whose `length` property follows
//! them: an element stored at or beyond the length raises it, and an
//! assignment to the length removes the elements at and beyond it.

use crate::avm1::heap::{set_result, set_spec, Heap, ReturnValue};
use crate::avm1::object::{
    lemma_first_match, lemma_first_match_some, EntryView, KindView, ObjectKind, ObjectView,
    PropertyEntry, ScriptObject,
};
use crate::avm1::property::{Attributes, Property, PropertyView};
use crate::number::{lemma_of_int, Number};
use crate::text::{
    decimal, i32_to_string, lemma_decimal_has_no_case, lemma_parse_decimal, names_match, parse_i32,
    parse_i32_spec, str_names_match,
};
use crate::value::{ObjectId, Value, ValueView};
use vstd::prelude::*;
use vstd::string::*;

verus! {

/// The attributes of the `length` property: hidden from enumeration and
/// protected from deletion.
pub open spec fn length_attributes() -> Attributes {
    Attributes { dont_enum: true, dont_delete: true, read_only: false }
}

/// The length of an array: the number stored under `length`, as an integer.
pub open spec fn array_length(o: ObjectView) -> int {
    match o.data("length"@) {
        ValueView::Number(n) => n.to_i32_spec(),
        _ => 0,
    }
}

/// A length is never negative.
pub open spec fn clamp_length(n: int) -> int {
    if n < 0 {
        0
    } else {
        n
    }
}

/// Whether a property is no element at or beyond the index `n`.
pub open spec fn within(n: int) -> spec_fn(EntryView) -> bool {
    |e: EntryView| !(parse_i32_spec(e.name) matches Some(k) && k >= n)
}

/// The `length` property for a length.
pub open spec fn length_property(n: int) -> PropertyView {
    PropertyView::Stored {
        value: ValueView::Number(Number::of_int(n)),
        attributes: length_attributes(),
    }
}

/// The object after its length was set: the elements at and beyond the new
/// length are gone, and `length` holds the new length.
pub open spec fn set_length_spec(o: ObjectView, n: int) -> ObjectView {
    let kept = ObjectView { properties: o.properties.filter(within(clamp_length(n))), ..o };
    kept.define("length"@, length_property(clamp_length(n)))
}

/// The length that makes room for the element at `index`.
pub open spec fn length_for(index: int) -> int {
    if index >= 0x7fff_ffff {
        0x7fff_ffff
    } else {
        index + 1
    }
}

/// The object after room was made for the element at `index`.
pub open spec fn grown(o: ObjectView, index: int) -> ObjectView {
    if index >= array_length(o) {
        set_length_spec(o, length_for(index))
    } else {
        o
    }
}

/// The array with the given elements.
pub open spec fn array_of(elements: Seq<ValueView>, proto: Option<ObjectId>) -> ObjectView {
    ObjectView {
        properties: Seq::new(
            elements.len() + 1,
            |i: int|
                if i < elements.len() {
                    EntryView {
                        name: decimal(i),
                        property: PropertyView::Stored {
                            value: elements[i],
                            attributes: Attributes::empty_spec(),
                        },
                    }
                } else {
                    EntryView { name: "length"@, property: length_property(elements.len() as int) }
                },
        ),
        proto,
        kind: KindView::Array,
        watchers: Seq::empty(),
    }
}

/// Whether the length of an array is consistent with its elements: `length`
/// holds the number of a length that is not negative, and every element
/// lies below it.
pub open spec fn array_consistent(o: ObjectView) -> bool {
    &&& 0 <= array_length(o)
    &&& o.data("length"@) == ValueView::Number(Number::of_int(array_length(o)))
    &&& forall|i: int|
        0 <= i < o.properties.len() ==> within(array_length(o))(#[trigger] o.properties[i])
}

impl ScriptObject {
    /// The length of the object as an array.
    pub fn length(&self) -> (r: i32)
        ensures
            r == array_length(self@),
    {
        match self.get_data("length") {
            Value::Number(n) => n.to_i32(),
            _ => 0,
        }
    }

    /// Sets the length of the object as an array: removes the elements at
    /// and beyond it, and stores it under `length`. A negative length counts
    /// as 0.
    pub fn set_length(&mut self, new_length: i32)
        ensures
            final(self)@ == set_length_spec(old(self)@, new_length as int),
    {
        let n: i32 = if new_length < 0 {
            0
        } else {
            new_length
        };
        let ghost before = self@.properties;
        let mut i: usize = 0;
        let ghost mut done: int = 0;
        proof {
            assert(before.take(0) =~= Seq::empty());
            assert(before.skip(0) =~= before);
            reveal(Seq::filter);
            assert(before.take(0).filter(within(n as int)) =~= Seq::empty());
        }
        while i < self.properties.len()
            invariant
                0 <= done <= before.len(),
                before == old(self)@.properties,
                self.proto == old(self).proto,
                self.kind == old(self).kind,
                self.watchers == old(self).watchers,
                i == before.take(done).filter(within(n as int)).len(),
                self@.properties == before.take(done).filter(within(n as int)) + before.skip(done),
            decreases before.len() - done,
        {
            let ghost kept = before.take(done).filter(within(n as int));
            proof {
                assert(self@.properties[i as int] == before.skip(done)[0]);
                assert(before.take(done + 1) =~= before.take(done).push(before[done]));
                before.take(done).lemma_filter_push(before[done], within(n as int));
            }
            let beyond: bool = match parse_i32(self.properties[i].name.as_str()) {
                Some(k) => k >= n,
                None => false,
            };
            let ghost current = self@.properties;
            if beyond {
                self.properties.remove(i);
                assert(self@.properties =~= current.remove(i as int));
                assert(self@.properties =~= kept + before.skip(done + 1));
            } else {
                assert(self@.properties =~= kept.push(before[done]) + before.skip(done + 1));
                i = i + 1;
            }
            proof {
                done = done + 1;
            }
        }
        proof {
            assert(before.skip(done).len() == 0);
            assert(before.take(done) =~= before);
            assert(self@.properties =~= before.filter(within(n as int)));
            assert(self@.watchers =~= old(self)@.watchers);
        }
        self.define(
            "length",
            Property::Stored {
                value: Value::from_i32(n),
                attributes: Attributes { dont_enum: true, dont_delete: true, read_only: false },
            },
        );
    }
}

/// A reference to an array in a heap.
#[derive(Clone, Copy, Debug)]
pub struct ArrayObject(pub ObjectId);

impl ArrayObject {
    /// A new empty array with the given prototype.
    pub fn empty(heap: &mut Heap, array_proto: ObjectId) -> (r: ArrayObject)
        ensures
            r.0 == old(heap)@.len(),
            final(heap)@ == old(heap)@.push(array_of(Seq::empty(), Some(array_proto))),
    {
        let elements: Vec<Value> = Vec::new();
        assert(crate::value::values_view(elements@) =~= Seq::empty());
        ArrayObject::new_internal(heap, Some(array_proto), &elements)
    }

    /// A new empty array with the given prototype, or with none.
    pub fn empty_with_proto(heap: &mut Heap, proto: Option<ObjectId>) -> (r: ArrayObject)
        ensures
            r.0 == old(heap)@.len(),
            final(heap)@ == old(heap)@.push(array_of(Seq::empty(), proto)),
    {
        let elements: Vec<Value> = Vec::new();
        assert(crate::value::values_view(elements@) =~= Seq::empty());
        ArrayObject::new_internal(heap, proto, &elements)
    }

    /// A new array with the given prototype and elements.
    pub fn new(heap: &mut Heap, array_proto: ObjectId, elements: &Vec<Value>) -> (r: ArrayObject)
        requires
            elements@.len() <= i32::MAX,
        ensures
            r.0 == old(heap)@.len(),
            final(heap)@ == old(heap)@.push(
                array_of(crate::value::values_view(elements@), Some(array_proto)),
            ),
    {
        ArrayObject::new_internal(heap, Some(array_proto), elements)
    }

    fn new_internal(heap: &mut Heap, proto: Option<ObjectId>, elements: &Vec<Value>) -> (r:
        ArrayObject)
        requires
            elements@.len() <= i32::MAX,
        ensures
            r.0 == old(heap)@.len(),
            final(heap)@ == old(heap)@.push(array_of(crate::value::values_view(elements@), proto)),
    {
        let ghost views = crate::value::values_view(elements@);
        let mut properties: Vec<PropertyEntry> = Vec::new();
        let mut length: i32 = 0;
        while (length as usize) < elements.len()
            invariant
                0 <= length <= elements@.len() <= i32::MAX,
                views == crate::value::values_view(elements@),
                properties@.len() == length,
                forall|j: int|
                    0 <= j < length ==> (#[trigger] properties@[j])@ == array_of(
                        views,
                        proto,
                    ).properties[j],
            decreases elements@.len() - length,
        {
            properties.push(
                PropertyEntry {
                    name: i32_to_string(length),
                    property: Property::Stored {
                        value: elements[length as usize].duplicate(),
                        attributes: Attributes::empty(),
                    },
                },
            );
            length = length + 1;
        }
        properties.push(
            PropertyEntry {
                name: String::from_str("length"),
                property: Property::Stored {
                    value: Value::from_i32(length),
                    attributes: Attributes { dont_enum: true, dont_delete: true, read_only: false },
                },
            },
        );
        let object = ScriptObject {
            properties,
            proto,
            kind: ObjectKind::Array,
            watchers: Vec::new(),
        };
        proof {
            assert(object@.properties =~= array_of(views, proto).properties);
            assert(object@.watchers =~= array_of(views, proto).watchers);
        }
        ArrayObject(heap.allocate(object))
    }

    /// The length of the array; 0 where the reference is to no object.
    pub fn length(&self, heap: &Heap) -> (r: i32)
        ensures
            r == (if self.0 < heap@.len() {
                array_length(heap@[self.0 as int])
            } else {
                0
            }),
    {
        match heap.object(self.0) {
            Some(o) => o.length(),
            None => 0,
        }
    }

    /// Sets the length of the array.
    pub fn set_length(&self, heap: &mut Heap, new_length: i32)
        ensures
            final(heap)@ == (if self.0 < old(heap)@.len() {
                old(heap)@.update(
                    self.0 as int,
                    set_length_spec(old(heap)@[self.0 as int], new_length as int),
                )
            } else {
                old(heap)@
            }),
    {
        if self.0 < heap.objects.len() {
            heap.objects[self.0].set_length(new_length);
            assert(heap@ =~= old(heap)@.update(
                self.0 as int,
                set_length_spec(old(heap)@[self.0 as int], new_length as int),
            ));
        } else {
            assert(heap@ =~= old(heap)@);
        }
    }

    /// Whether the array itself has an element at the index.
    pub fn has_element(&self, heap: &Heap, index: i32) -> (r: bool)
        ensures
            r == (self.0 < heap@.len() && heap@[self.0 as int].own(
                decimal(index as int),
                true,
            ).is_some()),
    {
        let name = i32_to_string(index);
        heap.has_own_property(self.0, name.as_str(), true)
    }

    /// The element at the index: the value stored under the index in the
    /// array itself, and `Undefined` where there is none.
    pub fn get_element(&self, heap: &Heap, index: i32) -> (r: Value)
        ensures
            r@ == (if self.0 < heap@.len() {
                heap@[self.0 as int].data(decimal(index as int))
            } else {
                ValueView::Undefined
            }),
    {
        let name = i32_to_string(index);
        match heap.object(self.0) {
            Some(o) => o.get_data(name.as_str()),
            None => Value::Undefined,
        }
    }

    /// Stores an element. An index at or beyond the length raises the length
    /// to one more than the index.
    pub fn set_element(&self, heap: &mut Heap, index: i32, value: Value) -> (r: ReturnValue)
        ensures
            final(heap)@ == set_element_spec(old(heap)@, self.0, index as int, value@),
            r@ == set_result(
                make_room(old(heap)@, self.0, index as int),
                self.0,
                decimal(index as int),
                value@,
                true,
            ),
    {
        self.make_room(heap, index);
        let name = i32_to_string(index);
        heap.set(self.0, name.as_str(), value, true)
    }

    fn make_room(&self, heap: &mut Heap, index: i32)
        ensures
            final(heap)@ == make_room(old(heap)@, self.0, index as int),
    {
        if self.0 < heap.objects.len() {
            let length: i32 = heap.objects[self.0].length();
            if index >= length {
                let new_length: i32 = if index == i32::MAX {
                    i32::MAX
                } else {
                    index + 1
                };
                self.set_length(heap, new_length);
            } else {
                assert(heap@ =~= old(heap)@.update(self.0 as int, old(heap)@[self.0 as int]));
            }
        }
    }

    /// Removes an element, unless it is protected from deletion.
    pub fn delete_element(&self, heap: &mut Heap, index: i32) -> (r: bool)
        ensures
            r == (self.0 < old(heap)@.len() && old(heap)@[self.0 as int].can_delete(
                decimal(index as int),
                true,
            )),
            final(heap)@ == crate::avm1::heap::delete_spec(
                old(heap)@,
                self.0,
                decimal(index as int),
                true,
            ),
    {
        let name = i32_to_string(index);
        heap.delete(self.0, name.as_str(), true)
    }

    /// Assigns to a property of the array. An assignment to `length` sets
    /// the length to the integer that the value converts to; an assignment
    /// to an element at or beyond the length raises the length first.
    pub fn set_local(&self, heap: &mut Heap, name: &str, value: Value, case_sensitive: bool) -> (r:
        ReturnValue)
        ensures
            final(heap)@ == set_local_spec(old(heap)@, self.0, name@, value@, case_sensitive),
            r@ == set_local_result(old(heap)@, self.0, name@, value@, case_sensitive),
    {
        if str_names_match(name, "length", case_sensitive) {
            let new_length: i32 = value.coerce_to_i32();
            self.set_length(heap, new_length);
            return ReturnValue::Immediate(Value::Undefined);
        }
        match parse_i32(name) {
            Some(index) => {
                self.make_room(heap, index);
            },
            None => {},
        }
        heap.set(self.0, name, value, case_sensitive)
    }
}

/// The heap after room was made in an array for the element at `index`.
pub open spec fn make_room(heap: Seq<ObjectView>, obj: ObjectId, index: int) -> Seq<ObjectView> {
    if obj < heap.len() {
        heap.update(obj as int, grown(heap[obj as int], index))
    } else {
        heap
    }
}

/// The heap after an element of an array was stored.
pub open spec fn set_element_spec(
    heap: Seq<ObjectView>,
    obj: ObjectId,
    index: int,
    value: ValueView,
) -> Seq<ObjectView> {
    set_spec(make_room(heap, obj, index), obj, decimal(index), value, true)
}

/// The heap after an assignment to a property of an array.
pub open spec fn set_local_spec(
    heap: Seq<ObjectView>,
    obj: ObjectId,
    name: Seq<char>,
    value: ValueView,
    case_sensitive: bool,
) -> Seq<ObjectView> {
    if names_match(name, "length"@, case_sensitive) {
        if obj < heap.len() {
            heap.update(obj as int, set_length_spec(heap[obj as int], value.to_i32()))
        } else {
            heap
        }
    } else {
        match parse_i32_spec(name) {
            Some(index) => set_spec(
                make_room(heap, obj, index),
                obj,
                name,
                value,
                case_sensitive,
            ),
            None => set_spec(heap, obj, name, value, case_sensitive),
        }
    }
}

/// What an assignment to a property of an array hands back.
pub open spec fn set_local_result(
    heap: Seq<ObjectView>,
    obj: ObjectId,
    name: Seq<char>,
    value: ValueView,
    case_sensitive: bool,
) -> crate::avm1::heap::ReturnView {
    if names_match(name, "length"@, case_sensitive) {
        crate::avm1::heap::ReturnView::Immediate(ValueView::Undefined)
    } else {
        match parse_i32_spec(name) {
            Some(index) => set_result(
                make_room(heap, obj, index),
                obj,
                name,
                value,
                case_sensitive,
            ),
            None => set_result(heap, obj, name, value, case_sensitive),
        }
    }
}

pub(crate) proof fn lemma_length_is_no_index()
    ensures
        parse_i32_spec("length"@) is None,
        forall|i: int| #[trigger] decimal(i) != "length"@,
{
    reveal_strlit("length");
    let s = "length"@;
    assert(!crate::text::is_digit(s[0]));
    assert forall|i: int| #[trigger] decimal(i) != "length"@ by {
        lemma_decimal_has_no_case(decimal(i), i);
    }
}

/// An assignment to a property leaves every property of another name as it
/// is.
pub proof fn lemma_set_keeps_other(
    heap: Seq<ObjectView>,
    obj: ObjectId,
    name: Seq<char>,
    value: ValueView,
    case_sensitive: bool,
    other: Seq<char>,
)
    requires
        obj < heap.len(),
        !names_match(other, name, case_sensitive),
    ensures
        set_spec(heap, obj, name, value, case_sensitive)[obj as int].own(other, true)
            == heap[obj as int].own(other, true),
{
    let o = heap[obj as int];
    lemma_first_match(o.names(), name, case_sensitive);
    lemma_first_match(o.names(), other, true);
    crate::text::lemma_names_match_equivalence(other, name, name, case_sensitive);
    match crate::avm1::heap::assignment(heap, obj, name, case_sensitive) {
        crate::avm1::heap::Assignment::Overwrite { position } => {
            let p = PropertyView::Stored {
                value,
                attributes: o.properties[position].property.attributes(),
            };
            crate::avm1::object::lemma_find_after_replace(o, position, p, other, true);
        },
        crate::avm1::heap::Assignment::Create => {
            let p = PropertyView::Stored { value, attributes: Attributes::empty_spec() };
            crate::avm1::object::lemma_find_after_new(o, name, p, other, true);
        },
        _ => {},
    }
}

/// After the length of an array was set, the array has that length (0 for a
/// negative one), its length is consistent with its elements, and it has no
/// element at or beyond the length.
pub proof fn lemma_set_length(o: ObjectView, n: int, k: int, case_sensitive: bool)
    requires
        -0x8000_0000 <= n < 0x8000_0000,
    ensures
        array_length(set_length_spec(o, n)) == clamp_length(n),
        array_consistent(set_length_spec(o, n)),
        clamp_length(n) <= k < 0x8000_0000 ==> set_length_spec(o, n).own(
            decimal(k),
            case_sensitive,
        ) is None,
{
    let c = clamp_length(n);
    let kept = ObjectView { properties: o.properties.filter(within(c)), ..o };
    let after = set_length_spec(o, n);
    lemma_length_is_no_index();
    lemma_of_int(c);
    crate::avm1::object::lemma_own_after_define(kept, "length"@, length_property(c), "length"@);
    lemma_first_match(kept.names(), "length"@, true);
    assert forall|i: int| 0 <= i < after.properties.len() implies within(c)(
        #[trigger] after.properties[i],
    ) by {
        if i < kept.properties.len() {
            o.properties.lemma_filter_pred(within(c), i);
            match kept.find("length"@, true) {
                Some(j) => {
                    if i == j {
                        assert(kept.names()[j] == kept.properties[j].name);
                    }
                },
                None => {},
            }
        }
    }
    if c <= k < 0x8000_0000 {
        lemma_first_match(after.names(), decimal(k), case_sensitive);
        if after.find(decimal(k), case_sensitive) is Some {
            let i = after.find(decimal(k), case_sensitive).unwrap();
            assert(after.names()[i] == after.properties[i].name);
            if !case_sensitive {
                lemma_decimal_has_no_case(after.properties[i].name, k);
            }
            lemma_parse_decimal(k);
            assert(within(c)(after.properties[i]));
        }
    }
}

/// Storing an element at or beyond the length of an array raises the length
/// to one more than the index.
pub proof fn lemma_set_element_raises_length(
    heap: Seq<ObjectView>,
    obj: ObjectId,
    index: int,
    value: ValueView,
)
    requires
        obj < heap.len(),
        0 <= index < 0x7fff_ffff,
        index >= array_length(heap[obj as int]),
    ensures
        array_length(set_element_spec(heap, obj, index, value)[obj as int]) == index + 1,
{
    let room = make_room(heap, obj, index);
    lemma_set_length(heap[obj as int], index + 1, 0, true);
    lemma_length_is_no_index();
    lemma_set_keeps_other(room, obj, decimal(index), value, true, "length"@);
}

/// An assignment to the `length` of an array sets the length to the integer
/// that the value converts to, and removes every element at or beyond it.
pub proof fn lemma_set_length_drops(
    heap: Seq<ObjectView>,
    obj: ObjectId,
    value: ValueView,
    case_sensitive: bool,
    k: int,
)
    requires
        obj < heap.len(),
        -0x8000_0000 <= value.to_i32() < 0x8000_0000,
        clamp_length(value.to_i32()) <= k < 0x8000_0000,
    ensures
        array_length(
            set_local_spec(heap, obj, "length"@, value, case_sensitive)[obj as int],
        ) == clamp_length(value.to_i32()),
        set_local_spec(heap, obj, "length"@, value, case_sensitive)[obj as int].own(
            decimal(k),
            case_sensitive,
        ) is None,
{
    crate::text::lemma_names_match_equivalence("length"@, "length"@, "length"@, case_sensitive);
    lemma_set_length(heap[obj as int], value.to_i32(), k, case_sensitive);
}

/// The three ways to change an array (an assignment to a property, to an
/// element, to the length) keep its length consistent with its elements.
pub proof fn lemma_set_local_keeps_consistent(
    heap: Seq<ObjectView>,
    obj: ObjectId,
    name: Seq<char>,
    value: ValueView,
    case_sensitive: bool,
)
    requires
        obj < heap.len(),
        array_consistent(heap[obj as int]),
        -0x8000_0000 <= value.to_i32() < 0x8000_0000,
        parse_i32_spec(name) != Some(0x7fff_ffff as int),
    ensures
        array_consistent(set_local_spec(heap, obj, name, value, case_sensitive)[obj as int]),
{
    let o = heap[obj as int];
    if names_match(name, "length"@, case_sensitive) {
        lemma_set_length(o, value.to_i32(), 0, true);
    } else {
        crate::text::lemma_names_match_equivalence(name, "length"@, name, case_sensitive);
        let room = match parse_i32_spec(name) {
            Some(index) => make_room(heap, obj, index),
            None => heap,
        };
        let r = room[obj as int];
        match parse_i32_spec(name) {
            Some(index) => {
                if index >= array_length(o) {
                    lemma_set_length(o, index + 1, 0, true);
                }
            },
            None => {},
        }
        assert(array_consistent(r));
        let after = set_spec(room, obj, name, value, case_sensitive)[obj as int];
        lemma_set_keeps_other(room, obj, name, value, case_sensitive, "length"@);
        lemma_first_match(r.names(), name, case_sensitive);
        assert forall|i: int| 0 <= i < after.properties.len() implies within(array_length(r))(
            #[trigger] after.properties[i],
        ) by {
            if i < r.properties.len() {
                assert(within(array_length(r))(r.properties[i]));
                assert(after.properties[i].name == r.properties[i].name);
            }
        }
    }
}

/// Storing an element is the assignment to the property that the decimal
/// notation of the index names.
pub proof fn lemma_set_element_is_set_local(
    heap: Seq<ObjectView>,
    obj: ObjectId,
    index: int,
    value: ValueView,
)
    requires
        -0x8000_0000 <= index < 0x8000_0000,
    ensures
        set_element_spec(heap, obj, index, value) == set_local_spec(
            heap,
            obj,
            decimal(index),
            value,
            true,
        ),
{
    lemma_length_is_no_index();
    lemma_parse_decimal(index);
}

} // verus!
