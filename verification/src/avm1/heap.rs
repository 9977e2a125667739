//! The heap: the arena that owns every object, and property resolution
//! along prototype chains.
//!
//! Objects refer to each other by their index in the heap, so that cycles
//! (an object, its prototype, the scope that holds it) need no owning
//! pointer. An index that the heap does not hold refers to no object:
//! reading through it gives `Undefined`, writing through it does nothing.

use crate::avm1::error::{Error, ErrorView};
use crate::avm1::object::{
    first_match, lemma_first_match, lemma_first_match_some, EntryView, ObjectView, ScriptObject,
};
use crate::avm1::property::{Attributes, Property, PropertyView};
use crate::value::{duplicate_values, values_view, ObjectId, Value, ValueView};
use vstd::prelude::*;
use vstd::string::*;

verus! {

/// How many prototype links a lookup follows before it gives up.
pub const MAX_PROTOTYPE_DEPTH: usize = 255;

/// What a property access yields: a value, or a call that the caller has to
/// make to obtain it. The access itself never runs script code.
#[derive(Debug)]
pub enum ReturnValue {
    Immediate(Value),
    Deferred { function: ObjectId, this: ObjectId, args: Vec<Value> },
}

pub enum ReturnView {
    Immediate(ValueView),
    Deferred { function: ObjectId, this: ObjectId, args: Seq<ValueView> },
}

impl View for ReturnValue {
    type V = ReturnView;

    open spec fn view(&self) -> ReturnView {
        match self {
            ReturnValue::Immediate(v) => ReturnView::Immediate(v@),
            ReturnValue::Deferred { function, this, args } => ReturnView::Deferred {
                function: *function,
                this: *this,
                args: values_view(args@),
            },
        }
    }
}

/// The view of the outcome of a property access.
pub open spec fn outcome_view(r: Result<ReturnValue, Error>) -> Result<ReturnView, ErrorView> {
    match r {
        Ok(v) => Ok(v@),
        Err(e) => Err(e@),
    }
}

/// The result of a search along a prototype chain.
pub enum Lookup {
    /// The property, and the object that holds it.
    Found { holder: ObjectId, property: PropertyView },
    /// No object of the chain has the property.
    Missing,
    /// The chain is longer than lookups follow.
    TooDeep,
}

/// Searches the prototype chain that begins at `start`, following at most
/// `fuel` links.
pub open spec fn search(
    heap: Seq<ObjectView>,
    start: Option<ObjectId>,
    name: Seq<char>,
    case_sensitive: bool,
    fuel: nat,
) -> Lookup
    decreases fuel,
{
    match start {
        None => Lookup::Missing,
        Some(o) => if o >= heap.len() {
            Lookup::Missing
        } else {
            match heap[o as int].own(name, case_sensitive) {
                Some(property) => Lookup::Found { holder: o, property },
                None => if fuel == 0 {
                    Lookup::TooDeep
                } else {
                    search(heap, heap[o as int].proto, name, case_sensitive, (fuel - 1) as nat)
                },
            }
        },
    }
}

/// What reading a property yields: the stored value; a call of the getter
/// on the object that was asked; `Undefined` where no object of the chain
/// has the property; an error where the chain is too long.
pub open spec fn get_spec(
    heap: Seq<ObjectView>,
    obj: ObjectId,
    name: Seq<char>,
    case_sensitive: bool,
) -> Result<ReturnView, ErrorView> {
    match search(heap, Some(obj), name, case_sensitive, MAX_PROTOTYPE_DEPTH as nat) {
        Lookup::Found { property: PropertyView::Stored { value, .. }, .. } => Ok(
            ReturnView::Immediate(value),
        ),
        Lookup::Found { property: PropertyView::Virtual { get, .. }, .. } => Ok(
            ReturnView::Deferred { function: get, this: obj, args: Seq::empty() },
        ),
        Lookup::Missing => Ok(ReturnView::Immediate(ValueView::Undefined)),
        Lookup::TooDeep => Err(ErrorView::PrototypeRecursionLimit),
    }
}

/// Whether an object or one of its prototypes has the property.
pub open spec fn has_property_spec(
    heap: Seq<ObjectView>,
    obj: ObjectId,
    name: Seq<char>,
    case_sensitive: bool,
) -> bool {
    search(heap, Some(obj), name, case_sensitive, MAX_PROTOTYPE_DEPTH as nat) is Found
}

/// What an assignment to a property does.
pub enum Assignment {
    /// The object has the property as accessors with a setter: the setter is
    /// to be called.
    CallSetter { function: ObjectId },
    /// The object has the property as a stored value that may be assigned:
    /// the value at this position is replaced.
    Overwrite { position: int },
    /// The object has the property, and it may not be assigned: nothing
    /// happens.
    Ignore,
    /// Neither the object nor its prototypes have the property, and a
    /// watcher is registered for it: the watcher is to be called.
    CallWatcher { watcher: int },
    /// The object gets a new property.
    Create,
    /// There is no such object.
    NoObject,
}

/// Decides what an assignment to a property does.
pub open spec fn assignment(
    heap: Seq<ObjectView>,
    obj: ObjectId,
    name: Seq<char>,
    case_sensitive: bool,
) -> Assignment {
    if obj >= heap.len() {
        Assignment::NoObject
    } else {
        let o = heap[obj as int];
        match o.find(name, case_sensitive) {
            Some(i) => match o.properties[i].property {
                PropertyView::Virtual { set: Some(function), .. } => Assignment::CallSetter {
                    function,
                },
                PropertyView::Virtual { set: None, .. } => Assignment::Ignore,
                PropertyView::Stored { attributes, .. } => if attributes.read_only {
                    Assignment::Ignore
                } else {
                    Assignment::Overwrite { position: i }
                },
            },
            None => {
                let inherited = search(
                    heap,
                    o.proto,
                    name,
                    case_sensitive,
                    MAX_PROTOTYPE_DEPTH as nat,
                );
                match first_match(o.watched(), name, case_sensitive) {
                    Some(watcher) => if inherited is Missing {
                        Assignment::CallWatcher { watcher }
                    } else {
                        Assignment::Create
                    },
                    None => Assignment::Create,
                }
            },
        }
    }
}

/// The heap after an assignment.
pub open spec fn set_spec(
    heap: Seq<ObjectView>,
    obj: ObjectId,
    name: Seq<char>,
    value: ValueView,
    case_sensitive: bool,
) -> Seq<ObjectView> {
    match assignment(heap, obj, name, case_sensitive) {
        Assignment::Overwrite { position } => heap.update(
            obj as int,
            heap[obj as int].with_property(
                position,
                PropertyView::Stored {
                    value,
                    attributes: heap[obj as int].properties[position].property.attributes(),
                },
            ),
        ),
        Assignment::Create => heap.update(
            obj as int,
            heap[obj as int].with_new(
                name,
                PropertyView::Stored { value, attributes: Attributes::empty_spec() },
            ),
        ),
        _ => heap,
    }
}

/// What an assignment hands back: the call that the caller has to make
/// (the setter with the new value; the watcher with the name, the old value,
/// the new value and the watcher's own data), or `Undefined` where the
/// assignment is complete.
pub open spec fn set_result(
    heap: Seq<ObjectView>,
    obj: ObjectId,
    name: Seq<char>,
    value: ValueView,
    case_sensitive: bool,
) -> ReturnView {
    match assignment(heap, obj, name, case_sensitive) {
        Assignment::CallSetter { function } => ReturnView::Deferred {
            function,
            this: obj,
            args: seq![value],
        },
        Assignment::CallWatcher { watcher } => ReturnView::Deferred {
            function: heap[obj as int].watchers[watcher].callback,
            this: obj,
            args: seq![
                ValueView::String(name),
                ValueView::Undefined,
                value,
                heap[obj as int].watchers[watcher].user_data,
            ],
        },
        _ => ReturnView::Immediate(ValueView::Undefined),
    }
}

/// The heap after `delete name` on an object.
pub open spec fn delete_spec(
    heap: Seq<ObjectView>,
    obj: ObjectId,
    name: Seq<char>,
    case_sensitive: bool,
) -> Seq<ObjectView> {
    if obj < heap.len() {
        heap.update(obj as int, heap[obj as int].delete(name, case_sensitive))
    } else {
        heap
    }
}

/// The arena of objects.
#[derive(Debug)]
pub struct Heap {
    pub objects: Vec<ScriptObject>,
}

impl View for Heap {
    type V = Seq<ObjectView>;

    open spec fn view(&self) -> Seq<ObjectView> {
        Seq::new(self.objects@.len(), |i: int| self.objects@[i]@)
    }
}

impl Heap {
    /// An empty heap.
    pub fn new() -> (r: Heap)
        ensures
            r@ == Seq::<ObjectView>::empty(),
    {
        let r = Heap { objects: Vec::new() };
        assert(r@ =~= Seq::empty());
        r
    }

    /// The number of objects.
    pub fn len(&self) -> (r: usize)
        ensures
            r == self@.len(),
    {
        self.objects.len()
    }

    /// Whether the index refers to an object.
    pub fn contains(&self, obj: ObjectId) -> (r: bool)
        ensures
            r == (obj < self@.len()),
    {
        obj < self.objects.len()
    }

    /// Moves an object into the heap and returns its index. The other
    /// objects stay where they are.
    pub fn allocate(&mut self, object: ScriptObject) -> (r: ObjectId)
        ensures
            r == old(self)@.len(),
            final(self)@ == old(self)@.push(object@),
    {
        let id: usize = self.objects.len();
        self.objects.push(object);
        assert(self@ =~= old(self)@.push(object@));
        id
    }

    /// The object at the index.
    pub fn object(&self, obj: ObjectId) -> (r: Option<&ScriptObject>)
        ensures
            match r {
                Some(o) => obj < self@.len() && o@ == self@[obj as int],
                None => obj >= self@.len(),
            },
    {
        if obj < self.objects.len() {
            Some(&self.objects[obj])
        } else {
            None
        }
    }

    /// The prototype of an object.
    pub fn proto(&self, obj: ObjectId) -> (r: Option<ObjectId>)
        ensures
            r == (if obj < self@.len() {
                self@[obj as int].proto
            } else {
                None
            }),
    {
        if obj < self.objects.len() {
            self.objects[obj].proto
        } else {
            None
        }
    }

    /// Sets the prototype of an object.
    pub fn set_proto(&mut self, obj: ObjectId, proto: Option<ObjectId>)
        ensures
            final(self)@ == (if obj < old(self)@.len() {
                old(self)@.update(obj as int, ObjectView { proto, ..old(self)@[obj as int] })
            } else {
                old(self)@
            }),
    {
        if obj < self.objects.len() {
            self.objects[obj].proto = proto;
            assert(self@[obj as int].properties =~= old(self)@[obj as int].properties);
            assert(self@[obj as int].watchers =~= old(self)@[obj as int].watchers);
            assert(self@ =~= old(self)@.update(
                obj as int,
                ObjectView { proto, ..old(self)@[obj as int] },
            ));
        } else {
            assert(self@ =~= old(self)@);
        }
    }

    /// Searches the prototype chain of an object for a property.
    ///
    /// Returns the object that holds the property and the position of the
    /// property in it.
    fn locate(&self, start: Option<ObjectId>, name: &str, case_sensitive: bool) -> (r: Result<
        Option<(ObjectId, usize)>,
        Error,
    >)
        ensures
            match search(self@, start, name@, case_sensitive, MAX_PROTOTYPE_DEPTH as nat) {
                Lookup::Found { holder, property } => r matches Ok(Some((h, i))) && h == holder
                    && holder < self@.len() && self@[holder as int].find(name@, case_sensitive)
                    == Some(i as int) && i < self@[holder as int].properties.len()
                    && self@[holder as int].properties[i as int].property == property,
                Lookup::Missing => r matches Ok(None),
                Lookup::TooDeep => r matches Err(e) && e@ == ErrorView::PrototypeRecursionLimit,
            },
    {
        let mut current: Option<ObjectId> = start;
        let mut followed: usize = 0;
        loop
            invariant
                followed <= MAX_PROTOTYPE_DEPTH,
                search(self@, start, name@, case_sensitive, MAX_PROTOTYPE_DEPTH as nat) == search(
                    self@,
                    current,
                    name@,
                    case_sensitive,
                    (MAX_PROTOTYPE_DEPTH - followed) as nat,
                ),
            decreases MAX_PROTOTYPE_DEPTH - followed,
        {
            match current {
                None => {
                    return Ok(None);
                },
                Some(o) => {
                    if o >= self.objects.len() {
                        return Ok(None);
                    }
                    match self.objects[o].find(name, case_sensitive) {
                        Some(i) => {
                            return Ok(Some((o, i)));
                        },
                        None => {
                            if followed == MAX_PROTOTYPE_DEPTH {
                                return Err(Error::PrototypeRecursionLimit);
                            }
                            current = self.objects[o].proto;
                            followed = followed + 1;
                        },
                    }
                },
            }
        }
    }

    /// Reads a property of an object: its own, or else that of the nearest
    /// prototype that has it.
    pub fn get(&self, obj: ObjectId, name: &str, case_sensitive: bool) -> (r: Result<
        ReturnValue,
        Error,
    >)
        ensures
            outcome_view(r) == get_spec(self@, obj, name@, case_sensitive),
    {
        match self.locate(Some(obj), name, case_sensitive) {
            Ok(Some((holder, i))) => match &self.objects[holder].properties[i].property {
                Property::Stored { value, .. } => Ok(ReturnValue::Immediate(value.duplicate())),
                Property::Virtual { get, .. } => {
                    let args: Vec<Value> = Vec::new();
                    assert(values_view(args@) =~= Seq::empty());
                    Ok(ReturnValue::Deferred { function: *get, this: obj, args })
                },
            },
            Ok(None) => Ok(ReturnValue::Immediate(Value::Undefined)),
            Err(e) => Err(e),
        }
    }

    /// Whether an object or one of its prototypes has the property.
    pub fn has_property(&self, obj: ObjectId, name: &str, case_sensitive: bool) -> (r: bool)
        ensures
            r == has_property_spec(self@, obj, name@, case_sensitive),
    {
        match self.locate(Some(obj), name, case_sensitive) {
            Ok(Some(_)) => true,
            _ => false,
        }
    }

    /// Whether the object itself has the property.
    pub fn has_own_property(&self, obj: ObjectId, name: &str, case_sensitive: bool) -> (r: bool)
        ensures
            r == (obj < self@.len() && self@[obj as int].own(name@, case_sensitive).is_some()),
    {
        if obj < self.objects.len() {
            self.objects[obj].has_own_property(name, case_sensitive)
        } else {
            false
        }
    }

    /// Assigns to a property of an object.
    ///
    /// An own setter or, for a property that is found nowhere on the chain,
    /// a watcher is not called here: the call is handed back. An own
    /// property that may not be assigned stays as it is.
    pub fn set(&mut self, obj: ObjectId, name: &str, value: Value, case_sensitive: bool) -> (r:
        ReturnValue)
        ensures
            final(self)@ == set_spec(old(self)@, obj, name@, value@, case_sensitive),
            r@ == set_result(old(self)@, obj, name@, value@, case_sensitive),
    {
        if obj >= self.objects.len() {
            return ReturnValue::Immediate(Value::Undefined);
        }
        match self.objects[obj].find(name, case_sensitive) {
            Some(i) => {
                let attributes = self.objects[obj].properties[i].property.attributes();
                match &self.objects[obj].properties[i].property {
                    Property::Virtual { set: Some(function), .. } => {
                        let function: ObjectId = *function;
                        let mut args: Vec<Value> = Vec::new();
                        args.push(value);
                        assert(values_view(args@) =~= seq![value@]);
                        ReturnValue::Deferred { function, this: obj, args }
                    },
                    Property::Virtual { set: None, .. } => ReturnValue::Immediate(
                        Value::Undefined,
                    ),
                    Property::Stored { .. } => {
                        if !attributes.read_only {
                            self.objects[obj].properties[i].property = Property::Stored {
                                value,
                                attributes,
                            };
                            proof {
                                let after = old(self)@[obj as int].with_property(
                                    i as int,
                                    PropertyView::Stored { value: value@, attributes },
                                );
                                assert(self@[obj as int].properties =~= after.properties);
                                assert(self@[obj as int].watchers =~= after.watchers);
                                assert(self@ =~= old(self)@.update(obj as int, after));
                            }
                        }
                        ReturnValue::Immediate(Value::Undefined)
                    },
                }
            },
            None => {
                let inherited = self.locate(self.objects[obj].proto, name, case_sensitive);
                let unresolved: bool = match inherited {
                    Ok(None) => true,
                    _ => false,
                };
                let watcher: Option<usize> = self.find_watcher(obj, name, case_sensitive);
                match watcher {
                    Some(w) => {
                        if unresolved {
                            let callback: ObjectId = self.objects[obj].watchers[w].callback;
                            let mut args: Vec<Value> = Vec::new();
                            args.push(Value::from_str(name));
                            args.push(Value::Undefined);
                            args.push(value);
                            args.push(self.objects[obj].watchers[w].user_data.duplicate());
                            assert(values_view(args@) =~= seq![
                                ValueView::String(name@),
                                ValueView::Undefined,
                                value@,
                                old(self)@[obj as int].watchers[w as int].user_data,
                            ]);
                            return ReturnValue::Deferred { function: callback, this: obj, args };
                        }
                    },
                    None => {},
                }
                self.objects[obj].properties.push(
                    crate::avm1::object::PropertyEntry {
                        name: String::from_str(name),
                        property: Property::Stored { value, attributes: Attributes::empty() },
                    },
                );
                proof {
                    let after = old(self)@[obj as int].with_new(
                        name@,
                        PropertyView::Stored {
                            value: value@,
                            attributes: Attributes::empty_spec(),
                        },
                    );
                    assert(self@[obj as int].properties =~= after.properties);
                    assert(self@[obj as int].watchers =~= after.watchers);
                    assert(self@ =~= old(self)@.update(obj as int, after));
                }
                ReturnValue::Immediate(Value::Undefined)
            },
        }
    }

    /// The position of the watcher that `name` means on an object.
    fn find_watcher(&self, obj: ObjectId, name: &str, case_sensitive: bool) -> (r: Option<usize>)
        requires
            obj < self@.len(),
        ensures
            match r {
                Some(w) => first_match(self@[obj as int].watched(), name@, case_sensitive) == Some(
                    w as int,
                ) && w < self@[obj as int].watchers.len(),
                None => first_match(self@[obj as int].watched(), name@, case_sensitive) is None,
            },
    {
        let object = &self.objects[obj];
        let ghost watched = self@[obj as int].watched();
        let mut i: usize = 0;
        while i < object.watchers.len()
            invariant
                i <= object.watchers@.len(),
                object@ == self@[obj as int],
                watched == object@.watched(),
                forall|j: int|
                    0 <= j < i ==> !crate::text::names_match(
                        #[trigger] watched[j],
                        name@,
                        case_sensitive,
                    ),
            decreases object.watchers@.len() - i,
        {
            assert(watched[i as int] == object.watchers@[i as int].name@);
            if crate::text::str_names_match(object.watchers[i].name.as_str(), name, case_sensitive) {
                proof {
                    lemma_first_match_some(watched, name@, case_sensitive, i as int);
                }
                return Some(i);
            }
            i = i + 1;
        }
        proof {
            lemma_first_match(watched, name@, case_sensitive);
            if first_match(watched, name@, case_sensitive) is Some {
                let k = first_match(watched, name@, case_sensitive).unwrap();
                assert(crate::text::names_match(watched[k], name@, case_sensitive));
            }
        }
        None
    }

    /// Stores a value under exactly this name of an object, with the given
    /// attributes, whatever was there.
    pub fn define_value(&mut self, obj: ObjectId, name: &str, value: Value, attributes: Attributes)
        ensures
            final(self)@ == (if obj < old(self)@.len() {
                old(self)@.update(
                    obj as int,
                    old(self)@[obj as int].define(
                        name@,
                        PropertyView::Stored { value: value@, attributes },
                    ),
                )
            } else {
                old(self)@
            }),
    {
        if obj < self.objects.len() {
            self.objects[obj].define_value(name, value, attributes);
            assert(self@ =~= old(self)@.update(
                obj as int,
                old(self)@[obj as int].define(
                    name@,
                    PropertyView::Stored { value: value@, attributes },
                ),
            ));
        } else {
            assert(self@ =~= old(self)@);
        }
    }

    /// `delete name` on an object: removes its own property unless that is
    /// protected from deletion. Returns whether a property was removed.
    pub fn delete(&mut self, obj: ObjectId, name: &str, case_sensitive: bool) -> (r: bool)
        ensures
            r == (obj < old(self)@.len() && old(self)@[obj as int].can_delete(
                name@,
                case_sensitive,
            )),
            final(self)@ == delete_spec(old(self)@, obj, name@, case_sensitive),
    {
        if obj < self.objects.len() {
            let r = self.objects[obj].delete(name, case_sensitive);
            assert(self@ =~= old(self)@.update(
                obj as int,
                old(self)@[obj as int].delete(name@, case_sensitive),
            ));
            r
        } else {
            assert(self@ =~= old(self)@);
            false
        }
    }

    /// The names that enumeration of an object's own properties shows.
    pub fn get_keys(&self, obj: ObjectId) -> (r: Vec<String>)
        ensures
            Seq::new(r@.len(), |i: int| r@[i]@) == (if obj < self@.len() {
                self@[obj as int].keys()
            } else {
                Seq::empty()
            }),
    {
        if obj < self.objects.len() {
            self.objects[obj].get_keys()
        } else {
            let r: Vec<String> = Vec::new();
            assert(Seq::new(r@.len(), |i: int| r@[i]@) =~= Seq::<Seq<char>>::empty());
            r
        }
    }
}

/// After an assignment the property reads as the value assigned, if the
/// object has the property as a stored value that may be assigned, or if it
/// has no such property and no watcher stands in the way. If it has the
/// property as a stored value that may not be assigned, the property reads as
/// before.
pub proof fn lemma_set_then_get(
    heap: Seq<ObjectView>,
    obj: ObjectId,
    name: Seq<char>,
    value: ValueView,
    case_sensitive: bool,
)
    requires
        obj < heap.len(),
        !(heap[obj as int].own(name, case_sensitive) matches Some(p) && p is Virtual),
        heap[obj as int].own(name, case_sensitive) is None ==> first_match(
            heap[obj as int].watched(),
            name,
            case_sensitive,
        ) is None,
    ensures
        (heap[obj as int].own(name, case_sensitive) matches Some(p) && p.attributes().read_only)
            ==> set_spec(heap, obj, name, value, case_sensitive) == heap,
        !(heap[obj as int].own(name, case_sensitive) matches Some(p) && p.attributes().read_only)
            ==> get_spec(set_spec(heap, obj, name, value, case_sensitive), obj, name, case_sensitive)
            == Ok::<ReturnView, ErrorView>(ReturnView::Immediate(value)),
{
    let o = heap[obj as int];
    let after = set_spec(heap, obj, name, value, case_sensitive);
    lemma_first_match(o.names(), name, case_sensitive);
    match o.find(name, case_sensitive) {
        Some(i) => {
            if !o.properties[i].property.attributes().read_only {
                let a = after[obj as int];
                assert(a.names() =~= o.names());
                assert(a.find(name, case_sensitive) == Some(i));
            }
        },
        None => {
            let a = after[obj as int];
            let last = o.properties.len() as int;
            assert(a.names() =~= o.names().push(name));
            assert forall|j: int| 0 <= j < last implies !crate::text::names_match(
                #[trigger] a.names()[j],
                name,
                case_sensitive,
            ) by {
                assert(a.names()[j] == o.names()[j]);
            }
            crate::text::lemma_names_match_equivalence(name, name, name, case_sensitive);
            lemma_first_match_some(a.names(), name, case_sensitive, last);
        },
    }
}

/// Deleting a property that is protected from deletion removes nothing: the
/// answer is `false`, the heap is as before, and so the property can still
/// be read.
pub proof fn lemma_delete_protected(
    heap: Seq<ObjectView>,
    obj: ObjectId,
    name: Seq<char>,
    case_sensitive: bool,
)
    requires
        obj < heap.len(),
        heap[obj as int].own(name, case_sensitive) matches Some(p) && p.attributes().dont_delete,
    ensures
        !heap[obj as int].can_delete(name, case_sensitive),
        delete_spec(heap, obj, name, case_sensitive) == heap,
        has_property_spec(delete_spec(heap, obj, name, case_sensitive), obj, name, case_sensitive),
        get_spec(delete_spec(heap, obj, name, case_sensitive), obj, name, case_sensitive)
            == get_spec(heap, obj, name, case_sensitive),
{
    assert(delete_spec(heap, obj, name, case_sensitive) =~= heap);
}

} // verus!
