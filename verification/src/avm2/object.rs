//! Objects and classes of the second script machine.
//!
//! An instance has a class, a fixed vector of slots that its class laid out,
//! a place in the scene graph (its parent), and the listeners registered on
//! it. Slots are read and written by index, never by name.

use crate::avm2::error::{Error, ErrorView};
use crate::avm2::events::DispatchList;
use crate::value::{values_view, ObjectId, Value, ValueView};
use vstd::prelude::*;

verus! {

/// A reference to a class: its index in the class table.
pub type ClassId = usize;

/// A class: its base class and the interfaces it implements. The base class
/// is older than the class: it has a smaller index.
#[derive(Debug)]
pub struct Class {
    pub superclass: Option<ClassId>,
    pub interfaces: Vec<ClassId>,
}

/// An instance.
#[derive(Debug)]
pub struct Object {
    pub class: Option<ClassId>,
    pub parent: Option<ObjectId>,
    pub slots: Vec<Value>,
    pub dispatch: DispatchList,
}

/// Whether the class `class` is the type `on_type`, implements it, or
/// derives from a class that does. A link to a base class that is not older
/// than the class is no link.
pub open spec fn class_is(classes: Seq<Class>, class: ClassId, on_type: ClassId) -> bool
    decreases class,
{
    if class >= classes.len() {
        false
    } else if class == on_type || classes[class as int].interfaces@.contains(on_type) {
        true
    } else {
        match classes[class as int].superclass {
            Some(base) => base < class && class_is(classes, base, on_type),
            None => false,
        }
    }
}

/// Whether an object is an instance of a type.
pub open spec fn is_of_type_spec(
    classes: Seq<Class>,
    objects: Seq<Object>,
    object: ObjectId,
    on_type: ClassId,
) -> bool {
    object < objects.len() && (match objects[object as int].class {
        Some(class) => class_is(classes, class, on_type),
        None => false,
    })
}

/// The ancestors of an object in the scene graph, the nearest first, as far
/// as `fuel` links lead.
pub open spec fn ancestors_spec(objects: Seq<Object>, object: ObjectId, fuel: nat) -> Seq<ObjectId>
    decreases fuel,
{
    if fuel == 0 || object >= objects.len() {
        Seq::empty()
    } else {
        match objects[object as int].parent {
            Some(parent) => if parent < objects.len() {
                seq![parent] + ancestors_spec(objects, parent, (fuel - 1) as nat)
            } else {
                Seq::empty()
            },
            None => Seq::empty(),
        }
    }
}

/// Whether a list of classes holds a class.
pub fn holds(list: &Vec<ClassId>, class: ClassId) -> (r: bool)
    ensures
        r == list@.contains(class),
{
    let mut i: usize = 0;
    while i < list.len()
        invariant
            i <= list@.len(),
            forall|j: int| 0 <= j < i ==> list@[j] != class,
        decreases list@.len() - i,
    {
        if list[i] == class {
            return true;
        }
        i = i + 1;
    }
    false
}

/// Whether the class is the type, implements it, or derives from a class
/// that does.
pub fn class_is_type(classes: &Vec<Class>, class: ClassId, on_type: ClassId) -> (r: bool)
    ensures
        r == class_is(classes@, class, on_type),
{
    let mut current: ClassId = class;
    loop
        invariant
            class_is(classes@, class, on_type) == class_is(classes@, current, on_type),
        decreases current,
    {
        if current >= classes.len() {
            return false;
        }
        if current == on_type || holds(&classes[current].interfaces, on_type) {
            return true;
        }
        match classes[current].superclass {
            Some(base) => {
                if base < current {
                    current = base;
                } else {
                    return false;
                }
            },
            None => {
                return false;
            },
        }
    }
}

impl Object {
    /// A new instance of a class with the given number of slots, each
    /// `Undefined`, outside the scene graph and without listeners.
    pub fn new(class: Option<ClassId>, slot_count: usize) -> (r: Object)
        ensures
            r.class == class,
            r.parent is None,
            values_view(r.slots@) == Seq::new(slot_count as nat, |i: int| ValueView::Undefined),
            r.dispatch@ == Seq::<crate::avm2::events::HandlerView>::empty(),
    {
        let mut slots: Vec<Value> = Vec::new();
        let mut i: usize = 0;
        while i < slot_count
            invariant
                i <= slot_count,
                slots@.len() == i,
                forall|j: int| 0 <= j < i ==> slots@[j]@ == ValueView::Undefined,
            decreases slot_count - i,
        {
            slots.push(Value::Undefined);
            i = i + 1;
        }
        assert(values_view(slots@) =~= Seq::new(slot_count as nat, |i: int| ValueView::Undefined));
        Object { class, parent: None, slots, dispatch: DispatchList::new() }
    }

    /// Reads a slot.
    pub fn get_slot(&self, slot_id: u32) -> (r: Result<Value, Error>)
        ensures
            match r {
                Ok(v) => slot_id < self.slots@.len() && v@ == self.slots@[slot_id as int]@,
                Err(e) => slot_id >= self.slots@.len() && e == Error::SlotOutOfBounds,
            },
    {
        let index: usize = slot_id as usize;
        if index < self.slots.len() {
            Ok(self.slots[index].duplicate())
        } else {
            Err(Error::SlotOutOfBounds)
        }
    }

    /// Writes a slot. The other slots stay as they are.
    pub fn set_slot(&mut self, slot_id: u32, value: Value) -> (r: Result<(), Error>)
        ensures
            final(self).class == old(self).class,
            final(self).parent == old(self).parent,
            final(self).dispatch == old(self).dispatch,
            match r {
                Ok(_) => slot_id < old(self).slots@.len() && values_view(final(self).slots@)
                    == values_view(old(self).slots@).update(slot_id as int, value@),
                Err(e) => slot_id >= old(self).slots@.len() && e == Error::SlotOutOfBounds
                    && final(self).slots == old(self).slots,
            },
    {
        let index: usize = slot_id as usize;
        if index < self.slots.len() {
            self.slots[index] = value;
            assert(values_view(self.slots@) =~= values_view(old(self).slots@).update(
                slot_id as int,
                value@,
            ));
            Ok(())
        } else {
            Err(Error::SlotOutOfBounds)
        }
    }
}


/// An object that only holds the listeners of another. Scripts never see
/// it: they can neither construct it nor derive from it.
#[derive(Clone, Copy, Debug)]
pub struct DispatchObject(pub ObjectId);

impl DispatchObject {
    /// A new object that holds no listener yet.
    pub fn empty_list(objects: &mut Vec<Object>) -> (r: DispatchObject)
        ensures
            r.0 == old(objects)@.len(),
            final(objects)@.len() == old(objects)@.len() + 1,
            forall|i: int| 0 <= i < old(objects)@.len() ==> final(objects)@[i] == old(objects)@[i],
            final(objects)@[r.0 as int].class is None,
            final(objects)@[r.0 as int].parent is None,
            final(objects)@[r.0 as int].slots@.len() == 0,
            final(objects)@[r.0 as int].dispatch@ == Seq::<crate::avm2::events::HandlerView>::empty(),
    {
        let id: usize = objects.len();
        let object = Object::new(None, 0);
        assert(object.slots@.len() == values_view(object.slots@).len());
        objects.push(object);
        DispatchObject(id)
    }

    /// Scripts cannot construct such an object.
    pub fn construct(&self) -> (r: Result<ObjectId, Error>)
        ensures
            r == Err::<ObjectId, Error>(Error::CannotConstructDispatcher),
    {
        Err(Error::CannotConstructDispatcher)
    }

    /// Scripts cannot derive from such an object.
    pub fn value_of(&self) -> (r: Result<Value, Error>)
        ensures
            r matches Err(e) && e == Error::CannotSubclassDispatcher,
    {
        Err(Error::CannotSubclassDispatcher)
    }

    /// The listeners that the object holds.
    pub fn as_dispatch<'a>(&self, objects: &'a Vec<Object>) -> (r: Option<&'a DispatchList>)
        ensures
            match r {
                Some(list) => self.0 < objects@.len() && *list == objects@[self.0 as int].dispatch,
                None => self.0 >= objects@.len(),
            },
    {
        if self.0 < objects.len() {
            Some(&objects[self.0].dispatch)
        } else {
            None
        }
    }
}

} // verus!
