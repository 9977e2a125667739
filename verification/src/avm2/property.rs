//! Properties of objects of the second script machine.

use crate::avm2::error::{Error, ErrorView};
use crate::avm2::return_value::{ReturnValue, ReturnView};
use crate::value::{values_view, ObjectId, Value, ValueView};
use vstd::prelude::*;

verus! {

/// An attribute of a property.
#[derive(Clone, Copy, Debug, PartialEq, Eq, Structural)]
pub enum Attribute {
    /// The property may not be deleted.
    DontDelete,
    /// The property may not be assigned.
    ReadOnly,
}

/// A set of attributes.
#[derive(Clone, Copy, Debug, PartialEq, Eq, Structural)]
pub struct AttributeSet {
    pub dont_delete: bool,
    pub read_only: bool,
}

impl AttributeSet {
    pub open spec fn contains_spec(self, attribute: Attribute) -> bool {
        match attribute {
            Attribute::DontDelete => self.dont_delete,
            Attribute::ReadOnly => self.read_only,
        }
    }

    /// The empty set.
    pub fn empty() -> (r: AttributeSet)
        ensures
            r == (AttributeSet { dont_delete: false, read_only: false }),
    {
        AttributeSet { dont_delete: false, read_only: false }
    }

    /// The set of one attribute.
    pub fn only(attribute: Attribute) -> (r: AttributeSet)
        ensures
            r == (AttributeSet {
                dont_delete: attribute == Attribute::DontDelete,
                read_only: attribute == Attribute::ReadOnly,
            }),
    {
        match attribute {
            Attribute::DontDelete => AttributeSet { dont_delete: true, read_only: false },
            Attribute::ReadOnly => AttributeSet { dont_delete: false, read_only: true },
        }
    }

    /// The set with one more attribute.
    pub fn with(self, attribute: Attribute) -> (r: AttributeSet)
        ensures
            r == (AttributeSet {
                dont_delete: self.dont_delete || attribute == Attribute::DontDelete,
                read_only: self.read_only || attribute == Attribute::ReadOnly,
            }),
    {
        match attribute {
            Attribute::DontDelete => AttributeSet { dont_delete: true, read_only: self.read_only },
            Attribute::ReadOnly => AttributeSet { dont_delete: self.dont_delete, read_only: true },
        }
    }

    pub fn contains(self, attribute: Attribute) -> (r: bool)
        ensures
            r == self.contains_spec(attribute),
    {
        match attribute {
            Attribute::DontDelete => self.dont_delete,
            Attribute::ReadOnly => self.read_only,
        }
    }
}

/// A property: a pair of accessor functions, either of which may be absent;
/// a stored value; or a slot of the instance, by its index.
#[derive(Debug)]
pub enum Property {
    Virtual { get: Option<ObjectId>, set: Option<ObjectId>, attributes: AttributeSet },
    Stored { value: Value, attributes: AttributeSet },
    Slot { slot_id: u32, attributes: AttributeSet },
}

pub enum PropertyView {
    Virtual { get: Option<ObjectId>, set: Option<ObjectId>, attributes: AttributeSet },
    Stored { value: ValueView, attributes: AttributeSet },
    Slot { slot_id: u32, attributes: AttributeSet },
}

impl View for Property {
    type V = PropertyView;

    open spec fn view(&self) -> PropertyView {
        match self {
            Property::Virtual { get, set, attributes } => PropertyView::Virtual {
                get: *get,
                set: *set,
                attributes: *attributes,
            },
            Property::Stored { value, attributes } => PropertyView::Stored {
                value: value@,
                attributes: *attributes,
            },
            Property::Slot { slot_id, attributes } => PropertyView::Slot {
                slot_id: *slot_id,
                attributes: *attributes,
            },
        }
    }
}

impl PropertyView {
    pub open spec fn attributes(self) -> AttributeSet {
        match self {
            PropertyView::Virtual { attributes, .. } => attributes,
            PropertyView::Stored { attributes, .. } => attributes,
            PropertyView::Slot { attributes, .. } => attributes,
        }
    }

    /// What reading the property yields: a call of the getter, `Undefined`
    /// where the getter is absent, the stored value, or the value of the
    /// slot of the instance.
    pub open spec fn get(
        self,
        this: ObjectId,
        base_proto: Option<ObjectId>,
        slots: Seq<ValueView>,
    ) -> Result<ReturnView, ErrorView> {
        match self {
            PropertyView::Virtual { get: Some(get), .. } => Ok(
                ReturnView::ResultOf {
                    executable: get,
                    receiver: Some(this),
                    arguments: Seq::empty(),
                    base_proto,
                },
            ),
            PropertyView::Virtual { get: None, .. } => Ok(
                ReturnView::Immediate(ValueView::Undefined),
            ),
            PropertyView::Stored { value, .. } => Ok(ReturnView::Immediate(value)),
            PropertyView::Slot { slot_id, .. } => if slot_id < slots.len() {
                Ok(ReturnView::Immediate(slots[slot_id as int]))
            } else {
                Err(ErrorView::SlotOutOfBounds)
            },
        }
    }

    /// What writing the property yields: a call of the setter, or
    /// `Undefined` where the write is complete or has no effect.
    pub open spec fn write_result(
        self,
        this: ObjectId,
        base_proto: Option<ObjectId>,
        new_value: ValueView,
    ) -> ReturnView {
        match self {
            PropertyView::Virtual { set: Some(set), .. } => ReturnView::ResultOf {
                executable: set,
                receiver: Some(this),
                arguments: seq![new_value],
                base_proto,
            },
            _ => ReturnView::Immediate(ValueView::Undefined),
        }
    }

    /// The property after `set`: a stored value that may be assigned is
    /// replaced; anything else stays.
    pub open spec fn after_set(self, new_value: ValueView) -> PropertyView {
        match self {
            PropertyView::Stored { value, attributes } => if attributes.read_only {
                self
            } else {
                PropertyView::Stored { value: new_value, attributes }
            },
            _ => self,
        }
    }

    /// The property after `init`: a stored value is replaced even where it
    /// may not be assigned; anything else stays.
    pub open spec fn after_init(self, new_value: ValueView) -> PropertyView {
        match self {
            PropertyView::Stored { value, attributes } => PropertyView::Stored {
                value: new_value,
                attributes,
            },
            _ => self,
        }
    }
}

impl Property {
    /// A stored property that may not be deleted.
    pub fn new_stored(value: Value) -> (r: Property)
        ensures
            r@ == (PropertyView::Stored {
                value: value@,
                attributes: AttributeSet { dont_delete: true, read_only: false },
            }),
    {
        Property::Stored { value, attributes: AttributeSet::only(Attribute::DontDelete) }
    }

    /// A stored property that may be neither deleted nor assigned.
    pub fn new_const(value: Value) -> (r: Property)
        ensures
            r@ == (PropertyView::Stored {
                value: value@,
                attributes: AttributeSet { dont_delete: true, read_only: true },
            }),
    {
        Property::Stored {
            value,
            attributes: AttributeSet::only(Attribute::ReadOnly).with(Attribute::DontDelete),
        }
    }

    /// A stored property without attributes.
    pub fn new_dynamic_property(value: Value) -> (r: Property)
        ensures
            r@ == (PropertyView::Stored {
                value: value@,
                attributes: AttributeSet { dont_delete: false, read_only: false },
            }),
    {
        Property::Stored { value, attributes: AttributeSet::empty() }
    }

    /// A method: the function, stored so that it may be neither deleted nor
    /// assigned.
    pub fn new_method(fn_obj: ObjectId) -> (r: Property)
        ensures
            r@ == (PropertyView::Stored {
                value: ValueView::Object(fn_obj),
                attributes: AttributeSet { dont_delete: true, read_only: true },
            }),
    {
        Property::Stored {
            value: Value::Object(fn_obj),
            attributes: AttributeSet::only(Attribute::ReadOnly).with(Attribute::DontDelete),
        }
    }

    /// A pair of accessors, both still absent.
    pub fn new_virtual() -> (r: Property)
        ensures
            r@ == (PropertyView::Virtual {
                get: None,
                set: None,
                attributes: AttributeSet { dont_delete: true, read_only: true },
            }),
    {
        Property::Virtual {
            get: None,
            set: None,
            attributes: AttributeSet::only(Attribute::ReadOnly).with(Attribute::DontDelete),
        }
    }

    /// A slot property that may not be deleted.
    pub fn new_slot(slot_id: u32) -> (r: Property)
        ensures
            r@ == (PropertyView::Slot {
                slot_id,
                attributes: AttributeSet { dont_delete: true, read_only: false },
            }),
    {
        Property::Slot { slot_id, attributes: AttributeSet::only(Attribute::DontDelete) }
    }

    /// Installs a getter. Only a pair of accessors takes one.
    pub fn install_virtual_getter(&mut self, getter_impl: ObjectId) -> (r: Result<(), Error>)
        ensures
            match old(self)@ {
                PropertyView::Virtual { get, set, attributes } => r is Ok && final(self)@ == (
                PropertyView::Virtual { get: Some(getter_impl), set, attributes }),
                _ => r matches Err(e) && e@ == ErrorView::NotVirtual && final(self)@ == old(self)@,
            },
    {
        match self {
            Property::Virtual { get, .. } => {
                *get = Some(getter_impl);
                Ok(())
            },
            _ => Err(Error::NotVirtual),
        }
    }

    /// Installs a setter. Only a pair of accessors takes one.
    pub fn install_virtual_setter(&mut self, setter_impl: ObjectId) -> (r: Result<(), Error>)
        ensures
            match old(self)@ {
                PropertyView::Virtual { get, set, attributes } => r is Ok && final(self)@ == (
                PropertyView::Virtual { get, set: Some(setter_impl), attributes }),
                _ => r matches Err(e) && e@ == ErrorView::NotVirtual && final(self)@ == old(self)@,
            },
    {
        match self {
            Property::Virtual { set, .. } => {
                *set = Some(setter_impl);
                Ok(())
            },
            _ => Err(Error::NotVirtual),
        }
    }

    /// Reads the property of the instance `this`, whose slots are given.
    pub fn get(&self, this: ObjectId, base_proto: Option<ObjectId>, slots: &Vec<Value>) -> (r:
        Result<ReturnValue, Error>)
        ensures
            crate::avm2::return_value::outcome_view(r) == self@.get(
                this,
                base_proto,
                values_view(slots@),
            ),
    {
        match self {
            Property::Virtual { get: Some(get), .. } => {
                let arguments: Vec<Value> = Vec::new();
                assert(values_view(arguments@) =~= Seq::empty());
                Ok(
                    ReturnValue::ResultOf {
                        executable: *get,
                        receiver: Some(this),
                        arguments,
                        base_proto,
                    },
                )
            },
            Property::Virtual { get: None, .. } => Ok(ReturnValue::Immediate(Value::Undefined)),
            Property::Stored { value, .. } => Ok(ReturnValue::Immediate(value.duplicate())),
            Property::Slot { slot_id, .. } => {
                let index: usize = *slot_id as usize;
                if index < slots.len() {
                    Ok(ReturnValue::Immediate(slots[index].duplicate()))
                } else {
                    Err(Error::SlotOutOfBounds)
                }
            },
        }
    }

    /// Writes the property. A slot is not written this way.
    pub fn set(&mut self, this: ObjectId, base_proto: Option<ObjectId>, new_value: Value) -> (r:
        ReturnValue)
        requires
            !(old(self)@ is Slot),
        ensures
            r@ == old(self)@.write_result(this, base_proto, new_value@),
            final(self)@ == old(self)@.after_set(new_value@),
    {
        match self {
            Property::Virtual { set, .. } => {
                match set {
                    Some(function) => {
                        let mut arguments: Vec<Value> = Vec::new();
                        arguments.push(new_value);
                        assert(values_view(arguments@) =~= seq![new_value@]);
                        ReturnValue::ResultOf {
                            executable: *function,
                            receiver: Some(this),
                            arguments,
                            base_proto,
                        }
                    },
                    None => ReturnValue::Immediate(Value::Undefined),
                }
            },
            Property::Stored { value, attributes } => {
                if !attributes.read_only {
                    *value = new_value;
                }
                ReturnValue::Immediate(Value::Undefined)
            },
            Property::Slot { .. } => ReturnValue::Immediate(Value::Undefined),
        }
    }

    /// Initializes the property: as `set`, but a stored value is replaced
    /// even where it may not be assigned. A slot is not written this way.
    pub fn init(&mut self, this: ObjectId, base_proto: Option<ObjectId>, new_value: Value) -> (r:
        ReturnValue)
        requires
            !(old(self)@ is Slot),
        ensures
            r@ == old(self)@.write_result(this, base_proto, new_value@),
            final(self)@ == old(self)@.after_init(new_value@),
    {
        match self {
            Property::Virtual { set, .. } => {
                match set {
                    Some(function) => {
                        let mut arguments: Vec<Value> = Vec::new();
                        arguments.push(new_value);
                        assert(values_view(arguments@) =~= seq![new_value@]);
                        ReturnValue::ResultOf {
                            executable: *function,
                            receiver: Some(this),
                            arguments,
                            base_proto,
                        }
                    },
                    None => ReturnValue::Immediate(Value::Undefined),
                }
            },
            Property::Stored { value, .. } => {
                *value = new_value;
                ReturnValue::Immediate(Value::Undefined)
            },
            Property::Slot { .. } => ReturnValue::Immediate(Value::Undefined),
        }
    }

    /// The index of the slot, if the property is a slot.
    pub fn slot_id(&self) -> (r: Option<u32>)
        ensures
            r == (match self@ {
                PropertyView::Slot { slot_id, .. } => Some(slot_id),
                _ => None,
            }),
    {
        match self {
            Property::Slot { slot_id, .. } => Some(*slot_id),
            _ => None,
        }
    }

    pub fn can_delete(&self) -> (r: bool)
        ensures
            r == !self@.attributes().dont_delete,
    {
        match self {
            Property::Virtual { attributes, .. } => !attributes.contains(Attribute::DontDelete),
            Property::Stored { attributes, .. } => !attributes.contains(Attribute::DontDelete),
            Property::Slot { attributes, .. } => !attributes.contains(Attribute::DontDelete),
        }
    }

    /// Whether a write changes or reaches anything: the property may be
    /// assigned and, for a pair of accessors, has a setter.
    pub fn is_overwritable(&self) -> (r: bool)
        ensures
            r == (!self@.attributes().read_only && !(self@ matches PropertyView::Virtual {
                set: None,
                ..
            })),
    {
        match self {
            Property::Virtual { attributes, set, .. } => !attributes.contains(Attribute::ReadOnly)
                && set.is_some(),
            Property::Stored { attributes, .. } => !attributes.contains(Attribute::ReadOnly),
            Property::Slot { attributes, .. } => !attributes.contains(Attribute::ReadOnly),
        }
    }
}

/// A stored property reads as what was last written to it, unless it may
/// not be assigned: then it reads as before.
pub proof fn lemma_set_then_get(
    property: PropertyView,
    this: ObjectId,
    base_proto: Option<ObjectId>,
    slots: Seq<ValueView>,
    new_value: ValueView,
)
    requires
        property is Stored,
    ensures
        property.attributes().read_only ==> property.after_set(new_value) == property,
        !property.attributes().read_only ==> property.after_set(new_value).get(
            this,
            base_proto,
            slots,
        ) == Ok::<ReturnView, ErrorView>(ReturnView::Immediate(new_value)),
{
}

} // verus!
