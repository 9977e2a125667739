//! Properties of objects of the first script machine.

use crate::value::{ObjectId, Value, ValueView};
use vstd::prelude::*;

verus! {

/// The attributes of a property: hidden from enumeration, protected from
/// deletion, protected from assignment.
#[derive(Clone, Copy, Debug, PartialEq, Eq, Structural)]
pub struct Attributes {
    pub dont_enum: bool,
    pub dont_delete: bool,
    pub read_only: bool,
}

impl Attributes {
    pub open spec fn empty_spec() -> Attributes {
        Attributes { dont_enum: false, dont_delete: false, read_only: false }
    }

    /// The attributes of both sets.
    pub open spec fn union_spec(self, other: Attributes) -> Attributes {
        Attributes {
            dont_enum: self.dont_enum || other.dont_enum,
            dont_delete: self.dont_delete || other.dont_delete,
            read_only: self.read_only || other.read_only,
        }
    }

    /// The attributes of this set that are not in the other.
    pub open spec fn difference_spec(self, other: Attributes) -> Attributes {
        Attributes {
            dont_enum: self.dont_enum && !other.dont_enum,
            dont_delete: self.dont_delete && !other.dont_delete,
            read_only: self.read_only && !other.read_only,
        }
    }

    /// No attribute.
    pub fn empty() -> (r: Attributes)
        ensures
            r == Attributes::empty_spec(),
    {
        Attributes { dont_enum: false, dont_delete: false, read_only: false }
    }

    pub fn union(self, other: Attributes) -> (r: Attributes)
        ensures
            r == self.union_spec(other),
    {
        Attributes {
            dont_enum: self.dont_enum || other.dont_enum,
            dont_delete: self.dont_delete || other.dont_delete,
            read_only: self.read_only || other.read_only,
        }
    }

    pub fn difference(self, other: Attributes) -> (r: Attributes)
        ensures
            r == self.difference_spec(other),
    {
        Attributes {
            dont_enum: self.dont_enum && !other.dont_enum,
            dont_delete: self.dont_delete && !other.dont_delete,
            read_only: self.read_only && !other.read_only,
        }
    }
}

/// A property: a stored value, or a pair of accessor functions of which the
/// setter may be absent.
#[derive(Debug)]
pub enum Property {
    Stored { value: Value, attributes: Attributes },
    Virtual { get: ObjectId, set: Option<ObjectId>, attributes: Attributes },
}

pub enum PropertyView {
    Stored { value: ValueView, attributes: Attributes },
    Virtual { get: ObjectId, set: Option<ObjectId>, attributes: Attributes },
}

impl View for Property {
    type V = PropertyView;

    open spec fn view(&self) -> PropertyView {
        match self {
            Property::Stored { value, attributes } => PropertyView::Stored {
                value: value@,
                attributes: *attributes,
            },
            Property::Virtual { get, set, attributes } => PropertyView::Virtual {
                get: *get,
                set: *set,
                attributes: *attributes,
            },
        }
    }
}

impl PropertyView {
    pub open spec fn attributes(self) -> Attributes {
        match self {
            PropertyView::Stored { attributes, .. } => attributes,
            PropertyView::Virtual { attributes, .. } => attributes,
        }
    }

    /// The same property with other attributes.
    pub open spec fn with_attributes(self, attributes: Attributes) -> PropertyView {
        match self {
            PropertyView::Stored { value, .. } => PropertyView::Stored { value, attributes },
            PropertyView::Virtual { get, set, .. } => PropertyView::Virtual {
                get,
                set,
                attributes,
            },
        }
    }
}

impl Property {
    pub fn attributes(&self) -> (r: Attributes)
        ensures
            r == self@.attributes(),
    {
        match self {
            Property::Stored { attributes, .. } => *attributes,
            Property::Virtual { attributes, .. } => *attributes,
        }
    }

    /// Replaces the attributes and keeps the rest.
    pub fn set_attributes(&mut self, new_attributes: Attributes)
        ensures
            final(self)@ == old(self)@.with_attributes(new_attributes),
    {
        match self {
            Property::Stored { attributes, .. } => {
                *attributes = new_attributes;
            },
            Property::Virtual { attributes, .. } => {
                *attributes = new_attributes;
            },
        }
    }

    pub fn can_delete(&self) -> (r: bool)
        ensures
            r == !self@.attributes().dont_delete,
    {
        !self.attributes().dont_delete
    }

    pub fn is_enumerable(&self) -> (r: bool)
        ensures
            r == !self@.attributes().dont_enum,
    {
        !self.attributes().dont_enum
    }

    pub fn is_overwritable(&self) -> (r: bool)
        ensures
            r == !self@.attributes().read_only,
    {
        !self.attributes().read_only
    }

    pub fn is_virtual(&self) -> (r: bool)
        ensures
            r == (self@ is Virtual),
    {
        match self {
            Property::Virtual { .. } => true,
            Property::Stored { .. } => false,
        }
    }
}

} // verus!
