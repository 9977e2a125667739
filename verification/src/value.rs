//! The values that scripts compute with.

use crate::number::Number;
use crate::text::{parse_i32, parse_i32_spec, str_eq};
use vstd::prelude::*;
use vstd::string::*;

verus! {

/// A reference to an object: its index in the heap that owns it.
pub type ObjectId = usize;

/// A script value. Numbers and strings are held by value; an object is held
/// by reference.
#[derive(Debug)]
pub enum Value {
    Undefined,
    Null,
    Bool(bool),
    Number(Number),
    String(String),
    Object(ObjectId),
}

/// What a value is, with a string as the sequence of its characters.
pub enum ValueView {
    Undefined,
    Null,
    Bool(bool),
    Number(Number),
    String(Seq<char>),
    Object(ObjectId),
}

impl View for Value {
    type V = ValueView;

    open spec fn view(&self) -> ValueView {
        match self {
            Value::Undefined => ValueView::Undefined,
            Value::Null => ValueView::Null,
            Value::Bool(b) => ValueView::Bool(*b),
            Value::Number(n) => ValueView::Number(*n),
            Value::String(s) => ValueView::String(s@),
            Value::Object(o) => ValueView::Object(*o),
        }
    }
}

/// The views of a sequence of values.
pub open spec fn values_view(values: Seq<Value>) -> Seq<ValueView> {
    Seq::new(values.len(), |i: int| values[i]@)
}

impl ValueView {
    /// The truth of a value. A text is true when it is not empty, and in
    /// movies before version 7 when it denotes an integer other than zero.
    pub open spec fn as_bool(self, swf_version: u8) -> bool {
        match self {
            ValueView::Undefined => false,
            ValueView::Null => false,
            ValueView::Bool(b) => b,
            ValueView::Number(n) => !n.is_nan_spec() && !n.is_zero_spec(),
            ValueView::String(s) => if swf_version >= 7 {
                s.len() > 0
            } else {
                match parse_i32_spec(s) {
                    Some(v) => v != 0,
                    None => false,
                }
            },
            ValueView::Object(_) => true,
        }
    }

    /// The 32-bit integer that a primitive value converts to. A text gives
    /// the integer it writes in decimal notation and 0 otherwise; an object
    /// gives 0 until it has been converted to a primitive.
    pub open spec fn to_i32(self) -> int {
        match self {
            ValueView::Undefined => 0,
            ValueView::Null => 0,
            ValueView::Bool(b) => if b {
                1
            } else {
                0
            },
            ValueView::Number(n) => n.to_i32_spec(),
            ValueView::String(s) => match parse_i32_spec(s) {
                Some(v) => v,
                None => 0,
            },
            ValueView::Object(_) => 0,
        }
    }

    /// The text of a value, where it has one that needs neither a call of
    /// script code nor the decimal notation of a fraction: the text of a
    /// string is the string; a number that is a 32-bit integer is written in
    /// decimal notation; NaN and the infinities have their names; so have
    /// `undefined`, `null`, `true` and `false`.
    pub open spec fn to_text(self) -> Option<Seq<char>> {
        match self {
            ValueView::Undefined => Some("undefined"@),
            ValueView::Null => Some("null"@),
            ValueView::Bool(b) => if b {
                Some("true"@)
            } else {
                Some("false"@)
            },
            ValueView::Number(n) => match n.exact_i32() {
                Some(i) => Some(crate::text::decimal(i)),
                None => if n.is_nan_spec() {
                    Some("NaN"@)
                } else if n.is_infinite_spec() {
                    if n.sign() {
                        Some("-Infinity"@)
                    } else {
                        Some("Infinity"@)
                    }
                } else {
                    None
                },
            },
            ValueView::String(s) => Some(s),
            ValueView::Object(_) => None,
        }
    }

    /// The number that a primitive value converts to. `undefined` and
    /// `null` give NaN from version 7 on and 0 before; a text gives the
    /// integer that it writes in decimal notation and NaN otherwise; an
    /// object gives NaN until it has been converted to a primitive.
    pub open spec fn to_number(self, swf_version: u8) -> Number {
        match self {
            ValueView::Undefined | ValueView::Null => if swf_version >= 7 {
                Number { bits: crate::number::NAN_BITS }
            } else {
                Number::of_int(0)
            },
            ValueView::Bool(b) => if b {
                Number::of_int(1)
            } else {
                Number::of_int(0)
            },
            ValueView::Number(n) => n,
            ValueView::String(s) => match parse_i32_spec(s) {
                Some(v) => Number::of_int(v),
                None => Number { bits: crate::number::NAN_BITS },
            },
            ValueView::Object(_) => Number { bits: crate::number::NAN_BITS },
        }
    }

    /// The name of the type of a primitive value, as `typeof` reports it.
    pub open spec fn primitive_type_name(self) -> Seq<char> {
        match self {
            ValueView::Undefined => "undefined"@,
            ValueView::Null => "null"@,
            ValueView::Bool(_) => "boolean"@,
            ValueView::Number(_) => "number"@,
            ValueView::String(_) => "string"@,
            ValueView::Object(_) => "object"@,
        }
    }

    /// Equality without conversion: the same kind and the same content.
    /// Numbers compare as numbers do, objects by identity.
    pub open spec fn strict_eq(self, other: ValueView) -> bool {
        match (self, other) {
            (ValueView::Undefined, ValueView::Undefined) => true,
            (ValueView::Null, ValueView::Null) => true,
            (ValueView::Bool(a), ValueView::Bool(b)) => a == b,
            (ValueView::Number(a), ValueView::Number(b)) => a.numeric_eq_spec(b),
            (ValueView::String(a), ValueView::String(b)) => a == b,
            (ValueView::Object(a), ValueView::Object(b)) => a == b,
            _ => false,
        }
    }
}

impl Value {
    /// A copy of the value.
    pub fn duplicate(&self) -> (r: Value)
        ensures
            r@ == self@,
    {
        match self {
            Value::Undefined => Value::Undefined,
            Value::Null => Value::Null,
            Value::Bool(b) => Value::Bool(*b),
            Value::Number(n) => Value::Number(*n),
            Value::String(s) => Value::String(s.clone()),
            Value::Object(o) => Value::Object(*o),
        }
    }

    /// The value of a text.
    pub fn from_str(s: &str) -> (r: Value)
        ensures
            r@ == ValueView::String(s@),
    {
        Value::String(String::from_str(s))
    }

    /// The value of an integer.
    pub fn from_i32(i: i32) -> (r: Value)
        ensures
            r@ == ValueView::Number(Number::of_int(i as int)),
            r@.to_i32() == i,
    {
        Value::Number(Number::from_i32(i))
    }

    pub fn is_undefined(&self) -> (r: bool)
        ensures
            r == (self@ == ValueView::Undefined),
    {
        match self {
            Value::Undefined => true,
            _ => false,
        }
    }

    pub fn is_primitive(&self) -> (r: bool)
        ensures
            r == !(self@ is Object),
    {
        match self {
            Value::Object(_) => false,
            _ => true,
        }
    }

    /// The object that the value refers to, if it refers to one.
    pub fn as_object(&self) -> (r: Option<ObjectId>)
        ensures
            r == (match self@ {
                ValueView::Object(o) => Some(o),
                _ => None,
            }),
    {
        match self {
            Value::Object(o) => Some(*o),
            _ => None,
        }
    }

    /// The truth of the value in a movie of the given version.
    pub fn as_bool(&self, swf_version: u8) -> (r: bool)
        ensures
            r == self@.as_bool(swf_version),
    {
        match self {
            Value::Undefined => false,
            Value::Null => false,
            Value::Bool(b) => *b,
            Value::Number(n) => !n.is_nan() && !n.is_zero(),
            Value::String(s) => {
                if swf_version >= 7 {
                    s.as_str().unicode_len() > 0
                } else {
                    match parse_i32(s.as_str()) {
                        Some(v) => v != 0,
                        None => false,
                    }
                }
            },
            Value::Object(_) => true,
        }
    }

    /// The 32-bit integer that the value converts to.
    pub fn coerce_to_i32(&self) -> (r: i32)
        ensures
            r == self@.to_i32(),
    {
        match self {
            Value::Undefined => 0,
            Value::Null => 0,
            Value::Bool(b) => if *b {
                1
            } else {
                0
            },
            Value::Number(n) => n.to_i32(),
            Value::String(s) => match parse_i32(s.as_str()) {
                Some(v) => v,
                None => 0,
            },
            Value::Object(_) => 0,
        }
    }

    /// The text of the value, where it has one.
    pub fn to_text(&self) -> (r: Option<String>)
        ensures
            match r {
                Some(t) => self@.to_text() == Some(t@),
                None => self@.to_text() is None,
            },
    {
        match self {
            Value::Undefined => Some(String::from_str("undefined")),
            Value::Null => Some(String::from_str("null")),
            Value::Bool(b) => if *b {
                Some(String::from_str("true"))
            } else {
                Some(String::from_str("false"))
            },
            Value::Number(n) => match n.as_exact_i32() {
                Some(i) => Some(crate::text::i32_to_string(i)),
                None => if n.is_nan() {
                    Some(String::from_str("NaN"))
                } else if n.is_infinite() {
                    if n.is_negative() {
                        Some(String::from_str("-Infinity"))
                    } else {
                        Some(String::from_str("Infinity"))
                    }
                } else {
                    None
                },
            },
            Value::String(s) => Some(s.clone()),
            Value::Object(_) => None,
        }
    }

    /// The number that the value converts to.
    pub fn coerce_to_number(&self, swf_version: u8) -> (r: Number)
        ensures
            r == self@.to_number(swf_version),
    {
        match self {
            Value::Undefined | Value::Null => if swf_version >= 7 {
                Number::nan()
            } else {
                Number::from_i32(0)
            },
            Value::Bool(b) => if *b {
                Number::from_i32(1)
            } else {
                Number::from_i32(0)
            },
            Value::Number(n) => *n,
            Value::String(s) => match parse_i32(s.as_str()) {
                Some(v) => Number::from_i32(v),
                None => Number::nan(),
            },
            Value::Object(_) => Number::nan(),
        }
    }

    /// The name of the type of a primitive value.
    pub fn primitive_type_name(&self) -> (r: &'static str)
        ensures
            r@ == self@.primitive_type_name(),
    {
        match self {
            Value::Undefined => "undefined",
            Value::Null => "null",
            Value::Bool(_) => "boolean",
            Value::Number(_) => "number",
            Value::String(_) => "string",
            Value::Object(_) => "object",
        }
    }

    /// Equality without conversion.
    pub fn strict_eq(&self, other: &Value) -> (r: bool)
        ensures
            r == self@.strict_eq(other@),
    {
        match (self, other) {
            (Value::Undefined, Value::Undefined) => true,
            (Value::Null, Value::Null) => true,
            (Value::Bool(a), Value::Bool(b)) => *a == *b,
            (Value::Number(a), Value::Number(b)) => a.numeric_eq(*b),
            (Value::String(a), Value::String(b)) => str_eq(a.as_str(), b.as_str()),
            (Value::Object(a), Value::Object(b)) => *a == *b,
            _ => false,
        }
    }
}

/// A copy of a list of values.
pub fn duplicate_values(values: &Vec<Value>) -> (r: Vec<Value>)
    ensures
        values_view(r@) == values_view(values@),
        r@.len() == values@.len(),
{
    let mut out: Vec<Value> = Vec::new();
    let mut i: usize = 0;
    while i < values.len()
        invariant
            i <= values.len(),
            out@.len() == i,
            forall|j: int| 0 <= j < i ==> out@[j]@ == values@[j]@,
        decreases values.len() - i,
    {
        out.push(values[i].duplicate());
        i = i + 1;
    }
    assert(values_view(out@) =~= values_view(values@));
    out
}

} // verus!
