//! What a property access of the second script machine yields.

use crate::avm2::error::{Error, ErrorView};
use crate::value::{values_view, ObjectId, Value, ValueView};
use vstd::prelude::*;

verus! {

/// A value, or a call that the caller has to make to obtain it. A property
/// access never runs script code itself.
#[derive(Debug)]
pub enum ReturnValue {
    Immediate(Value),
    ResultOf {
        executable: ObjectId,
        receiver: Option<ObjectId>,
        arguments: Vec<Value>,
        base_proto: Option<ObjectId>,
    },
}

pub enum ReturnView {
    Immediate(ValueView),
    ResultOf {
        executable: ObjectId,
        receiver: Option<ObjectId>,
        arguments: Seq<ValueView>,
        base_proto: Option<ObjectId>,
    },
}

impl View for ReturnValue {
    type V = ReturnView;

    open spec fn view(&self) -> ReturnView {
        match self {
            ReturnValue::Immediate(v) => ReturnView::Immediate(v@),
            ReturnValue::ResultOf { executable, receiver, arguments, base_proto } => {
                ReturnView::ResultOf {
                    executable: *executable,
                    receiver: *receiver,
                    arguments: values_view(arguments@),
                    base_proto: *base_proto,
                }
            },
        }
    }
}

/// The view of the outcome of a property access.
pub open spec fn outcome_view(r: Result<ReturnValue, Error>) -> Result<ReturnView, ErrorView> {
    match r {
        Ok(v) => Ok(v@),
        Err(e) => Err(e@),
    }
}

impl ReturnValue {
    /// The call that yields the value.
    pub fn defer_execution(
        executable: ObjectId,
        receiver: Option<ObjectId>,
        arguments: Vec<Value>,
        base_proto: Option<ObjectId>,
    ) -> (r: ReturnValue)
        ensures
            r@ == (ReturnView::ResultOf {
                executable,
                receiver,
                arguments: values_view(arguments@),
                base_proto,
            }),
    {
        ReturnValue::ResultOf { executable, receiver, arguments, base_proto }
    }

    /// Whether the value is there without a call.
    pub fn is_immediate(&self) -> (r: bool)
        ensures
            r == (self@ is Immediate),
    {
        match self {
            ReturnValue::Immediate(_) => true,
            ReturnValue::ResultOf { .. } => false,
        }
    }
}

} // verus!
