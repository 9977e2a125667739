//! What can go wrong while a script runs.

use crate::value::{Value, ValueView};
use vstd::prelude::*;

verus! {

/// An error of the first script machine.
///
/// Conditions that are recovered where they occur (an empty operand stack, a
/// missing property) are no errors: they yield `Undefined`.
#[derive(Debug)]
pub enum Error {
    /// No activation is running.
    NoStackFrame,
    /// A prototype chain is longer than the machine follows.
    PrototypeRecursionLimit,
    /// Function calls are nested deeper than the machine allows.
    FunctionRecursionLimit,
    /// The script ran longer than the machine allows.
    ExecutionTimeout,
    /// The code slice does not hold well-formed actions.
    InvalidBytecode,
    /// A built-in function reports a failure; it is thrown as its message.
    NativeFunctionError(String),
    /// A value thrown by the script.
    ThrownValue(Value),
}

pub enum ErrorView {
    NoStackFrame,
    PrototypeRecursionLimit,
    FunctionRecursionLimit,
    ExecutionTimeout,
    InvalidBytecode,
    NativeFunctionError(Seq<char>),
    ThrownValue(ValueView),
}

impl View for Error {
    type V = ErrorView;

    open spec fn view(&self) -> ErrorView {
        match self {
            Error::NoStackFrame => ErrorView::NoStackFrame,
            Error::PrototypeRecursionLimit => ErrorView::PrototypeRecursionLimit,
            Error::FunctionRecursionLimit => ErrorView::FunctionRecursionLimit,
            Error::ExecutionTimeout => ErrorView::ExecutionTimeout,
            Error::InvalidBytecode => ErrorView::InvalidBytecode,
            Error::NativeFunctionError(m) => ErrorView::NativeFunctionError(m@),
            Error::ThrownValue(v) => ErrorView::ThrownValue(v@),
        }
    }
}

impl ErrorView {
    /// Whether the error ends all further execution.
    pub open spec fn is_halting(self) -> bool {
        match self {
            ErrorView::PrototypeRecursionLimit => true,
            ErrorView::FunctionRecursionLimit => true,
            ErrorView::ExecutionTimeout => true,
            ErrorView::InvalidBytecode => true,
            _ => false,
        }
    }
}

impl Error {
    /// Whether the error ends all further execution.
    pub fn is_halting(&self) -> (r: bool)
        ensures
            r == self@.is_halting(),
    {
        match self {
            Error::PrototypeRecursionLimit => true,
            Error::FunctionRecursionLimit => true,
            Error::ExecutionTimeout => true,
            Error::InvalidBytecode => true,
            _ => false,
        }
    }

    /// The value that the script catches for this error: the thrown value
    /// itself, the message of a built-in function's failure, and none for the
    /// others, which no script can catch.
    pub fn into_thrown(self) -> (r: Option<Value>)
        ensures
            match self@ {
                ErrorView::ThrownValue(v) => r matches Some(t) && t@ == v,
                ErrorView::NativeFunctionError(m) => r matches Some(t) && t@ == ValueView::String(
                    m,
                ),
                _ => r is None,
            },
    {
        match self {
            Error::ThrownValue(v) => Some(v),
            Error::NativeFunctionError(m) => Some(Value::String(m)),
            _ => None,
        }
    }
}

} // verus!
