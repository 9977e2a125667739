//! Errors of the second script machine.

use vstd::prelude::*;

verus! {

/// An error of the second script machine.
#[derive(Clone, Copy, Debug, PartialEq, Eq, Structural)]
pub enum Error {
    /// Accessors were installed into a property that is no pair of
    /// accessors.
    NotVirtual,
    /// A slot index lies beyond the slots of the instance.
    SlotOutOfBounds,
    /// The ABC data is corrupt. It is reported to scripts under the code
    /// 1107.
    CorruptAbc,
    /// Scripts tried to construct an object that only holds listeners.
    CannotConstructDispatcher,
    /// Scripts tried to derive from an object that only holds listeners.
    CannotSubclassDispatcher,
}

pub type ErrorView = Error;

impl View for Error {
    type V = Error;

    open spec fn view(&self) -> Error {
        *self
    }
}

impl Error {
    /// The numeric code under which the emulated runtime reports the error;
    /// 0 where it has none.
    pub fn code(&self) -> (r: u32)
        ensures
            r == (match self {
                Error::CorruptAbc => 1107u32,
                _ => 0u32,
            }),
    {
        match self {
            Error::CorruptAbc => 1107,
            _ => 0,
        }
    }

    /// The message of the error.
    pub fn message(&self) -> (r: &'static str)
        ensures
            r@ == (match self {
                Error::NotVirtual => "Not a virtual property"@,
                Error::SlotOutOfBounds => "Slot index out of bounds!"@,
                Error::CorruptAbc =>
                "Error #1107: The ABC data is corrupt, attempt to read out of bounds."@,
                Error::CannotConstructDispatcher =>
                "Cannot construct internal event dispatcher structures."@,
                Error::CannotSubclassDispatcher =>
                "Cannot subclass internal event dispatcher structures."@,
            }),
    {
        match self {
            Error::NotVirtual => "Not a virtual property",
            Error::SlotOutOfBounds => "Slot index out of bounds!",
            Error::CorruptAbc => "Error #1107: The ABC data is corrupt, attempt to read out of bounds.",
            Error::CannotConstructDispatcher => "Cannot construct internal event dispatcher structures.",
            Error::CannotSubclassDispatcher => "Cannot subclass internal event dispatcher structures.",
        }
    }
}

} // verus!
