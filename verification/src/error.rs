//! Error kinds shared by the construction operations of the engine.

use vstd::prelude::*;
use vstd::string::*;

verus! {

/// What can go wrong when a network is put together.
#[derive(Debug, Clone, Copy, PartialEq, Eq)]
pub enum EmbeddedError {
    /// The host environment could not provide memory.
    Alloc,
    /// A bounded container rejected an addition.
    Capacity,
    /// An argument is outside what the operation accepts.
    InvalidInput(&'static str),
    /// The operation belongs to a capability that is not available.
    NotSupported(&'static str),
    /// Any other failure, with its description.
    Other(&'static str),
    /// A fixed-size buffer is full.
    BufferFull,
    /// An index does not name an element.
    InvalidIndex,
    /// A set of parameters contradicts itself.
    InvalidConfiguration,
}

pub type EmbeddedResult<T, E = EmbeddedError> = Result<T, E>;

impl EmbeddedError {
    /// The text of the message: a fixed phrase per kind, followed by the
    /// description where the kind carries one.
    pub open spec fn message_spec(self) -> Seq<char> {
        match self {
            EmbeddedError::Alloc => "allocation error"@,
            EmbeddedError::Capacity => "capacity exceeded"@,
            EmbeddedError::InvalidInput(msg) => "invalid input: "@ + msg@,
            EmbeddedError::NotSupported(msg) => "not supported: "@ + msg@,
            EmbeddedError::Other(msg) => "error: "@ + msg@,
            EmbeddedError::BufferFull => "buffer full"@,
            EmbeddedError::InvalidIndex => "invalid index"@,
            EmbeddedError::InvalidConfiguration => "invalid configuration"@,
        }
    }

    /// Renders the error as a human-readable message.
    pub fn message(&self) -> (s: String)
        ensures
            s@ == self.message_spec(),
    {
        match self {
            EmbeddedError::Alloc => String::from_str("allocation error"),
            EmbeddedError::Capacity => String::from_str("capacity exceeded"),
            EmbeddedError::InvalidInput(msg) => String::from_str("invalid input: ").concat(msg),
            EmbeddedError::NotSupported(msg) => String::from_str("not supported: ").concat(msg),
            EmbeddedError::Other(msg) => String::from_str("error: ").concat(msg),
            EmbeddedError::BufferFull => String::from_str("buffer full"),
            EmbeddedError::InvalidIndex => String::from_str("invalid index"),
            EmbeddedError::InvalidConfiguration => String::from_str("invalid configuration"),
        }
    }
}

} // verus!
