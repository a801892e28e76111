//! The failure kinds of the runtime and of the content stores.

use vstd::prelude::*;
use vstd::string::*;

verus! {

/// Everything that can go wrong in the library, as distinguishable kinds.
#[derive(Clone, Copy, Debug, PartialEq, Eq, Structural)]
pub enum Error {
    /// A resource that was asked for does not exist.
    NotFound,
    /// A port name that the process does not declare.
    UnknownPort,
    /// A port that has been opened before.
    AlreadyOpened,
    /// A send or receive on a port with no live peer.
    Disconnected,
    /// A name that is already registered.
    DuplicateName,
    /// No process can make progress although some have not finished.
    Deadlock,
    /// An activation reported an unrecoverable error.
    ComponentFailure,
    /// A failure of the content store, opaque beyond its category.
    StoreError,
}

/// The text that describes each failure kind.
pub open spec fn message_of(e: Error) -> Seq<char> {
    match e {
        Error::NotFound => "Resource not found"@,
        Error::UnknownPort => "Unknown port"@,
        Error::AlreadyOpened => "Port already opened"@,
        Error::Disconnected => "Port has no live peer"@,
        Error::DuplicateName => "Name already registered"@,
        Error::Deadlock => "Network is deadlocked"@,
        Error::ComponentFailure => "Component failed"@,
        Error::StoreError => "Content store failed"@,
    }
}

impl Error {
    /// The human-readable description of this failure.
    pub fn to_string(&self) -> (s: String)
        ensures
            s@ == message_of(*self),
    {
        match self {
            Error::NotFound => String::from_str("Resource not found"),
            Error::UnknownPort => String::from_str("Unknown port"),
            Error::AlreadyOpened => String::from_str("Port already opened"),
            Error::Disconnected => String::from_str("Port has no live peer"),
            Error::DuplicateName => String::from_str("Name already registered"),
            Error::Deadlock => String::from_str("Network is deadlocked"),
            Error::ComponentFailure => String::from_str("Component failed"),
            Error::StoreError => String::from_str("Content store failed"),
        }
    }
}

} // verus!
