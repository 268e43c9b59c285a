//! What can go wrong while sessions are forwarded.

use vstd::prelude::*;

verus! {

/// Forwarder errors. Each holds the message of the failure that caused it.
#[derive(Debug, Clone, PartialEq, Eq)]
pub enum ForwarderError {
    /// The publisher failed to list, store or clear a property.
    Astarte(String),
    /// A value could not be converted for the publisher.
    Type(String),
    /// The connection to the remote host could not be opened or reopened.
    ConnectionsManager(String),
}

/// What an error says of itself, whatever its cause.
pub open spec fn error_text(error: ForwarderError) -> Seq<char> {
    match error {
        ForwarderError::Astarte(_) => "Astarte error"@,
        ForwarderError::Type(_) => "Astarte type conversion error"@,
        ForwarderError::ConnectionsManager(_) => "Connections manager error"@,
    }
}

impl ForwarderError {
    /// The text that describes the error.
    pub fn to_string(&self) -> (text: String)
        ensures
            text@ == error_text(*self),
    {
        match self {
            ForwarderError::Astarte(_) => String::from_str("Astarte error"),
            ForwarderError::Type(_) => String::from_str("Astarte type conversion error"),
            ForwarderError::ConnectionsManager(_) => String::from_str("Connections manager error"),
        }
    }

    /// The message of the failure that caused the error.
    pub fn cause(&self) -> (message: &String)
        ensures
            *message == match *self {
                ForwarderError::Astarte(cause) => cause,
                ForwarderError::Type(cause) => cause,
                ForwarderError::ConnectionsManager(cause) => cause,
            },
    {
        match self {
            ForwarderError::Astarte(cause) => cause,
            ForwarderError::Type(cause) => cause,
            ForwarderError::ConnectionsManager(cause) => cause,
        }
    }
}

/// Why an inbound event is no session request. The event is dropped.
#[derive(Debug, Clone, PartialEq, Eq)]
pub enum RequestParseError {
    /// The event does not hold the fields of a session request.
    Event(String),
    /// No address can be built from the request's host, port and token.
    Url(String),
}

/// How one step taken for a session or for the start-up ended.
pub type Outcome = Result<(), ForwarderError>;

} // verus!
