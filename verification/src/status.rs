//! The status of a remote session, the value it is published as, and the properties that
//! an observer finds once it has been published.

use vstd::prelude::*;

verus! {

/// The interface under which the status of every session is published.
pub const FORWARDER_SESSION_STATE_INTERFACE: &'static str =
    "io.edgehog.devicemanager.ForwarderSessionState";

/// Where a remote session stands.
#[derive(Debug, Clone, Copy, PartialEq, Eq, Structural)]
pub enum SessionStatus {
    /// The device is opening, or reopening, the connection.
    Connecting,
    /// The connection is up.
    Connected,
    /// The session is over.
    Disconnected,
}

/// The name of a status.
pub open spec fn status_name(status: SessionStatus) -> Seq<char> {
    match status {
        SessionStatus::Connecting => "Connecting"@,
        SessionStatus::Connected => "Connected"@,
        SessionStatus::Disconnected => "Disconnected"@,
    }
}

/// What a status is published as: its name while the session lives, no value at all once it
/// is over.
pub open spec fn encode(status: SessionStatus) -> Option<Seq<char>> {
    match status {
        SessionStatus::Connecting => Some(status_name(SessionStatus::Connecting)),
        SessionStatus::Connected => Some(status_name(SessionStatus::Connected)),
        SessionStatus::Disconnected => None,
    }
}

/// The status that an observer reads out of what it finds: no value means that no session
/// runs, and a value that is the name of neither living status means nothing.
pub open spec fn decode(value: Option<Seq<char>>) -> Option<SessionStatus> {
    match value {
        None => Some(SessionStatus::Disconnected),
        Some(name) => if name == status_name(SessionStatus::Connecting) {
            Some(SessionStatus::Connecting)
        } else if name == status_name(SessionStatus::Connected) {
            Some(SessionStatus::Connected)
        } else {
            None
        },
    }
}

/// The path of the property that holds the status of the session with this token.
pub open spec fn status_path(token: Seq<char>) -> Seq<char> {
    "/"@ + token + "/status"@
}

impl SessionStatus {
    /// The name of the status.
    pub fn to_string(&self) -> (name: String)
        ensures
            name@ == status_name(*self),
    {
        match self {
            SessionStatus::Connecting => String::from_str("Connecting"),
            SessionStatus::Connected => String::from_str("Connected"),
            SessionStatus::Disconnected => String::from_str("Disconnected"),
        }
    }

    /// Reads a status out of a published value.
    pub fn from_value(value: &PropertyValue) -> (status: Option<SessionStatus>)
        ensures
            status == decode(value@),
    {
        match value {
            PropertyValue::Unset => Some(SessionStatus::Disconnected),
            PropertyValue::Text(name) => {
                if *name == String::from_str("Connecting") {
                    Some(SessionStatus::Connecting)
                } else if *name == String::from_str("Connected") {
                    Some(SessionStatus::Connected)
                } else {
                    None
                }
            },
        }
    }
}

/// The value of a property as the publisher takes it.
#[derive(Debug, Clone, PartialEq, Eq)]
pub enum PropertyValue {
    /// A text to store.
    Text(String),
    /// No value: the property is cleared.
    Unset,
}

impl View for PropertyValue {
    type V = Option<Seq<char>>;

    open spec fn view(&self) -> Option<Seq<char>> {
        match self {
            PropertyValue::Text(text) => Some(text@),
            PropertyValue::Unset => None,
        }
    }
}

/// The state of a remote session with a device.
#[derive(Debug, Clone, PartialEq, Eq)]
pub struct SessionState {
    /// The token that names the session.
    pub token: String,
    /// Where the session stands.
    pub status: SessionStatus,
}

/// One call to the publisher: the interface, the path and the value to store there.
#[derive(Debug, Clone, PartialEq, Eq)]
pub struct Publication {
    /// The interface that the property belongs to.
    pub interface: String,
    /// The path of the property.
    pub path: String,
    /// The value to store, or `Unset` to clear the property.
    pub data: PropertyValue,
}

/// A publication with its texts as sequences of characters.
pub struct PublicationView {
    pub interface: Seq<char>,
    pub path: Seq<char>,
    pub data: Option<Seq<char>>,
}

impl View for Publication {
    type V = PublicationView;

    open spec fn view(&self) -> PublicationView {
        PublicationView { interface: self.interface@, path: self.path@, data: self.data@ }
    }
}

/// The publication that announces `status` for the session with this token.
pub open spec fn publication_of(token: Seq<char>, status: SessionStatus) -> PublicationView {
    PublicationView {
        interface: FORWARDER_SESSION_STATE_INTERFACE@,
        path: status_path(token),
        data: encode(status),
    }
}

impl SessionState {
    /// The state of a session that is opening, or reopening, its connection.
    pub fn connecting(token: String) -> (state: SessionState)
        ensures
            state == (SessionState { token, status: SessionStatus::Connecting }),
    {
        SessionState { token, status: SessionStatus::Connecting }
    }

    /// The state of a session whose connection is up.
    pub fn connected(token: String) -> (state: SessionState)
        ensures
            state == (SessionState { token, status: SessionStatus::Connected }),
    {
        SessionState { token, status: SessionStatus::Connected }
    }

    /// The state of a session that is over.
    pub fn disconnected(token: String) -> (state: SessionState)
        ensures
            state == (SessionState { token, status: SessionStatus::Disconnected }),
    {
        SessionState { token, status: SessionStatus::Disconnected }
    }

    /// The call that makes the state known: the status is stored under the session's path,
    /// and a session that is over has its property cleared.
    pub fn send(self) -> (publication: Publication)
        ensures
            publication@ == publication_of(self.token@, self.status),
    {
        let ipath = String::from_str("/").concat(self.token.as_str()).concat("/status");
        let idata = PropertyValue::from(self);
        Publication {
            interface: String::from_str(FORWARDER_SESSION_STATE_INTERFACE),
            path: ipath,
            data: idata,
        }
    }
}

impl PropertyValue {
    /// The value that a session's state is published as.
    pub fn from(value: SessionState) -> (data: PropertyValue)
        ensures
            data@ == encode(value.status),
    {
        match value.status {
            SessionStatus::Connecting | SessionStatus::Connected => PropertyValue::Text(
                value.status.to_string(),
            ),
            SessionStatus::Disconnected => PropertyValue::Unset,
        }
    }
}

} // verus!
