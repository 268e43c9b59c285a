//! The request that opens a session, and the key that tells one session from another.

use vstd::prelude::*;
use vstd::std_specs::cmp::PartialEqSpecImpl;

verus! {

/// What identifies a session: the remote host and port, the session's token and whether
/// the connection is secured. Two requests ask for the same session only if all four agree.
#[derive(Debug, Clone, Eq, Hash)]
pub struct SessionKey {
    /// The remote host.
    pub host: String,
    /// The port on the remote host.
    pub port: i32,
    /// The token that names the session.
    pub session_token: String,
    /// Whether the connection uses TLS.
    pub secure: bool,
}

/// A key with its texts as sequences of characters.
pub struct SessionKeyView {
    pub host: Seq<char>,
    pub port: i32,
    pub session_token: Seq<char>,
    pub secure: bool,
}

impl View for SessionKey {
    type V = SessionKeyView;

    open spec fn view(&self) -> SessionKeyView {
        SessionKeyView {
            host: self.host@,
            port: self.port,
            session_token: self.session_token@,
            secure: self.secure,
        }
    }
}

impl PartialEq for SessionKey {
    fn eq(&self, other: &SessionKey) -> (same: bool) {
        self.host == other.host && self.port == other.port && self.session_token
            == other.session_token && self.secure == other.secure
    }
}

impl PartialEqSpecImpl for SessionKey {
    open spec fn obeys_eq_spec() -> bool {
        true
    }

    open spec fn eq_spec(&self, other: &SessionKey) -> bool {
        self@ == other@
    }
}

/// A session request that was read from an event and whose address could be built.
#[derive(Debug, Clone, PartialEq, Eq)]
pub struct SessionRequest {
    /// The key of the session that is asked for.
    pub info: SessionKey,
    /// The address of the remote host.
    pub url: String,
}

} // verus!
