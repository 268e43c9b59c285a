//! The properties that the publisher keeps for observers, as a map, and what publishing a
//! session's state does to them.

use crate::status::{
    decode, encode, publication_of, status_name, status_path, PublicationView, SessionStatus,
    FORWARDER_SESSION_STATE_INTERFACE,
};
use vstd::prelude::*;

verus! {

/// The stored properties: for each interface and path that has a value, that value.
pub type Properties = Map<(Seq<char>, Seq<char>), Seq<char>>;

/// The properties after one call to the publisher: a text is stored under the call's
/// interface and path, and a call without a value clears what was stored there.
pub open spec fn publish(properties: Properties, publication: PublicationView) -> Properties {
    match publication.data {
        Some(text) => properties.insert((publication.interface, publication.path), text),
        None => properties.remove((publication.interface, publication.path)),
    }
}

/// What is stored for the session with this token, if anything.
pub open spec fn stored_status(properties: Properties, token: Seq<char>) -> Option<Seq<char>> {
    let key = (FORWARDER_SESSION_STATE_INTERFACE@, status_path(token));
    if properties.contains_key(key) {
        Some(properties[key])
    } else {
        None
    }
}

/// The status of the session with this token as an observer of the properties reads it.
pub open spec fn observed_status(properties: Properties, token: Seq<char>) -> Option<
    SessionStatus,
> {
    decode(stored_status(properties, token))
}

/// Whether nothing is stored under the session-state interface.
pub open spec fn no_session_state(properties: Properties) -> bool {
    forall|path: Seq<char>|
        !properties.contains_key((FORWARDER_SESSION_STATE_INTERFACE@, path))
}

/// Encoding loses nothing: every status is read back from what it is published as. The two
/// living statuses are published as their names, which differ, and the end of a session is
/// published as no value.
pub proof fn lemma_encoding_round_trip(status: SessionStatus)
    ensures
        decode(encode(status)) == Some(status),
        encode(status) is None <==> status == SessionStatus::Disconnected,
        encode(status) matches Some(name) ==> name == status_name(status),
        status_name(SessionStatus::Connecting) != status_name(SessionStatus::Connected),
{
    lemma_names_differ();
}

/// The names of the three statuses are three different texts.
pub proof fn lemma_names_differ()
    ensures
        status_name(SessionStatus::Connecting) != status_name(SessionStatus::Connected),
        status_name(SessionStatus::Connecting) != status_name(SessionStatus::Disconnected),
        status_name(SessionStatus::Connected) != status_name(SessionStatus::Disconnected),
{
    reveal_strlit("Connecting");
    reveal_strlit("Connected");
    reveal_strlit("Disconnected");
    assert("Connecting"@.len() == 10);
    assert("Connected"@.len() == 9);
    assert("Disconnected"@.len() == 12);
}

/// A value is read as a living status only if it is that status's name.
pub proof fn lemma_decode_is_exact(value: Option<Seq<char>>, status: SessionStatus)
    ensures
        decode(value) == Some(status) <==> value == encode(status),
{
    lemma_names_differ();
}

/// Two sessions never share a path: the path tells the token.
pub proof fn lemma_status_path_tells_token(first: Seq<char>, second: Seq<char>)
    requires
        status_path(first) == status_path(second),
    ensures
        first == second,
{
    reveal_strlit("/");
    reveal_strlit("/status");
    let head = "/"@;
    let tail = "/status"@;
    assert(head.len() == 1);
    assert(tail.len() == 7);
    assert(status_path(first).len() == first.len() + 8);
    assert(status_path(second).len() == second.len() + 8);
    assert(first =~= status_path(first).subrange(1, 1 + first.len() as int));
    assert(second =~= status_path(second).subrange(1, 1 + second.len() as int));
}

/// Once a session has published that it is over, nothing is stored under its path.
pub proof fn lemma_disconnected_is_absence(properties: Properties, token: Seq<char>)
    ensures
        !publish(properties, publication_of(token, SessionStatus::Disconnected)).contains_key(
            (FORWARDER_SESSION_STATE_INTERFACE@, status_path(token)),
        ),
        stored_status(
            publish(properties, publication_of(token, SessionStatus::Disconnected)),
            token,
        ) is None,
{
}

/// An observer reads the status that the session published last, whatever was stored before.
pub proof fn lemma_published_status_is_observed(
    properties: Properties,
    token: Seq<char>,
    status: SessionStatus,
)
    ensures
        observed_status(publish(properties, publication_of(token, status)), token) == Some(
            status,
        ),
{
    lemma_encoding_round_trip(status);
}

/// Publishing the state of one session leaves what is stored for every other session.
pub proof fn lemma_publish_leaves_other_sessions(
    properties: Properties,
    token: Seq<char>,
    status: SessionStatus,
    other: Seq<char>,
)
    requires
        other != token,
    ensures
        stored_status(publish(properties, publication_of(token, status)), other) == stored_status(
            properties,
            other,
        ),
{
    if status_path(other) == status_path(token) {
        lemma_status_path_tells_token(other, token);
    }
}

} // verus!
