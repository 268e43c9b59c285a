use forwarder::error::{ForwarderError, Outcome};
use forwarder::session::{Phase, Session, SessionStep};
use forwarder::status::{PropertyValue, SessionState, SessionStatus};
use std::collections::BTreeMap;

/// What a driven session asked for, in order.
#[derive(Debug, PartialEq, Eq)]
enum Asked {
    Publish(String, SessionStatus),
    Connect(String, bool),
    HandleConnections,
    Reconnect,
}

/// Runs a session, answering its steps with `outcomes`, one after the other, and returns
/// what it asked for and how it ended, if it did.
fn drive(first: SessionStep, outcomes: Vec<Outcome>) -> (Vec<Asked>, Option<Outcome>) {
    let mut asked = Vec::new();
    let mut outcomes = outcomes.into_iter();
    let mut step = first;
    loop {
        let session = match step {
            SessionStep::Publish(session, state) => {
                asked.push(Asked::Publish(state.token, state.status));
                session
            }
            SessionStep::Connect(session, url, secure) => {
                asked.push(Asked::Connect(url, secure));
                session
            }
            SessionStep::HandleConnections(session) => {
                asked.push(Asked::HandleConnections);
                session
            }
            SessionStep::Reconnect(session) => {
                asked.push(Asked::Reconnect);
                session
            }
            SessionStep::Finish(result) => return (asked, Some(result)),
        };
        match outcomes.next() {
            Some(outcome) => step = session.handle_session(outcome),
            None => return (asked, None),
        }
    }
}

fn start_abcd() -> SessionStep {
    Session::start(
        "abcd".to_string(),
        "ws://127.0.0.1:8080/".to_string(),
        false,
    )
}

fn publish(status: SessionStatus) -> Asked {
    Asked::Publish("abcd".to_string(), status)
}

fn publish_error(message: &str) -> ForwarderError {
    ForwarderError::Astarte(message.to_string())
}

fn connection_error(message: &str) -> ForwarderError {
    ForwarderError::ConnectionsManager(message.to_string())
}

#[test]
fn start_publishes_connecting() {
    let step = Session::start("abcd".to_string(), "wss://host/".to_string(), true);
    assert_eq!(
        step,
        SessionStep::Publish(
            Session {
                token: "abcd".to_string(),
                url: "wss://host/".to_string(),
                secure: true,
                phase: Phase::Announcing,
                failure: None,
            },
            SessionState {
                token: "abcd".to_string(),
                status: SessionStatus::Connecting,
            },
        )
    );
}

#[test]
fn session_that_completes_publishes_three_states() {
    // connect succeeds, the connection is served once and completes
    let (asked, result) = drive(start_abcd(), vec![Ok(()), Ok(()), Ok(()), Ok(()), Ok(())]);
    assert_eq!(
        asked,
        vec![
            publish(SessionStatus::Connecting),
            Asked::Connect("ws://127.0.0.1:8080/".to_string(), false),
            publish(SessionStatus::Connected),
            Asked::HandleConnections,
            publish(SessionStatus::Disconnected),
        ]
    );
    assert_eq!(result, Some(Ok(())));
}

#[test]
fn connect_is_asked_with_the_address_and_the_security_flag() {
    let first = Session::start("t".to_string(), "wss://example.com:443/x".to_string(), true);
    let (asked, result) = drive(first, vec![Ok(())]);
    assert_eq!(
        asked[1],
        Asked::Connect("wss://example.com:443/x".to_string(), true)
    );
    assert_eq!(result, None);
}

#[test]
fn failed_connect_still_publishes_disconnected() {
    let (asked, result) = drive(
        start_abcd(),
        vec![Ok(()), Err(connection_error("refused")), Ok(())],
    );
    assert_eq!(
        asked,
        vec![
            publish(SessionStatus::Connecting),
            Asked::Connect("ws://127.0.0.1:8080/".to_string(), false),
            publish(SessionStatus::Disconnected),
        ]
    );
    // the connection error ends the session but is not its result
    assert_eq!(result, Some(Ok(())));
}

#[test]
fn lost_connection_is_announced_and_reopened() {
    let (asked, result) = drive(
        start_abcd(),
        vec![
            Ok(()),
            Ok(()),
            Ok(()),
            Err(connection_error("lost")),
            Ok(()),
            Ok(()),
            Ok(()),
            Err(connection_error("lost again")),
            Ok(()),
            Ok(()),
            Ok(()),
            Ok(()),
            Ok(()),
        ],
    );
    assert_eq!(
        asked,
        vec![
            publish(SessionStatus::Connecting),
            Asked::Connect("ws://127.0.0.1:8080/".to_string(), false),
            publish(SessionStatus::Connected),
            Asked::HandleConnections,
            publish(SessionStatus::Connecting),
            Asked::Reconnect,
            publish(SessionStatus::Connected),
            Asked::HandleConnections,
            publish(SessionStatus::Connecting),
            Asked::Reconnect,
            publish(SessionStatus::Connected),
            Asked::HandleConnections,
            publish(SessionStatus::Disconnected),
        ]
    );
    assert_eq!(result, Some(Ok(())));
}

#[test]
fn failed_reconnect_ends_the_session_without_error() {
    let (asked, result) = drive(
        start_abcd(),
        vec![
            Ok(()),
            Ok(()),
            Ok(()),
            Err(connection_error("lost")),
            Ok(()),
            Err(connection_error("gone")),
            Ok(()),
        ],
    );
    assert_eq!(
        asked,
        vec![
            publish(SessionStatus::Connecting),
            Asked::Connect("ws://127.0.0.1:8080/".to_string(), false),
            publish(SessionStatus::Connected),
            Asked::HandleConnections,
            publish(SessionStatus::Connecting),
            Asked::Reconnect,
            publish(SessionStatus::Disconnected),
        ]
    );
    assert_eq!(result, Some(Ok(())));
}

#[test]
fn failure_to_publish_connecting_ends_the_session_with_that_error() {
    let (asked, result) = drive(start_abcd(), vec![Err(publish_error("down")), Ok(())]);
    assert_eq!(
        asked,
        vec![
            publish(SessionStatus::Connecting),
            publish(SessionStatus::Disconnected),
        ]
    );
    assert_eq!(result, Some(Err(publish_error("down"))));
}

#[test]
fn failure_to_publish_connected_ends_the_session_with_that_error() {
    let (asked, result) = drive(
        start_abcd(),
        vec![Ok(()), Ok(()), Err(publish_error("down")), Ok(())],
    );
    assert_eq!(
        asked,
        vec![
            publish(SessionStatus::Connecting),
            Asked::Connect("ws://127.0.0.1:8080/".to_string(), false),
            publish(SessionStatus::Connected),
            publish(SessionStatus::Disconnected),
        ]
    );
    assert_eq!(result, Some(Err(publish_error("down"))));
}

#[test]
fn failure_to_publish_after_a_loss_ends_the_session_with_that_error() {
    let (asked, result) = drive(
        start_abcd(),
        vec![
            Ok(()),
            Ok(()),
            Ok(()),
            Err(connection_error("lost")),
            Err(publish_error("down")),
            Ok(()),
        ],
    );
    assert_eq!(asked.len(), 6);
    assert_eq!(asked[4], publish(SessionStatus::Connecting));
    assert_eq!(asked[5], publish(SessionStatus::Disconnected));
    assert_eq!(result, Some(Err(publish_error("down"))));
}

#[test]
fn failure_to_publish_disconnected_is_the_result() {
    let (asked, result) = drive(
        start_abcd(),
        vec![Ok(()), Ok(()), Ok(()), Ok(()), Err(publish_error("down"))],
    );
    assert_eq!(asked.last(), Some(&publish(SessionStatus::Disconnected)));
    assert_eq!(result, Some(Err(publish_error("down"))));
}

#[test]
fn first_failure_to_publish_is_the_result() {
    let (asked, result) = drive(
        start_abcd(),
        vec![Err(publish_error("first")), Err(publish_error("second"))],
    );
    assert_eq!(
        asked,
        vec![
            publish(SessionStatus::Connecting),
            publish(SessionStatus::Disconnected),
        ]
    );
    assert_eq!(result, Some(Err(publish_error("first"))));
}

#[test]
fn disconnected_is_attempted_once() {
    let scripts: Vec<Vec<Outcome>> = vec![
        vec![Err(publish_error("a")), Err(publish_error("b"))],
        vec![Ok(()), Err(connection_error("c")), Err(publish_error("d"))],
        vec![Ok(()), Ok(()), Ok(()), Ok(()), Ok(())],
        vec![
            Ok(()),
            Ok(()),
            Ok(()),
            Err(connection_error("lost")),
            Ok(()),
            Err(connection_error("gone")),
            Ok(()),
        ],
    ];
    for script in scripts {
        let (asked, result) = drive(start_abcd(), script);
        assert!(result.is_some());
        let finals = asked
            .iter()
            .filter(|a| **a == publish(SessionStatus::Disconnected))
            .count();
        assert_eq!(finals, 1);
        assert_eq!(asked.last(), Some(&publish(SessionStatus::Disconnected)));
    }
}

#[test]
fn published_states_take_turns() {
    // every script of five outcomes, each a success or a failure
    for bits in 0u32..32 {
        let script: Vec<Outcome> = (0..5)
            .map(|i| {
                if bits & (1 << i) == 0 {
                    Ok(())
                } else {
                    Err(connection_error("x"))
                }
            })
            .collect();
        let (asked, _) = drive(start_abcd(), script);
        let states: Vec<SessionStatus> = asked
            .iter()
            .filter_map(|a| match a {
                Asked::Publish(token, status) => {
                    assert_eq!(token, "abcd");
                    Some(*status)
                }
                _ => None,
            })
            .collect();
        assert_eq!(states[0], SessionStatus::Connecting);
        for (i, status) in states.iter().enumerate() {
            match status {
                SessionStatus::Disconnected => assert_eq!(i, states.len() - 1),
                SessionStatus::Connecting => assert_eq!(i % 2, 0),
                SessionStatus::Connected => assert_eq!(i % 2, 1),
            }
        }
    }
}

#[test]
fn handle_session_goes_by_the_phase() {
    let session = |phase: Phase| Session {
        token: "abcd".to_string(),
        url: "ws://h/".to_string(),
        secure: false,
        phase,
        failure: None,
    };
    assert_eq!(
        session(Phase::Monitoring).handle_session(Ok(())),
        SessionStep::Publish(
            session(Phase::Finalizing),
            SessionState::disconnected("abcd".to_string())
        )
    );
    assert_eq!(
        session(Phase::Recovering).handle_session(Ok(())),
        SessionStep::Reconnect(session(Phase::Reconnecting))
    );
    assert_eq!(
        session(Phase::Reconnecting).handle_session(Ok(())),
        SessionStep::Publish(
            session(Phase::Confirming),
            SessionState::connected("abcd".to_string())
        )
    );
    assert_eq!(
        session(Phase::Confirming).handle_session(Ok(())),
        SessionStep::HandleConnections(session(Phase::Monitoring))
    );
    assert_eq!(
        session(Phase::Finalizing).handle_session(Ok(())),
        SessionStep::Finish(Ok(()))
    );
    let failed = Session {
        failure: Some(publish_error("kept")),
        ..session(Phase::Finalizing)
    };
    assert_eq!(
        failed.handle_session(Err(publish_error("late"))),
        SessionStep::Finish(Err(publish_error("kept")))
    );
}

#[test]
fn ended_session_leaves_no_status_stored() {
    let mut store: BTreeMap<(String, String), String> = BTreeMap::new();
    store.insert(
        (
            "io.edgehog.devicemanager.ForwarderSessionState".to_string(),
            "/other/status".to_string(),
        ),
        "Connected".to_string(),
    );
    let mut seen = Vec::new();
    let mut step = start_abcd();
    // the connection is lost once, reopened, and then completes
    let mut served = 0;
    let result = loop {
        step = match step {
            SessionStep::Publish(session, state) => {
                let publication = state.send();
                let key = (publication.interface, publication.path);
                match publication.data {
                    PropertyValue::Text(text) => {
                        store.insert(key.clone(), text);
                    }
                    PropertyValue::Unset => {
                        store.remove(&key);
                    }
                }
                seen.push(store.get(&key).cloned());
                session.handle_session(Ok(()))
            }
            SessionStep::Connect(session, _, _) => session.handle_session(Ok(())),
            SessionStep::HandleConnections(session) => {
                served += 1;
                if served == 1 {
                    session.handle_session(Err(connection_error("lost")))
                } else {
                    session.handle_session(Ok(()))
                }
            }
            SessionStep::Reconnect(session) => session.handle_session(Ok(())),
            SessionStep::Finish(result) => break result,
        };
    };
    assert_eq!(result, Ok(()));
    assert_eq!(
        seen,
        vec![
            Some("Connecting".to_string()),
            Some("Connected".to_string()),
            Some("Connecting".to_string()),
            Some("Connected".to_string()),
            None,
        ]
    );
    assert_eq!(store.len(), 1);
    assert!(store.contains_key(&(
        "io.edgehog.devicemanager.ForwarderSessionState".to_string(),
        "/other/status".to_string()
    )));
}
