use forwarder::error::ForwarderError;
use forwarder::status::{
    Publication, PropertyValue, SessionState, SessionStatus, FORWARDER_SESSION_STATE_INTERFACE,
};

#[test]
fn test_session_status() {
    let sstatus = [
        SessionStatus::Connected,
        SessionStatus::Connecting,
        SessionStatus::Disconnected,
    ]
    .map(|ss| ss.to_string());
    let exp_res = ["Connected", "Connecting", "Disconnected"];

    // test display
    for (idx, el) in sstatus.into_iter().enumerate() {
        assert_eq!(&el, exp_res.get(idx).unwrap())
    }
}

#[test]
fn test_session_state() {
    let sstates = [
        SessionState::connected("abcd".to_string()),
        SessionState::connecting("abcd".to_string()),
        SessionState::disconnected("abcd".to_string()),
    ];
    let exp_res = [
        SessionState {
            token: "abcd".to_string(),
            status: SessionStatus::Connected,
        },
        SessionState {
            token: "abcd".to_string(),
            status: SessionStatus::Connecting,
        },
        SessionState {
            token: "abcd".to_string(),
            status: SessionStatus::Disconnected,
        },
    ];

    for (idx, el) in sstates.into_iter().enumerate() {
        assert_eq!(&el, exp_res.get(idx).unwrap())
    }
}

#[test]
fn test_astarte_type_from_session_state() {
    let sstates = [
        SessionState::connected("abcd".to_string()),
        SessionState::connecting("abcd".to_string()),
        SessionState::disconnected("abcd".to_string()),
    ]
    .map(PropertyValue::from);
    let exp_res = [
        PropertyValue::Text("Connected".to_string()),
        PropertyValue::Text("Connecting".to_string()),
        PropertyValue::Unset,
    ];

    for (idx, el) in sstates.into_iter().enumerate() {
        assert_eq!(&el, exp_res.get(idx).unwrap())
    }
}

/// A publisher that takes one call, which must be the one that clears the status of "abcd".
fn publisher_expecting_unset(publication: &Publication) -> Result<(), ForwarderError> {
    assert!(
        publication.interface == FORWARDER_SESSION_STATE_INTERFACE
            && publication.path == "/abcd/status"
            && publication.data == PropertyValue::Unset
    );
    Ok(())
}

#[test]
fn test_session_state_send() {
    let ss = SessionState::disconnected("abcd".to_string());

    let res = publisher_expecting_unset(&ss.send());

    assert!(res.is_ok());
}

#[test]
fn interface_name_is_the_session_state_interface() {
    assert_eq!(
        FORWARDER_SESSION_STATE_INTERFACE,
        "io.edgehog.devicemanager.ForwarderSessionState"
    );
}

#[test]
fn send_stores_the_name_of_a_living_status() {
    let connecting = SessionState::connecting("abcd".to_string()).send();
    assert_eq!(
        connecting,
        Publication {
            interface: "io.edgehog.devicemanager.ForwarderSessionState".to_string(),
            path: "/abcd/status".to_string(),
            data: PropertyValue::Text("Connecting".to_string()),
        }
    );
    let connected = SessionState::connected("tok-2".to_string()).send();
    assert_eq!(connected.path, "/tok-2/status");
    assert_eq!(connected.data, PropertyValue::Text("Connected".to_string()));
}

#[test]
fn send_keeps_the_token_as_it_is() {
    assert_eq!(SessionState::connected(String::new()).send().path, "//status");
    assert_eq!(
        SessionState::connected("a/b".to_string()).send().path,
        "/a/b/status"
    );
    assert_eq!(
        SessionState::disconnected("sé".to_string()).send().path,
        "/sé/status"
    );
}

#[test]
fn disconnected_is_published_as_no_value() {
    let publication = SessionState::disconnected("abcd".to_string()).send();
    assert_eq!(publication.data, PropertyValue::Unset);
    assert_ne!(
        publication.data,
        PropertyValue::Text("Disconnected".to_string())
    );
}

#[test]
fn encoding_round_trips() {
    for status in [
        SessionStatus::Connecting,
        SessionStatus::Connected,
        SessionStatus::Disconnected,
    ] {
        let state = SessionState {
            token: "abcd".to_string(),
            status,
        };
        let value = PropertyValue::from(state);
        assert_eq!(SessionStatus::from_value(&value), Some(status));
    }
}

#[test]
fn from_value_reads_only_the_names_of_living_statuses() {
    assert_eq!(
        SessionStatus::from_value(&PropertyValue::Text("Connecting".to_string())),
        Some(SessionStatus::Connecting)
    );
    assert_eq!(
        SessionStatus::from_value(&PropertyValue::Text("Connected".to_string())),
        Some(SessionStatus::Connected)
    );
    assert_eq!(
        SessionStatus::from_value(&PropertyValue::Unset),
        Some(SessionStatus::Disconnected)
    );
    assert_eq!(
        SessionStatus::from_value(&PropertyValue::Text("Disconnected".to_string())),
        None
    );
    assert_eq!(
        SessionStatus::from_value(&PropertyValue::Text("connected".to_string())),
        None
    );
    assert_eq!(
        SessionStatus::from_value(&PropertyValue::Text(String::new())),
        None
    );
}

#[test]
fn errors_describe_themselves() {
    let astarte = ForwarderError::Astarte("timeout".to_string());
    let conversion = ForwarderError::Type("not a string".to_string());
    let connection = ForwarderError::ConnectionsManager("refused".to_string());
    assert_eq!(astarte.to_string(), "Astarte error");
    assert_eq!(conversion.to_string(), "Astarte type conversion error");
    assert_eq!(connection.to_string(), "Connections manager error");
    assert_eq!(astarte.cause(), "timeout");
    assert_eq!(conversion.cause(), "not a string");
    assert_eq!(connection.cause(), "refused");
}
