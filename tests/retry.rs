use astarte_device_sdk::retry::{backoff_delay_ms, Connection, ConnectionState, Step, TransportEvent};

#[test]
fn backoff_doubles_up_to_the_cap() {
    assert_eq!(backoff_delay_ms(0, 0), 250);
    assert_eq!(backoff_delay_ms(0, 250), 500);
    assert_eq!(backoff_delay_ms(1, 0), 500);
    assert_eq!(backoff_delay_ms(2, 1000), 2000);
    assert_eq!(backoff_delay_ms(10, 0), 15000);
    assert_eq!(backoff_delay_ms(40, 15000), 30000);
    assert_eq!(backoff_delay_ms(40, 15001), 15000);
}

#[test]
fn resumed_session_skips_the_handshake() {
    let mut c = Connection::new();
    assert_eq!(c.on_event(TransportEvent::ConnAck { session_present: true }, 0), Step::Poll);
    assert_eq!(c.state, ConnectionState::Running);
}

#[test]
fn fresh_session_runs_the_handshake_and_retries() {
    let mut c = Connection::new();
    assert_eq!(c.on_event(TransportEvent::ConnAck { session_present: false }, 0), Step::Handshake);
    assert_eq!(c.state, ConnectionState::SessionEstablished);
    assert_eq!(c.on_event(TransportEvent::HandshakeFailed, 0), Step::Wait(250));
    assert_eq!(c.state, ConnectionState::Disconnected);
    assert_eq!(c.attempt, 1);
    assert_eq!(c.on_event(TransportEvent::PollError { fatal: false }, 0), Step::Wait(500));
    assert_eq!(c.attempt, 2);
    assert!(c.handshake_pending);
    // the failed handshake runs again even when the broker resumes the session
    assert_eq!(c.on_event(TransportEvent::ConnAck { session_present: true }, 0), Step::Handshake);
    assert_eq!(c.on_event(TransportEvent::HandshakeDone, 0), Step::Poll);
    assert_eq!(c.state, ConnectionState::Running);
    assert_eq!(c.attempt, 0);
    assert!(!c.handshake_pending);
    assert_eq!(c.on_event(TransportEvent::ConnAck { session_present: true }, 0), Step::Poll);
    assert_eq!(c.on_event(TransportEvent::PollError { fatal: true }, 0), Step::Fail);
    assert_eq!(c.state, ConnectionState::Draining);
    assert_eq!(c.on_event(TransportEvent::ConnAck { session_present: true }, 0), Step::Stop);
}
