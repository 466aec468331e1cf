use macmush::error::MushError;
use macmush::events::{receive_failure_event, receiver_step, to_frontend_event, FrontendEvent, MudEvent, ReceiveOutcome, ReceiverStep};

#[test]
fn test_event_world_id_extraction() {
    let world_id = uuid::Uuid::new_v4().as_u128();

    let events = vec![
        MudEvent::Connected { world_id, host: "test.mud".to_string(), port: 4000 },
        MudEvent::Disconnected { world_id, reason: "User disconnect".to_string() },
        MudEvent::DataReceived { world_id, data: vec![], text: String::new() },
        MudEvent::CommandSent { world_id, command: "look".to_string() },
    ];

    for event in events {
        assert_eq!(event.world_id(), world_id, "Should extract correct world_id");
    }
}

#[test]
fn test_event_is_error() {
    let world_id = uuid::Uuid::new_v4().as_u128();

    assert!(MudEvent::ConnectionError { world_id, error: "test".to_string() }.is_error());
    assert!(MudEvent::TriggerError { world_id, trigger_id: uuid::Uuid::new_v4().as_u128(), error: "test".to_string() }
        .is_error());
    assert!(!MudEvent::Connected { world_id, host: "test".to_string(), port: 4000 }.is_error());
    assert!(!MudEvent::DataReceived { world_id, data: vec![], text: String::new() }.is_error());
}

#[test]
fn frontend_event_of_connection_error_and_sent_command() {
    let e = to_frontend_event(MudEvent::ConnectionError { world_id: 1, error: "refused".to_string() }, None);
    match e {
        Some(FrontendEvent::Error { message }) => assert_eq!(message, "Connection error: refused"),
        _ => panic!("expected an error event"),
    }
    assert!(to_frontend_event(MudEvent::CommandSent { world_id: 1, command: "x".to_string() }, None).is_none());
    match to_frontend_event(MudEvent::Connected { world_id: 1, host: "h".to_string(), port: 1 }, Some("W".to_string())) {
        Some(FrontendEvent::ConnectionStatus { connected, world_name }) => {
            assert!(connected);
            assert_eq!(world_name, Some("W".to_string()));
        }
        _ => panic!("expected a status event"),
    }
}

#[test]
fn receiver_steps() {
    assert!(matches!(receiver_step(ReceiveOutcome::Processed), ReceiverStep::Continue));
    assert!(matches!(receiver_step(ReceiveOutcome::TimedOut), ReceiverStep::PauseThenContinue));
    match receiver_step(ReceiveOutcome::Failed("closed".to_string())) {
        ReceiverStep::ReportAndStop(m) => assert_eq!(m, "Connection error: closed"),
        _ => panic!("expected a stop"),
    }
}

#[test]
fn receive_failures_become_events() {
    match receive_failure_event(9, &MushError::ConnectionClosed) {
        MudEvent::Disconnected { world_id, reason } => {
            assert_eq!(world_id, 9);
            assert_eq!(reason, "Connection closed by remote host");
        }
        _ => panic!("expected a disconnection"),
    }
    match receive_failure_event(9, &MushError::NotConnected) {
        MudEvent::ConnectionError { error, .. } => assert_eq!(error, "Not connected to server"),
        _ => panic!("expected a connection error"),
    }
}
