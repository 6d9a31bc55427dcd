use sigserial::connection::{
    ProtocolConfig, ReadEvent, SerialConnection, CMD_DECREASE, CMD_INCREASE, CMD_RESET, CMD_RUN,
    CMD_SAVE, CMD_STATUS, CMD_STOP,
};
use sigserial::errors::SerialError;

#[test]
fn any_command_on_disconnected_engine_fails_not_connected() {
    let engine = SerialConnection::new();
    for cmd in [
        CMD_RUN,
        CMD_STOP,
        CMD_INCREASE,
        CMD_DECREASE,
        CMD_SAVE,
        CMD_RESET,
        CMD_STATUS,
    ] {
        let r = engine.begin_command(cmd);
        assert!(matches!(r, Err(SerialError::NotConnected)));
    }
}

#[test]
fn command_bytes_are_the_wire_ascii() {
    assert_eq!(CMD_RUN, b'r');
    assert_eq!(CMD_STOP, b's');
    assert_eq!(CMD_INCREASE, b'+');
    assert_eq!(CMD_DECREASE, b'-');
    assert_eq!(CMD_SAVE, b'w');
    assert_eq!(CMD_RESET, b'd');
    assert_eq!(CMD_STATUS, b'?');
}

#[test]
fn second_open_fails_already_connected_and_changes_nothing() {
    let mut engine = SerialConnection::new();
    assert!(engine.can_open().is_ok());
    engine.complete_open("COM7".to_string());
    let second = engine.can_open();
    assert!(matches!(second, Err(SerialError::AlreadyConnected)));
    assert!(engine.is_connected());
    assert_eq!(engine.current_port_name().as_deref(), Some("COM7"));
}

#[test]
fn disconnect_without_connection_fails_not_connected() {
    let mut engine = SerialConnection::new();
    let r = engine.disconnect();
    assert!(matches!(r, Err(SerialError::NotConnected)));
}

#[test]
fn disconnect_releases_the_connection() {
    let mut engine = SerialConnection::new();
    engine.complete_open("COM7".to_string());
    assert!(engine.disconnect().is_ok());
    assert!(!engine.is_connected());
    assert_eq!(engine.current_port_name(), None);
    // And a new open is allowed again.
    assert!(engine.can_open().is_ok());
}

#[test]
fn fresh_engine_is_disconnected() {
    let engine = SerialConnection::new();
    assert!(!engine.is_connected());
    assert_eq!(engine.current_port_name(), None);
}

#[test]
fn command_session_collects_reply_until_timeout() {
    let mut engine = SerialConnection::new();
    engine.complete_open("COM7".to_string());
    let mut session = engine.begin_command(CMD_STATUS).unwrap();
    assert_eq!(session.command_to_send(), b'?');
    assert!(session.on_read(ReadEvent::Data(b"RPM:90".to_vec())).unwrap());
    assert!(session.on_read(ReadEvent::Data(b"0\n".to_vec())).unwrap());
    assert!(!session.on_read(ReadEvent::TimedOut).unwrap());
    assert_eq!(session.into_text(), "RPM:900\n");
}

#[test]
fn command_session_empty_read_stops() {
    let mut engine = SerialConnection::new();
    engine.complete_open("COM7".to_string());
    let mut session = engine.begin_command(CMD_RUN).unwrap();
    assert!(!session.on_read(ReadEvent::Empty).unwrap());
    assert_eq!(session.into_text(), "");
}

#[test]
fn command_session_read_failure_aborts() {
    let mut engine = SerialConnection::new();
    engine.complete_open("COM7".to_string());
    let mut session = engine.begin_command(CMD_RUN).unwrap();
    let r = session.on_read(ReadEvent::Failed("device unplugged".to_string()));
    match r {
        Err(SerialError::ReadFailed(m)) => assert_eq!(m, "device unplugged"),
        other => panic!("expected a read error, got {:?}", other),
    }
}

#[test]
fn command_reply_decodes_invalid_bytes_lossily() {
    let mut engine = SerialConnection::new();
    engine.complete_open("COM7".to_string());
    let mut session = engine.begin_command(CMD_RUN).unwrap();
    session.on_read(ReadEvent::Data(vec![b'o', b'k', 0xff])).unwrap();
    session.on_read(ReadEvent::TimedOut).unwrap();
    let text = session.into_text();
    assert!(text.starts_with("ok"));
    assert!(text.contains('\u{fffd}'));
}

#[test]
fn serial_error_messages_match_the_wire_taxonomy() {
    assert_eq!(SerialError::NotConnected.message(), "No port connected");
    assert_eq!(SerialError::AlreadyConnected.message(), "Port already connected");
    assert_eq!(
        SerialError::OpenFailed("busy".to_string()).message(),
        "Failed to open port: busy"
    );
    assert_eq!(
        SerialError::EnumerationFailed("no bus".to_string()).message(),
        "Failed to enumerate ports: no bus"
    );
    assert_eq!(
        SerialError::WriteFailed("pipe".to_string()).message(),
        "Failed to write to port: pipe"
    );
    assert_eq!(
        SerialError::ReadFailed("gone".to_string()).message(),
        "Failed to read from port: gone"
    );
}

#[test]
fn protocol_defaults_match_the_hardware_tuning() {
    let p = ProtocolConfig::new();
    assert_eq!(p.baud_rate, 115200);
    assert_eq!(p.read_timeout_ms, 1000);
    assert_eq!(p.settle_delay_ms, 30);
    assert_eq!(p.chunk_size, 64);
    assert_eq!(p.inter_chunk_delay_ms, 2);
    assert_eq!(p.poll_interval_ms, 100);
    assert_eq!(p.upload_deadline_ms, 15000);
    assert_eq!(p.response_cap, 16 * 1024);
    assert_eq!(p.drain_window_ms, 250);
    assert_eq!(p.drain_poll_ms, 20);
    let d = ProtocolConfig::default();
    assert_eq!(d.chunk_size, p.chunk_size);
}
