use sigserial::connection::SerialConnection;
use sigserial::status::{parse_status_text, DeviceStatus};

fn connected_engine() -> SerialConnection {
    let mut c = SerialConnection::new();
    c.complete_open("/dev/ttyUSB0".to_string());
    c
}

#[test]
fn stop_after_run_wins() {
    let (running, _) = parse_status_text(b"STATE:RUN\nSTATE:STOP\n");
    assert!(!running);
}

#[test]
fn run_after_stop_wins() {
    let (running, _) = parse_status_text(b"STATE:STOP\nSTATE:RUN\n");
    assert!(running);
}

#[test]
fn rpm_number_is_parsed() {
    let (_, rpm) = parse_status_text(b"RPM:4200\n");
    assert_eq!(rpm, 4200);
}

#[test]
fn rpm_garbage_leaves_default() {
    let (_, rpm) = parse_status_text(b"RPM:abc\n");
    assert_eq!(rpm, 0);
}

#[test]
fn rpm_and_state_on_one_line_sets_only_the_flag() {
    // The colon field is "1500 STATE", which is not numeric, so the speed is
    // left at its default; the run token still counts.
    let (running, rpm) = parse_status_text(b"RPM:1500 STATE:RUN\n");
    assert!(running);
    assert_eq!(rpm, 0);
}

#[test]
fn rpm_overflow_leaves_previous_value() {
    let (_, rpm) = parse_status_text(b"RPM:2000\nRPM:70000\n");
    assert_eq!(rpm, 2000);
}

#[test]
fn rpm_takes_field_between_first_and_second_colon() {
    let (_, rpm) = parse_status_text(b"RPM:123:456\n");
    assert_eq!(rpm, 123);
}

#[test]
fn rpm_field_is_trimmed_before_parsing() {
    let (_, rpm) = parse_status_text(b"RPM: 880 \n");
    assert_eq!(rpm, 880);
}

#[test]
fn word_tokens_running_and_stopped_are_recognized() {
    let (running, _) = parse_status_text(b"engine Running\n");
    assert!(running);
    let (running, _) = parse_status_text(b"engine Running\nnow Stopped\n");
    assert!(!running);
}

#[test]
fn unrecognized_text_leaves_defaults() {
    let (running, rpm) = parse_status_text(b"lorem ipsum\n\xff\xfe\n");
    assert!(!running);
    assert_eq!(rpm, 0);
}

#[test]
fn later_rpm_line_overrides_earlier() {
    let (_, rpm) = parse_status_text(b"RPM:100\nRPM:200\n");
    assert_eq!(rpm, 200);
}

#[test]
fn status_snapshot_carries_port_and_raw_text() {
    let engine = connected_engine();
    let st = engine.status_from_response(b"RPM:4200\nSTATE:RUN\n");
    assert!(st.connected);
    assert_eq!(st.port_name.as_deref(), Some("/dev/ttyUSB0"));
    assert!(st.running);
    assert_eq!(st.rpm, 4200);
    assert_eq!(st.raw_response, "RPM:4200\nSTATE:RUN\n");
}

#[test]
fn offline_status_has_all_defaults() {
    let st = SerialConnection::offline_status();
    assert!(!st.connected);
    assert_eq!(st.port_name, None);
    assert!(!st.running);
    assert_eq!(st.rpm, 0);
    assert_eq!(st.raw_response, "");
}

#[test]
fn default_status_matches_offline() {
    let st = DeviceStatus::default();
    assert!(!st.connected);
    assert_eq!(st.rpm, 0);
}
