use sigserial::connection::{ProtocolConfig, SerialConnection};
use sigserial::upload::{chunk_bytes, frame_payload, scan_response};

fn connected_engine() -> SerialConnection {
    let mut c = SerialConnection::new();
    c.complete_open("COM3".to_string());
    c
}

#[test]
fn framing_wraps_payload_in_markers() {
    let framed = frame_payload(b"hello");
    assert_eq!(framed, b"<CFG>\nhello\n<END>\n".to_vec());
}

#[test]
fn framing_overhead_is_thirteen_bytes() {
    let framed = frame_payload(b"");
    assert_eq!(framed.len(), 13);
    let framed = frame_payload(b"abc");
    assert_eq!(framed.len(), 16);
}

#[test]
fn chunking_splits_at_chunk_size_with_partial_tail() {
    let data = vec![7u8; 300];
    let chunks = chunk_bytes(&data, 64);
    assert_eq!(chunks.len(), 5);
    assert_eq!(chunks[0].len(), 64);
    assert_eq!(chunks[3].len(), 64);
    assert_eq!(chunks[4].len(), 44);
    let rejoined: Vec<u8> = chunks.concat();
    assert_eq!(rejoined, data);
}

#[test]
fn chunking_exact_multiple_has_no_partial_tail() {
    let data = vec![1u8; 128];
    let chunks = chunk_bytes(&data, 64);
    assert_eq!(chunks.len(), 2);
    assert_eq!(chunks[1].len(), 64);
}

#[test]
fn upload_frames_to_five_chunks_for_300_bytes() {
    // A 287-byte payload frames to exactly 300 bytes.
    let payload = "x".repeat(287);
    let engine = connected_engine();
    let p = ProtocolConfig::new();
    let (session, chunks) = engine.begin_upload(&payload, &p).unwrap();
    assert_eq!(chunks.len(), 5);
    assert_eq!(chunks[4].len(), 44);
    let outcome = session.finish();
    assert_eq!(outcome.bytes_sent, 300);
    assert_eq!(outcome.chunks_sent, 5);
}

#[test]
fn upload_ack_reply_succeeds() {
    let engine = connected_engine();
    let p = ProtocolConfig::new();
    let (mut session, _chunks) = engine.begin_upload("SIG1,60,2", &p).unwrap();
    let done = session.on_data(b"ACK\n");
    assert!(done);
    let outcome = session.finish();
    assert!(outcome.success);
    assert_eq!(outcome.error_message, None);
}

#[test]
fn upload_nak_reply_fails_with_that_line() {
    let engine = connected_engine();
    let p = ProtocolConfig::new();
    let (mut session, _chunks) = engine.begin_upload("SIG1,60,2", &p).unwrap();
    let done = session.on_data(b"NAK:bad checksum\n");
    assert!(done);
    let outcome = session.finish();
    assert!(!outcome.success);
    assert_eq!(outcome.error_message.as_deref(), Some("NAK:bad checksum"));
}

#[test]
fn upload_without_any_reply_reports_timeout() {
    let engine = connected_engine();
    let p = ProtocolConfig::new();
    let (session, _chunks) = engine.begin_upload("SIG1,60,2", &p).unwrap();
    let outcome = session.finish();
    assert!(!outcome.success);
    assert_eq!(
        outcome.error_message.as_deref(),
        Some("No response from ESP32 - config may not have been applied (timeout)")
    );
}

#[test]
fn upload_whitespace_only_reply_reports_timeout() {
    let engine = connected_engine();
    let p = ProtocolConfig::new();
    let (mut session, _chunks) = engine.begin_upload("SIG1,60,2", &p).unwrap();
    let done = session.on_data(b"  \r\n \n");
    assert!(!done);
    let outcome = session.finish();
    assert!(!outcome.success);
    assert_eq!(
        outcome.error_message.as_deref(),
        Some("No response from ESP32 - config may not have been applied (timeout)")
    );
}

#[test]
fn upload_chatter_without_ack_reports_preview() {
    let engine = connected_engine();
    let p = ProtocolConfig::new();
    let (mut session, _chunks) = engine.begin_upload("SIG1,60,2", &p).unwrap();
    let done = session.on_data(b"booting...\nready\n");
    assert!(!done);
    let outcome = session.finish();
    assert!(!outcome.success);
    let msg = outcome.error_message.unwrap();
    assert!(msg.starts_with("No ACK received. Response preview: booting..."));
}

#[test]
fn upload_ack_split_across_reads_is_still_seen() {
    let engine = connected_engine();
    let p = ProtocolConfig::new();
    let (mut session, _chunks) = engine.begin_upload("SIG1,60,2", &p).unwrap();
    assert!(!session.on_data(b"AC"));
    assert!(session.on_data(b"K\n"));
    let outcome = session.finish();
    assert!(outcome.success);
}

#[test]
fn upload_ack_line_with_surrounding_whitespace_counts() {
    let engine = connected_engine();
    let p = ProtocolConfig::new();
    let (mut session, _chunks) = engine.begin_upload("SIG1,60,2", &p).unwrap();
    assert!(session.on_data(b"  ACK \r\n"));
    assert!(session.finish().success);
}

#[test]
fn upload_latest_nak_wins() {
    let engine = connected_engine();
    let p = ProtocolConfig::new();
    let (mut session, _chunks) = engine.begin_upload("SIG1,60,2", &p).unwrap();
    session.on_data(b"NAK:first\nNAK:second\n");
    let outcome = session.finish();
    assert_eq!(outcome.error_message.as_deref(), Some("NAK:second"));
}

#[test]
fn upload_nak_outranks_missing_ack_text() {
    let engine = connected_engine();
    let p = ProtocolConfig::new();
    let (mut session, _chunks) = engine.begin_upload("SIG1,60,2", &p).unwrap();
    session.on_data(b"log line\nNAK:rejected\nmore logs\n");
    let outcome = session.finish();
    assert!(!outcome.success);
    assert_eq!(outcome.error_message.as_deref(), Some("NAK:rejected"));
}

#[test]
fn response_buffer_never_grows_past_cap_and_keeps_tail() {
    let engine = connected_engine();
    let p = ProtocolConfig::new();
    let (mut session, _chunks) = engine.begin_upload("SIG1,60,2", &p).unwrap();
    // Feed far more than the 16 KiB cap across many reads.
    for _ in 0..200 {
        session.on_data(&vec![b'a'; 100]);
    }
    session.on_data(b"TAIL-MARKER\n");
    let outcome = session.finish();
    assert!(outcome.raw_response.len() <= 16 * 1024);
    assert!(outcome.raw_response.ends_with("TAIL-MARKER\n"));
    assert!(outcome.raw_response.starts_with('a'));
}

#[test]
fn upload_drain_data_is_kept_but_not_rescanned() {
    let engine = connected_engine();
    let p = ProtocolConfig::new();
    let (mut session, _chunks) = engine.begin_upload("SIG1,60,2", &p).unwrap();
    assert!(session.on_data(b"ACK\n"));
    session.on_drain_data(b"trailing log\n");
    let outcome = session.finish();
    assert!(outcome.success);
    assert_eq!(outcome.raw_response, "ACK\ntrailing log\n");
}

#[test]
fn upload_round_trip_echo_reports_framed_length() {
    let payload = "SIG1,roundtrip,12345";
    let engine = connected_engine();
    let p = ProtocolConfig::new();
    let (mut session, chunks) = engine.begin_upload(payload, &p).unwrap();
    // A device that echoes the framed message exactly, then acknowledges.
    let mut echo: Vec<u8> = Vec::new();
    for c in &chunks {
        echo.extend_from_slice(c);
    }
    echo.extend_from_slice(b"ACK\n");
    session.on_data(&echo);
    let outcome = session.finish();
    assert!(outcome.success);
    assert_eq!(outcome.bytes_sent, payload.len() + 13);
    assert_eq!(outcome.chunks_sent, chunks.len());
}

#[test]
fn upload_preview_is_first_500_characters() {
    let payload = "p".repeat(600);
    let engine = connected_engine();
    let p = ProtocolConfig::new();
    let (session, _chunks) = engine.begin_upload(&payload, &p).unwrap();
    let outcome = session.finish();
    assert_eq!(outcome.config_preview.len(), 500);
}

#[test]
fn upload_on_disconnected_engine_is_refused() {
    let engine = SerialConnection::new();
    let p = ProtocolConfig::new();
    let r = engine.begin_upload("SIG1,60,2", &p);
    assert!(matches!(
        r,
        Err(sigserial::errors::SerialError::NotConnected)
    ));
}

#[test]
fn scan_finds_ack_and_latest_nak() {
    let (ack, nak) = scan_response(b"hello\nACK\nNAK:x\nNAK:y\n");
    assert!(ack);
    assert_eq!(nak, Some(b"NAK:y".to_vec()));
}

#[test]
fn scan_requires_exact_ack_line() {
    let (ack, nak) = scan_response(b"ACKNOWLEDGE\nPACK\n");
    assert!(!ack);
    assert_eq!(nak, None);
}

#[test]
fn scan_nak_prefix_must_open_the_line() {
    let (ack, nak) = scan_response(b"note: NAK:inside\n");
    assert!(!ack);
    assert_eq!(nak, None);
}
