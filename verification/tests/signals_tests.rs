use sigserial::errors::SignalError;
use sigserial::ports::{describe_port, PortKind};
use sigserial::signals::{
    not_found_error, safe_filename, signal_info_of, sort_signals, validate_signal, SignalConfig,
    SignalInfo,
};

fn config(name: &str, ckp: &str, cmp1: Option<&str>, cmp2: Option<&str>) -> SignalConfig {
    SignalConfig {
        name: name.to_string(),
        ckp: ckp.to_string(),
        cmp1: cmp1.map(|s| s.to_string()),
        cmp2: cmp2.map(|s| s.to_string()),
    }
}

#[test]
fn valid_signal_passes() {
    let c = config("60-2", "SIG1,60,2", Some("SIG1,cam"), None);
    assert!(validate_signal(&c).is_ok());
}

#[test]
fn empty_name_is_refused() {
    let c = config("", "SIG1,60,2", None, None);
    match validate_signal(&c) {
        Err(SignalError::ValidationError(m)) => assert_eq!(m, "Signal name cannot be empty"),
        other => panic!("expected a validation error, got {:?}", other),
    }
}

#[test]
fn ckp_without_prefix_is_refused() {
    let c = config("x", "60,2", None, None);
    match validate_signal(&c) {
        Err(SignalError::ValidationError(m)) => assert_eq!(m, "CKP must start with SIG1 prefix"),
        other => panic!("expected a validation error, got {:?}", other),
    }
}

#[test]
fn cmp1_without_prefix_is_refused() {
    let c = config("x", "SIG1,60,2", Some("cam"), None);
    match validate_signal(&c) {
        Err(SignalError::ValidationError(m)) => assert_eq!(m, "CMP1 must start with SIG1 prefix"),
        other => panic!("expected a validation error, got {:?}", other),
    }
}

#[test]
fn cmp2_without_prefix_is_refused() {
    let c = config("x", "SIG1,60,2", None, Some("cam"));
    match validate_signal(&c) {
        Err(SignalError::ValidationError(m)) => assert_eq!(m, "CMP2 must start with SIG1 prefix"),
        other => panic!("expected a validation error, got {:?}", other),
    }
}

#[test]
fn missing_cams_are_allowed() {
    let c = config("bare", "SIG1", None, None);
    assert!(validate_signal(&c).is_ok());
}

#[test]
fn prefix_must_be_exact() {
    let c = config("x", "SIG", None, None);
    assert!(validate_signal(&c).is_err());
    let c = config("x", "sig1,60,2", None, None);
    assert!(validate_signal(&c).is_err());
}

#[test]
fn safe_filename_replaces_and_lowercases() {
    assert_eq!(safe_filename("My Signal #1"), "my_signal__1");
    assert_eq!(safe_filename("60-2_test"), "60-2_test");
    assert_eq!(safe_filename("ABC"), "abc");
    assert_eq!(safe_filename(""), "");
}

#[test]
fn safe_filename_keeps_unicode_letters() {
    assert_eq!(safe_filename("Köln!"), "köln_");
}

#[test]
fn signal_info_reflects_which_patterns_exist() {
    let c = config("n", "SIG1,a", Some("SIG1,b"), None);
    let info = signal_info_of(&c, "n.json".to_string());
    assert_eq!(info.name, "n");
    assert_eq!(info.filename, "n.json");
    assert!(info.has_ckp);
    assert!(info.has_cmp1);
    assert!(!info.has_cmp2);
}

#[test]
fn empty_ckp_is_reported_absent_in_listing() {
    let c = config("n", "", None, Some("SIG1,c"));
    let info = signal_info_of(&c, "n.json".to_string());
    assert!(!info.has_ckp);
    assert!(info.has_cmp2);
}

fn info(name: &str, filename: &str) -> SignalInfo {
    SignalInfo {
        name: name.to_string(),
        filename: filename.to_string(),
        has_ckp: true,
        has_cmp1: false,
        has_cmp2: false,
    }
}

#[test]
fn listing_sorts_by_name_case_insensitively() {
    let v = vec![info("beta", "b"), info("Alpha", "a"), info("alpha2", "a2")];
    let sorted = sort_signals(v);
    let names: Vec<&str> = sorted.iter().map(|i| i.name.as_str()).collect();
    assert_eq!(names, vec!["Alpha", "alpha2", "beta"]);
}

#[test]
fn listing_sort_keeps_equal_names_in_arrival_order() {
    let v = vec![info("dup", "first"), info("Dup", "second"), info("a", "z")];
    let sorted = sort_signals(v);
    let files: Vec<&str> = sorted.iter().map(|i| i.filename.as_str()).collect();
    assert_eq!(files, vec!["z", "first", "second"]);
}

#[test]
fn listing_sort_of_empty_is_empty() {
    let sorted = sort_signals(Vec::new());
    assert!(sorted.is_empty());
}

#[test]
fn not_found_message_names_the_file() {
    match not_found_error("x.json") {
        SignalError::NotFound(m) => assert_eq!(m, "Signal 'x.json' not found"),
        other => panic!("expected a not-found error, got {:?}", other),
    }
}

#[test]
fn signal_error_messages_carry_their_kind() {
    assert_eq!(
        SignalError::IoError("disk".to_string()).message(),
        "IO Error: disk"
    );
    assert_eq!(
        SignalError::ParseError("json".to_string()).message(),
        "Parse Error: json"
    );
    assert_eq!(
        SignalError::ValidationError("rule".to_string()).message(),
        "Validation Error: rule"
    );
    assert_eq!(
        SignalError::NotFound("gone".to_string()).message(),
        "Not Found: gone"
    );
}

#[test]
fn port_labels_follow_the_bus_kind() {
    let p = describe_port(
        "COM3".to_string(),
        PortKind::Usb {
            manufacturer: Some("Espressif".to_string()),
            product: Some("USB JTAG".to_string()),
        },
    );
    assert_eq!(p.name, "COM3");
    assert_eq!(p.port_type, "USB: Espressif USB JTAG");

    let p = describe_port(
        "COM4".to_string(),
        PortKind::Usb { manufacturer: None, product: None },
    );
    assert_eq!(p.port_type, "USB:  ");

    assert_eq!(
        describe_port("b".to_string(), PortKind::Bluetooth).port_type,
        "Bluetooth"
    );
    assert_eq!(describe_port("p".to_string(), PortKind::Pci).port_type, "PCI");
    assert_eq!(
        describe_port("u".to_string(), PortKind::Unknown).port_type,
        "Unknown"
    );
}
