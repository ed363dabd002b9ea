use rollingpanda::creds::{
    ct_eq_str, parse_port, try_parse_port, verify, BakedSettings, PortError, DEFAULT_PASSWORD,
    DEFAULT_PORT, DEFAULT_USERNAME,
};
use rollingpanda::listen::{connect_command, connect_host, socket_text};
use rollingpanda::text::decimal_text;

#[test]
fn default_credentials() {
    let baked = BakedSettings::new(None, None, None).unwrap().credentials;
    assert!(verify(&baked, "panda", "rolling"));
    assert!(verify(&baked, DEFAULT_USERNAME, DEFAULT_PASSWORD));
    assert!(!verify(&baked, "panda", "rollinG"));
    assert!(!verify(&baked, "Panda", "rolling"));
    assert!(!verify(&baked, "panda", "rolling "));
    assert!(!verify(&baked, "", ""));
    assert!(!verify(&baked, "rolling", "panda"));
}

#[test]
fn credentials_of_a_build_with_overrides() {
    let baked = BakedSettings::new(Some("admin"), None, None).unwrap().credentials;
    assert!(verify(&baked, "admin", "rolling"));
    assert!(!verify(&baked, "panda", "rolling"));
    let baked = BakedSettings::new(None, Some("s3cret"), None).unwrap().credentials;
    assert!(verify(&baked, "panda", "s3cret"));
    assert!(!verify(&baked, "panda", "rolling"));
    let baked = BakedSettings::new(Some(""), Some(""), None).unwrap().credentials;
    assert!(verify(&baked, "", ""));
    assert!(!verify(&baked, "panda", "rolling"));
}

#[test]
fn texts_compare_by_content() {
    assert!(ct_eq_str("", ""));
    assert!(ct_eq_str("pässword", "pässword"));
    assert!(!ct_eq_str("pässword", "passwörd"));
    assert!(!ct_eq_str("abc", "abd"));
    assert!(!ct_eq_str("abc", "ab"));
}

#[test]
fn ports_are_read() {
    assert_eq!(parse_port("2222"), DEFAULT_PORT);
    assert_eq!(try_parse_port("1"), Ok(1));
    assert_eq!(try_parse_port("65535"), Ok(65535));
    assert_eq!(try_parse_port("0008022"), Ok(8022));
}

#[test]
fn bad_ports_are_named() {
    assert_eq!(try_parse_port(""), Err(PortError::OutOfRange));
    assert_eq!(try_parse_port("0"), Err(PortError::OutOfRange));
    assert_eq!(try_parse_port("000"), Err(PortError::OutOfRange));
    assert_eq!(try_parse_port("65536"), Err(PortError::OutOfRange));
    assert_eq!(try_parse_port("99999999999999999999"), Err(PortError::OutOfRange));
    assert_eq!(try_parse_port("99999x"), Err(PortError::OutOfRange));
    assert_eq!(try_parse_port("9x99999"), Err(PortError::NotDigits));
    assert_eq!(try_parse_port("-1"), Err(PortError::NotDigits));
    assert_eq!(try_parse_port(" 22"), Err(PortError::NotDigits));
    assert_eq!(try_parse_port("٢٢"), Err(PortError::NotDigits));
    assert_eq!(PortError::NotDigits.message(), "ROLLINGPANDA_PORT must contain only digits");
    assert_eq!(PortError::OutOfRange.message(), "ROLLINGPANDA_PORT must be 1..=65535");
}

#[test]
fn every_port_reads_back() {
    for port in 1..=65535u16 {
        let text = decimal_text(port);
        assert_eq!(text, port.to_string());
        assert_eq!(try_parse_port(&text), Ok(port));
    }
    assert_eq!(decimal_text(0), "0");
}

#[test]
fn settings_without_overrides() {
    let baked = BakedSettings::new(None, None, None).unwrap();
    assert_eq!(baked.credentials.username, "panda");
    assert_eq!(baked.credentials.password, "rolling");
    assert_eq!(baked.port, 2222);
    assert!(verify(&baked.credentials, "panda", "rolling"));
}

#[test]
fn settings_with_overrides() {
    let baked = BakedSettings::new(Some("admin"), Some("s3cret"), Some("8022")).unwrap();
    assert_eq!(baked.port, 8022);
    assert!(verify(&baked.credentials, "admin", "s3cret"));
    assert!(verify(&baked.credentials.clone(), "admin", "s3cret"));
    assert!(!verify(&baked.credentials, "panda", "rolling"));
    assert!(!verify(&baked.credentials, "admin", "rolling"));
    assert!(matches!(BakedSettings::new(None, None, Some("x")), Err(PortError::NotDigits)));
    assert!(matches!(BakedSettings::new(None, None, Some("")), Err(PortError::OutOfRange)));
}

#[test]
fn sockets_are_written() {
    assert_eq!(socket_text("0.0.0.0", 2222), "0.0.0.0:2222");
    assert_eq!(socket_text("[::1]", 7), "[::1]:7");
}

#[test]
fn clients_are_told_where_to_connect() {
    assert_eq!(connect_host("0.0.0.0"), "127.0.0.1");
    assert_eq!(connect_host("10.0.0.7"), "10.0.0.7");
    assert_eq!(connect_command("0.0.0.0", 2222, "panda"), "ssh -p 2222 panda@127.0.0.1");
}
