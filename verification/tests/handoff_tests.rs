use aether::keyhandoff::{key_verdict, parse_dll_line, parse_key_line, receive_if_requested};
use base64::Engine;

#[test]
fn a_valid_line_installs_a_32_byte_key() {
    let b64 = base64::engine::general_purpose::STANDARD.encode([7u8; 32]);
    assert_eq!(parse_key_line(&format!("key {b64}\n")).unwrap(), b64);
    assert_eq!(parse_key_line(&format!("key {b64}")).unwrap(), b64);
}

#[test]
fn anything_that_is_not_a_key_line_is_rejected() {
    assert!(parse_key_line("shutdown\n").is_err());
    assert!(parse_key_line("\n").is_err());
    assert!(parse_key_line("key not-base64!!").is_err());
    let short = base64::engine::general_purpose::STANDARD.encode([1u8; 16]);
    let err = parse_key_line(&format!("key {short}")).unwrap_err();
    assert!(err.message().contains("32 bytes"), "{}", err.message());
}

#[test]
fn a_dll_line_carries_the_parents_path_verbatim() {
    assert_eq!(
        parse_dll_line("dll wintun C:\\Program Files\\Aether\\wintun.dll\n").unwrap(),
        r"C:\Program Files\Aether\wintun.dll"
    );
}

#[test]
fn a_dll_line_that_is_not_a_path_is_rejected() {
    assert!(parse_dll_line("key abc\n").is_err(), "wrong token");
    assert!(parse_dll_line("dll wintun \n").is_err(), "empty path");
    assert!(parse_dll_line("dll wintun a\0b").is_err(), "NUL inside the path");
    assert!(
        parse_dll_line(&format!("dll wintun {}", "x".repeat(5000))).is_err(),
        "absurd length"
    );
    assert!(parse_dll_line("shutdown\n").is_err(), "a control command is not a path");
}

#[test]
fn handoff_errors_say_what_was_wrong() {
    assert_eq!(
        parse_key_line("shutdown").unwrap_err().message(),
        "other: expected a `key <base64>` handoff line on stdin"
    );
    assert_eq!(
        key_verdict("abcd", Ok(vec![1, 2, 3])).unwrap_err().message(),
        "other: config key handoff must be 32 bytes (got 3)"
    );
    assert_eq!(
        key_verdict("x", Err("bad".to_string())).unwrap_err().message(),
        "other: config key handoff is not valid base64: bad"
    );
    assert_eq!(key_verdict("x", Ok(vec![0; 32])).unwrap(), "x");
    let long = format!("dll wintun {}", "é".repeat(2049));
    assert_eq!(
        parse_dll_line(&long).unwrap_err().message(),
        "other: wintun handoff path is empty, over-long (4098 bytes) or contains a NUL"
    );
    assert_eq!(parse_dll_line("dll wintun  spaced path \r\n\r\n").unwrap(), "spaced path");
}

#[test]
fn the_key_is_read_only_when_asked_and_missing() {
    assert!(receive_if_requested(Some("1"), false));
    assert!(!receive_if_requested(Some("1"), true));
    assert!(!receive_if_requested(Some("no"), false));
    assert!(!receive_if_requested(None, false));
}
