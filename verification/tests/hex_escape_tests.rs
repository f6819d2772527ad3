use zpl_toolchain_core::hex_escape::{decode_hex_escapes, validate_hex_escapes};

#[test]
fn validate_valid_sequences() {
    assert!(validate_hex_escapes("Hello_20World", b'_').is_empty());
    assert!(validate_hex_escapes("_00_FF_0A_ff", b'_').is_empty());
    assert!(validate_hex_escapes("no escapes here", b'_').is_empty());
    assert!(validate_hex_escapes("", b'_').is_empty());
}

#[test]
fn validate_invalid_hex_digits() {
    let errors = validate_hex_escapes("_GG", b'_');
    assert_eq!(errors.len(), 1);
    assert_eq!(errors[0].offset, 0);
}

#[test]
fn validate_incomplete_at_end() {
    let errors = validate_hex_escapes("Hello_", b'_');
    assert_eq!(errors.len(), 1);
    assert_eq!(errors[0].offset, 5);

    let errors = validate_hex_escapes("Hello_A", b'_');
    assert_eq!(errors.len(), 1);
    assert_eq!(errors[0].offset, 5);
}

#[test]
fn validate_multiple_errors() {
    let errors = validate_hex_escapes("_ZZ_XX", b'_');
    assert_eq!(errors.len(), 2);
    assert_eq!(errors[0].offset, 0);
    assert_eq!(errors[1].offset, 3);
}

#[test]
fn validate_custom_indicator() {
    assert!(validate_hex_escapes("#41#42", b'#').is_empty());
    assert!(validate_hex_escapes("_GG", b'#').is_empty());
    let errors = validate_hex_escapes("#ZZ", b'#');
    assert_eq!(errors.len(), 1);
}

#[test]
fn decode_simple() {
    let result = decode_hex_escapes("Hello_20World", b'_').unwrap();
    assert_eq!(result, b"Hello World");
}

#[test]
fn decode_multiple() {
    let result = decode_hex_escapes("_48_65_6C_6C_6F", b'_').unwrap();
    assert_eq!(result, b"Hello");
}

#[test]
fn decode_no_escapes() {
    let result = decode_hex_escapes("plain text", b'_').unwrap();
    assert_eq!(result, b"plain text");
}

#[test]
fn decode_empty() {
    let result = decode_hex_escapes("", b'_').unwrap();
    assert!(result.is_empty());
}

#[test]
fn decode_all_escaped() {
    let result = decode_hex_escapes("_00_FF_7F", b'_').unwrap();
    assert_eq!(result, &[0x00, 0xFF, 0x7F]);
}

#[test]
fn decode_custom_indicator() {
    let result = decode_hex_escapes("#41#42#43", b'#').unwrap();
    assert_eq!(result, b"ABC");
}

#[test]
fn decode_error_returns_raw_bytes() {
    let errors = decode_hex_escapes("_GG", b'_').unwrap_err();
    assert_eq!(errors.len(), 1);
}

#[test]
fn decode_case_insensitive_hex() {
    let upper = decode_hex_escapes("_4A", b'_').unwrap();
    let lower = decode_hex_escapes("_4a", b'_').unwrap();
    assert_eq!(upper, lower);
    assert_eq!(upper, b"J");
}

#[test]
fn decode_mixed_content_and_escapes() {
    let result = decode_hex_escapes("Price:_20_2410.00", b'_').unwrap();
    assert_eq!(result, b"Price: $10.00");
}

#[test]
fn escaped_text_decodes_back_to_its_bytes() {
    let result = decode_hex_escapes("_41BC_7e", b'_').unwrap();
    assert_eq!(result, b"ABC~");
    assert!(validate_hex_escapes("_41BC_7e", b'_').is_empty());
}

#[test]
fn invalid_escape_message_names_the_sequence() {
    let errors = validate_hex_escapes("a_Zq", b'_');
    assert_eq!(errors.len(), 1);
    assert_eq!(errors[0].offset, 1);
    assert!(!errors[0].message.is_empty());
}

#[test]
fn lower_case_escapes_decode_like_upper_case() {
    let bytes: Vec<u8> = vec![0x00, 0x0a, 0x7f, 0xab, 0xff];
    let lower: String = bytes.iter().map(|b| format!("_{:02x}", b)).collect();
    let upper: String = bytes.iter().map(|b| format!("_{:02X}", b)).collect();
    assert_eq!(zpl_toolchain_core::hex_escape::decode_hex_escapes(&lower, b'_').ok(), Some(bytes.clone()));
    assert_eq!(zpl_toolchain_core::hex_escape::decode_hex_escapes(&upper, b'_').ok(), Some(bytes));
}
