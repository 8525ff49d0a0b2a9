use my_git::objects::utils::{bytes_to_string, string_to_bytes};

#[test]
fn test_string_to_bytes() {
    assert_eq!(string_to_bytes("1a3f"), &[0x1a, 0x3f]);
}

#[test]
fn test_string_to_bytes_single_char() {
    assert_eq!(string_to_bytes("1"), &[0x01]);
}

#[test]
fn test_string_to_bytes_empty() {
    assert_eq!(string_to_bytes(""), &[]);
}

#[test]
fn test_bytes_to_string() {
    assert_eq!("1a3f", bytes_to_string(&[0x1a, 0x3f]));
}

#[test]
fn test_bytes_to_string_single_byte() {
    assert_eq!("01", bytes_to_string(&[0x1]));
}

#[test]
fn test_bytes_to_string_empty() {
    assert_eq!(bytes_to_string(&[]), "");
}

#[test]
fn string_to_bytes_accepts_upper_case_and_plus_sign() {
    assert_eq!(string_to_bytes("FFab"), &[0xff, 0xab]);
    assert_eq!(string_to_bytes("+f10"), &[0x0f, 0x10]);
    assert_eq!(string_to_bytes("abc"), &[0xab, 0x0c]);
}

#[test]
fn hex_round_trip_on_all_bytes() {
    let bytes: Vec<u8> = (0..=255u8).collect();
    let text = bytes_to_string(&bytes);
    assert_eq!(text.len(), 512);
    assert_eq!(&text[0..6], "000102");
    assert_eq!(&text[506..], "fdfeff");
    assert_eq!(string_to_bytes(&text), bytes);
}
