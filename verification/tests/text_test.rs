use my_git::objects::numbers::{decimal_bytes, parse_unsigned_bytes, zero_padded_decimal, IntErrorKind};
use my_git::objects::text::{find_byte, find_char, join_path, trim_str};

#[test]
fn decimal_text_reads_back() {
    for n in [0u64, 7, 10, 40000, 100644, 4294967295, u64::MAX] {
        let text = decimal_bytes(n);
        assert_eq!(text, n.to_string().into_bytes());
        assert_eq!(parse_unsigned_bytes(&text, u64::MAX), Ok(n));
    }
    assert_eq!(zero_padded_decimal(40000, 6), b"040000".to_vec());
    assert_eq!(zero_padded_decimal(100644, 6), b"100644".to_vec());
    assert_eq!(zero_padded_decimal(1234567, 6), b"1234567".to_vec());
}

#[test]
fn parse_matches_std() {
    let max = u32::MAX as u64;
    for text in ["", "+", "-", "+0", "0", "007", "12a", "4294967295", "4294967296", "99999999999x", "x9", "+-1", " 1"] {
        let ours = parse_unsigned_bytes(text.as_bytes(), max);
        let std = text.parse::<u32>();
        match (ours, std) {
            (Ok(a), Ok(b)) => assert_eq!(a, b as u64, "{:?}", text),
            (Err(k), Err(e)) => {
                let expected = match e.kind() {
                    std::num::IntErrorKind::Empty => IntErrorKind::Empty,
                    std::num::IntErrorKind::InvalidDigit => IntErrorKind::InvalidDigit,
                    std::num::IntErrorKind::PosOverflow => IntErrorKind::PosOverflow,
                    _ => panic!("unexpected kind"),
                };
                assert_eq!(k, expected, "{:?}", text);
            }
            (a, b) => panic!("{:?}: {:?} vs {:?}", text, a, b),
        }
    }
}

#[test]
fn trimming_matches_std() {
    for text in ["", "  ", "\tblob\n", "\u{a0}tree\u{3000}", "a b", "\u{200b}x"] {
        assert_eq!(trim_str(text), text.trim(), "{:?}", text);
    }
}

#[test]
fn joining_matches_path_join() {
    for (base, name) in [("a", "b"), ("a/", "b"), ("", "b"), ("a", "/b"), ("/", "x"), ("a", "")] {
        let ours = join_path(base, name);
        let std = std::path::Path::new(base).join(name);
        assert_eq!(ours, std.to_str().unwrap(), "{:?} {:?}", base, name);
    }
}

#[test]
fn searching() {
    assert_eq!(find_byte(b"ab\0c\0", 0, 0), Some(2));
    assert_eq!(find_byte(b"ab\0c\0", 3, 0), Some(1));
    assert_eq!(find_byte(b"abc", 0, 0), None);
    assert_eq!(find_char("héllo wörld", ' '), Some(5));
    assert_eq!(find_char("x", ' '), None);
}
