use quickjs_sys::text::{decode_text, is_nul_free, make_c_string};

#[test]
fn c_string_ends_with_nul() {
    assert_eq!(make_c_string("ab"), vec![b'a', b'b', 0]);
    assert_eq!(make_c_string("\u{20ac}"), vec![0xe2, 0x82, 0xac, 0]);
    assert_eq!(make_c_string(""), vec![0]);
}

#[test]
fn c_string_of_text_with_nul_is_empty() {
    assert_eq!(make_c_string("a\0b"), vec![0]);
    assert_eq!(make_c_string("\0"), vec![0]);
    assert!(!is_nul_free("a\0"));
    assert!(is_nul_free("a"));
    assert!(is_nul_free(""));
}

#[test]
fn text_is_decoded() {
    assert_eq!(decode_text(b"plain"), "plain");
    assert_eq!(decode_text("h\u{e9}\u{1f600}".as_bytes()), "h\u{e9}\u{1f600}");
    assert_eq!(decode_text(b""), "");
}

#[test]
fn broken_text_is_empty() {
    assert_eq!(decode_text(&[0xff]), "");
    assert_eq!(decode_text(&[b'a', 0xc3]), "");
    assert_eq!(decode_text(&[0xed, 0xa0, 0x80]), "");
    assert_eq!(decode_text(&[0xc0, 0x80]), "");
}

#[test]
fn text_survives_a_c_string() {
    for s in ["", "x", "h\u{e9}llo", "\u{10ffff}"] {
        let bytes = make_c_string(s);
        assert_eq!(decode_text(&bytes[..bytes.len() - 1]), s);
    }
}
