use tess::charset::{decode_line, parse_label, TextEncoding};

#[test]
fn parse_known_and_alias_labels() {
    assert!(parse_label("utf-8").unwrap().is_utf8());
    assert!(parse_label("latin1").is_some());
    assert!(parse_label("iso-8859-1").is_some());
    assert!(parse_label("windows-1252").is_some());
    assert!(parse_label("shift_jis").is_some());
}

#[test]
fn parse_rejects_garbage() {
    assert!(parse_label("not-a-charset-xyz").is_none());
}

#[test]
fn decode_latin1_high_byte_is_e_acute() {
    let enc = parse_label("iso-8859-1").unwrap();
    assert_eq!(decode_line(&[0x63, 0x61, 0x66, 0xE9], enc), "café");
}

#[test]
fn decode_utf8_passthrough_and_ascii_identical() {
    let enc = TextEncoding::utf8();
    assert_eq!(decode_line("café".as_bytes(), enc), "café");
    let l1 = parse_label("iso-8859-1").unwrap();
    assert_eq!(decode_line(b"plain ascii", l1), "plain ascii");
}

#[test]
fn decode_utf8_invalid_is_lossy_replacement() {
    let enc = TextEncoding::utf8();
    let s = decode_line(&[b'a', 0xC3, b'b'], enc);
    assert!(s.contains('\u{FFFD}'));
    assert!(s.starts_with('a') && s.ends_with('b'));
}

#[test]
fn labels_are_case_and_space_insensitive_and_canonical() {
    let e = parse_label("  LATIN1 ").unwrap();
    assert_eq!(e.label(), "windows-1252");
    assert!(!e.is_utf8());
    assert_eq!(TextEncoding::default().label(), "UTF-8");
    assert!(TextEncoding::default().is_utf8());
}
