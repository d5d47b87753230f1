use tess::hex::{format_hex_row, hex_chars_to_bytes_per_group};

#[test]
fn aligned_input_16_bytes_renders_full_row() {
    let bytes = b"Hello world. tes";
    let row = format_hex_row(0, bytes, 2);
    assert_eq!(row, "00000000: 4865 6c6c 6f20 776f 726c 642e 2074 6573  Hello world. tes");
}

#[test]
fn short_tail_pads_ascii_gutter_columns() {
    let bytes = b"t.";
    let row = format_hex_row(0x10, bytes, 2);
    assert!(row.starts_with("00000010: 742e "));
    assert!(row.ends_with("  t."));
    let ascii_start = row.find("  t.").unwrap();
    let full_row = format_hex_row(0, b"0123456789abcdef", 2);
    let full_ascii_start = full_row.rfind("  ").unwrap();
    assert_eq!(ascii_start, full_ascii_start, "short-row ASCII column should align with full-row ASCII column");
}

#[test]
fn all_printable_bytes_show_in_gutter() {
    let row = format_hex_row(0, b"abcdefghijklmnop", 2);
    assert!(row.ends_with("  abcdefghijklmnop"));
}

#[test]
fn all_non_printable_bytes_show_as_dots() {
    let bytes = &[0x00, 0x01, 0x02, 0x1f, 0x7f, 0x80, 0xff];
    let row = format_hex_row(0, bytes, 2);
    assert!(row.ends_with("  ......."));
}

#[test]
fn utf8_multibyte_renders_as_dots_in_gutter() {
    let row = format_hex_row(0, "ä".as_bytes(), 2);
    assert!(row.contains("c3a4"));
    assert!(row.ends_with("  .."));
}

#[test]
fn offset_grows_past_0x10000() {
    let row = format_hex_row(0x123456, b"X", 2);
    assert!(row.starts_with("00123456: "));
}

#[test]
fn offset_grows_past_8_digits() {
    let row = format_hex_row(0x1_2345_6789, b"X", 2);
    assert!(row.starts_with("123456789: "));
}

#[test]
fn group_size_1_byte_renders_2_hex_per_group() {
    let row = format_hex_row(0, b"Hello world. tes", 1);
    assert_eq!(row, "00000000: 48 65 6c 6c 6f 20 77 6f 72 6c 64 2e 20 74 65 73  Hello world. tes");
}

#[test]
fn group_size_4_bytes_renders_8_hex_per_group() {
    let row = format_hex_row(0, b"Hello world. tes", 4);
    assert_eq!(row, "00000000: 48656c6c 6f20776f 726c642e 20746573  Hello world. tes");
}

#[test]
fn group_size_8_bytes_renders_16_hex_per_group() {
    let row = format_hex_row(0, b"Hello world. tes", 8);
    assert_eq!(row, "00000000: 48656c6c6f20776f 726c642e20746573  Hello world. tes");
}

#[test]
fn group_size_16_bytes_renders_whole_row_unspaced() {
    let row = format_hex_row(0, b"Hello world. tes", 16);
    assert_eq!(row, "00000000: 48656c6c6f20776f726c642e20746573  Hello world. tes");
}

#[test]
fn short_tail_aligns_across_all_group_sizes() {
    let short = b"t.";
    let full = b"0123456789abcdef";
    for &bpg in &[1usize, 2, 4, 8, 16] {
        let short_row = format_hex_row(0x10, short, bpg);
        let full_row = format_hex_row(0, full, bpg);
        let short_ascii = short_row.find("  t.").unwrap();
        let full_ascii = full_row.rfind("  ").unwrap();
        assert_eq!(short_ascii, full_ascii, "ascii column misaligned for bytes_per_group={bpg}");
    }
}

#[test]
fn hex_chars_to_bytes_per_group_maps_valid_values() {
    assert_eq!(hex_chars_to_bytes_per_group(2), Some(1));
    assert_eq!(hex_chars_to_bytes_per_group(4), Some(2));
    assert_eq!(hex_chars_to_bytes_per_group(8), Some(4));
    assert_eq!(hex_chars_to_bytes_per_group(16), Some(8));
    assert_eq!(hex_chars_to_bytes_per_group(32), Some(16));
}

#[test]
fn hex_chars_to_bytes_per_group_rejects_invalid() {
    assert_eq!(hex_chars_to_bytes_per_group(0), None);
    assert_eq!(hex_chars_to_bytes_per_group(1), None);
    assert_eq!(hex_chars_to_bytes_per_group(3), None);
    assert_eq!(hex_chars_to_bytes_per_group(64), None);
}

#[test]
fn empty_row_has_only_offset_and_padding() {
    let row = format_hex_row(0, b"", 2);
    assert!(row.starts_with("00000000: "));
    assert!(row.ends_with("  "));
}
