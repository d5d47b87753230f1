use tess::grep::GrepPredicate;
use tess::line_index::LineIndex;
use tess::pattern::ByteRegex;


#[test]
fn empty_source_zero_lines() {
    let mut m: Vec<u8> = Vec::new();
    let mut idx = LineIndex::new();
    idx.extend_to_end(&m);
    assert_eq!(idx.line_count(), 0);
}

#[test]
fn single_line_no_newline() {
    let mut m: Vec<u8> = Vec::new();
    m.extend_from_slice(b"hello");
    let mut idx = LineIndex::new();
    idx.extend_to_end(&m);
    assert_eq!(idx.line_count(), 1);
    assert_eq!(idx.line_range(0, &m), 0..5);
}

#[test]
fn single_line_trailing_newline() {
    let mut m: Vec<u8> = Vec::new();
    m.extend_from_slice(b"hello\n");
    let mut idx = LineIndex::new();
    idx.extend_to_end(&m);
    assert_eq!(idx.line_count(), 1);
    assert_eq!(idx.line_range(0, &m), 0..5);
}

#[test]
fn multiple_lines() {
    let mut m: Vec<u8> = Vec::new();
    m.extend_from_slice(b"a\nbb\nccc\n");
    let mut idx = LineIndex::new();
    idx.extend_to_end(&m);
    assert_eq!(idx.line_count(), 3);
    assert_eq!(idx.line_range(0, &m), 0..1);
    assert_eq!(idx.line_range(1, &m), 2..4);
    assert_eq!(idx.line_range(2, &m), 5..8);
}

#[test]
fn head_cap_truncates_line_count() {
    let mut m: Vec<u8> = Vec::new();
    m.extend_from_slice(b"1\n2\n3\n4\n5\n6\n7\n8\n");  // 8 lines
    let mut idx = LineIndex::new();
    idx.set_head_cap(3);
    idx.extend_to_end(&m);
    assert_eq!(idx.line_count(), 3, "should be capped to 3 lines");
    // Lines 0..2 inclusive must have correct ranges.
    assert_eq!(idx.line_range(0, &m), 0..1);
    assert_eq!(idx.line_range(1, &m), 2..3);
    assert_eq!(idx.line_range(2, &m), 4..5);
}

#[test]
fn head_cap_extend_to_line_terminates() {
    // Regression: extend_to_line(n) used to spin forever when head_cap
    // had already been hit, because extend_to_byte returned without
    // advancing scanned_through.
    let mut m: Vec<u8> = Vec::new();
    m.extend_from_slice(b"1\n2\n3\n4\n5\n6\n7\n8\n9\n10\n");
    let mut idx = LineIndex::new();
    idx.set_head_cap(3);
    idx.extend_to_line(20, &m);  // far past the cap
    assert_eq!(idx.line_count(), 3);
}

#[test]
fn head_cap_zero_yields_empty() {
    let mut m: Vec<u8> = Vec::new();
    m.extend_from_slice(b"1\n2\n3\n");
    let mut idx = LineIndex::new();
    idx.set_head_cap(0);
    idx.extend_to_end(&m);
    assert_eq!(idx.line_count(), 0);
}

#[test]
fn start_byte_skips_head_of_source() {
    let mut m: Vec<u8> = Vec::new();
    // 5 lines: alpha\nbeta\ngamma\ndelta\nepsilon\n
    m.extend_from_slice(b"alpha\nbeta\ngamma\ndelta\nepsilon\n");
    // gamma starts at byte 11.
    let mut idx = LineIndex::new_starting_at(11);
    idx.extend_to_end(&m);
    assert_eq!(idx.line_count(), 3, "from byte 11 there are 3 lines: gamma, delta, epsilon");
    assert_eq!(idx.line_range(0, &m), 11..16); // gamma
    assert_eq!(idx.line_range(1, &m), 17..22); // delta
    assert_eq!(idx.line_range(2, &m), 23..30); // epsilon
}

#[test]
fn start_byte_with_empty_remainder() {
    let mut m: Vec<u8> = Vec::new();
    m.extend_from_slice(b"alpha\n");
    let mut idx = LineIndex::new_starting_at(6);
    idx.extend_to_end(&m);
    assert_eq!(idx.line_count(), 0);
}

#[test]
fn incremental_growth_via_notice_new_bytes() {
    let mut m: Vec<u8> = Vec::new();
    let mut idx = LineIndex::new();

    m.extend_from_slice(b"alpha\n");
    idx.notice_new_bytes(&m);
    assert_eq!(idx.line_count(), 1);

    m.extend_from_slice(b"beta\ngamm");
    idx.notice_new_bytes(&m);
    assert_eq!(idx.line_count(), 3); // alpha, beta, gamm (partial, but counted)

    m.extend_from_slice(b"a\n");
    idx.notice_new_bytes(&m);
    assert_eq!(idx.line_count(), 3);
    // "alpha\n" = bytes 0-5, "beta\n" = bytes 6-10, "gamma" = bytes 11-15
    assert_eq!(idx.line_range(2, &m), 11..16); // "gamma"
}

fn re(pat: &str) -> ByteRegex {
    ByteRegex::new(pat).unwrap()
}

#[test]
fn records_mirror_lines_when_no_regex() {
    let mut m: Vec<u8> = Vec::new();
    m.extend_from_slice(b"a\nb\nc\n");
    let mut idx = LineIndex::new();
    idx.extend_to_end(&m);
    assert_eq!(idx.line_count(), 3);
    assert_eq!(idx.record_count(), 3);
    for i in 0..3 {
        assert_eq!(idx.record_range(i, &m), idx.line_range(i, &m));
    }
}

#[test]
fn record_count_zero_for_empty_source_records_mode() {
    let mut m: Vec<u8> = Vec::new();
    let mut idx = LineIndex::new();
    idx.set_record_start(re(r"^\["));
    idx.extend_to_end(&m);
    assert_eq!(idx.record_count(), 0);
}

#[test]
fn records_group_continuations() {
    let mut m: Vec<u8> = Vec::new();
    m.extend_from_slice(b"[1] head\n  more\n  more\n[2] head\n  more\n");
    let mut idx = LineIndex::new();
    idx.set_record_start(re(r"^\["));
    idx.extend_to_end(&m);
    assert_eq!(idx.line_count(), 5);
    assert_eq!(idx.record_count(), 2);
    let r0 = idx.record_range(0, &m);
    assert_eq!(&m[r0][..], b"[1] head\n  more\n  more");
    let r1 = idx.record_range(1, &m);
    assert_eq!(&m[r1][..3], b"[2]");
}

#[test]
fn synthetic_record_zero_absorbs_orphan_head() {
    let mut m: Vec<u8> = Vec::new();
    m.extend_from_slice(b"banner line 1\nbanner line 2\n[1] first real record\n");
    let mut idx = LineIndex::new();
    idx.set_record_start(re(r"^\["));
    idx.extend_to_end(&m);
    assert_eq!(idx.line_count(), 3);
    assert_eq!(idx.record_count(), 2);
    let r0 = idx.record_range(0, &m);
    assert_eq!(&m[r0][..], b"banner line 1\nbanner line 2");
    assert_eq!(idx.record_line_range(0), 0..2);
    assert_eq!(idx.record_line_range(1), 2..3);
}

#[test]
fn line_to_record_round_trips() {
    let mut m: Vec<u8> = Vec::new();
    m.extend_from_slice(b"[1] a\n  cont\n[2] b\n  cont\n  cont\n");
    let mut idx = LineIndex::new();
    idx.set_record_start(re(r"^\["));
    idx.extend_to_end(&m);
    assert_eq!(idx.line_to_record(0), 0);  // "[1] a"
    assert_eq!(idx.line_to_record(1), 0);  // "  cont"
    assert_eq!(idx.line_to_record(2), 1);  // "[2] b"
    assert_eq!(idx.line_to_record(3), 1);
    assert_eq!(idx.line_to_record(4), 1);
}

#[test]
fn record_bytes_contains_embedded_newlines() {
    let mut m: Vec<u8> = Vec::new();
    m.extend_from_slice(b"[1] head\n  more\n[2] next\n");
    let mut idx = LineIndex::new();
    idx.set_record_start(re(r"^\["));
    idx.extend_to_end(&m);
    let bytes = idx.record_bytes(0, &m);
    assert_eq!(&*bytes, b"[1] head\n  more");
}

#[test]
fn no_match_at_all_is_one_synthetic_record() {
    let mut m: Vec<u8> = Vec::new();
    m.extend_from_slice(b"plain text\nmore plain\nno brackets here\n");
    let mut idx = LineIndex::new();
    idx.set_record_start(re(r"^\["));
    idx.extend_to_end(&m);
    assert_eq!(idx.line_count(), 3);
    assert_eq!(idx.record_count(), 1);
    assert_eq!(idx.record_line_range(0), 0..3);
}

#[test]
fn pending_record_start_handles_growing_input() {
    let mut m: Vec<u8> = Vec::new();
    let mut idx = LineIndex::new();
    idx.set_record_start(re(r"^\["));
    m.extend_from_slice(b"[1] head\n  more\n");
    idx.notice_new_bytes(&m);
    assert_eq!(idx.record_count(), 1);
    m.extend_from_slice(b"[2] head\n");
    idx.notice_new_bytes(&m);
    assert_eq!(idx.record_count(), 2);
}

#[test]
fn empty_continuation_lines_are_continuations() {
    let mut m: Vec<u8> = Vec::new();
    m.extend_from_slice(b"[1] head\n\n  after blank\n[2] next\n");
    let mut idx = LineIndex::new();
    idx.set_record_start(re(r"^\["));
    idx.extend_to_end(&m);
    assert_eq!(idx.line_count(), 4);
    assert_eq!(idx.record_count(), 2);
    assert_eq!(idx.record_line_range(0), 0..3);
}

#[test]
fn line_bytes_stripped_returns_visible_text() {
    let mut m: Vec<u8> = Vec::new();
    m.extend_from_slice(b"\x1b[31merror\x1b[0m\n");
    let mut idx = LineIndex::new();
    idx.extend_to_end(&m);
    let stripped = idx.line_bytes_stripped(0, &m);
    assert_eq!(stripped.as_ref(), b"error");
}

#[test]
fn line_bytes_stripped_plain_input() {
    let mut m: Vec<u8> = Vec::new();
    m.extend_from_slice(b"plain\n");
    let mut idx = LineIndex::new();
    idx.extend_to_end(&m);
    let stripped = idx.line_bytes_stripped(0, &m);
    assert_eq!(stripped.as_ref(), b"plain");
}

#[test]
fn records_mode_reports_true_only_when_regex_set() {
    let mut idx = LineIndex::new();
    assert!(!idx.records_mode());
    idx.set_record_start(re(r"^\["));
    assert!(idx.records_mode());
}

#[test]
fn record_range_handles_unterminated_last_record() {
    let mut m: Vec<u8> = Vec::new();
    m.extend_from_slice(b"[1] head\n[2] last line no newline");
    let mut idx = LineIndex::new();
    idx.set_record_start(re(r"^\["));
    idx.extend_to_end(&m);
    assert_eq!(idx.record_count(), 2);
    let r1 = idx.record_range(1, &m);
    assert_eq!(&m[r1][..], b"[2] last line no newline");
}

#[test]
fn record_count_with_head_cap_zero_returns_zero_in_records_mode() {
    let mut m: Vec<u8> = Vec::new();
    m.extend_from_slice(b"[1] head\n[2] next\n");
    let mut idx = LineIndex::new();
    idx.set_record_start(re(r"^\["));
    idx.set_head_cap(0);
    idx.extend_to_end(&m);
    assert_eq!(idx.line_count(), 0);
    assert_eq!(idx.record_count(), 0);
}

#[test]
fn line_at_byte_finds_the_containing_line() {
    let m = b"ab\ncd\nef".to_vec();
    let mut idx = LineIndex::new();
    idx.extend_to_end(&m);
    assert_eq!(idx.line_at_byte(0), Some(0));
    assert_eq!(idx.line_at_byte(2), Some(0));
    assert_eq!(idx.line_at_byte(3), Some(1));
    assert_eq!(idx.line_at_byte(7), Some(2));
    assert_eq!(idx.line_at_byte(8), None);
    let mut tail = LineIndex::new_starting_at(3);
    tail.extend_to_end(&m);
    assert_eq!(tail.line_at_byte(1), None);
    assert_eq!(tail.line_at_byte(6), Some(1));
}

#[test]
fn query_scan_stops_after_the_line_holding_the_byte() {
    let m = b"a\nb\nc\nd\n".to_vec();
    let mut idx = LineIndex::new();
    idx.extend_to_byte_for_query(&m, 3);
    assert_eq!(idx.scanned_through(), 4);
    assert_eq!(idx.line_count(), 3);
    idx.extend_to_line(10, &m);
    assert_eq!(idx.scanned_through(), 8);
    assert_eq!(idx.line_count(), 4);
}

#[test]
fn trailing_newline_line_start_waits_for_more_bytes() {
    let mut m: Vec<u8> = b"one\n".to_vec();
    let mut idx = LineIndex::new();
    idx.notice_new_bytes(&m);
    assert_eq!(idx.line_count(), 1);
    m.extend_from_slice(b"two");
    idx.notice_new_bytes(&m);
    assert_eq!(idx.line_count(), 2);
    assert_eq!(idx.line_range(1, &m), 4..7);
}

#[test]
fn growing_input_indexes_like_whole_input() {
    let whole = b"alpha\nbeta\n\ngamma\ndelta".to_vec();
    let mut once = LineIndex::new();
    once.extend_to_end(&whole);
    let mut grown = LineIndex::new();
    for cut in [3usize, 6, 11, 12, 15, whole.len()] {
        grown.notice_new_bytes(&whole[..cut]);
    }
    assert_eq!(once.line_count(), grown.line_count());
    for i in 0..once.line_count() {
        assert_eq!(once.line_range(i, &whole), grown.line_range(i, &whole));
    }
}

#[test]
fn clear_record_start_rescans_as_lines() {
    let mut m: Vec<u8> = Vec::new();
    m.extend_from_slice(b"[1] a\n  b\n[2] c\n");
    let mut idx = LineIndex::new();
    idx.set_record_start(re(r"^\["));
    idx.extend_to_end(&m);
    assert_eq!(idx.record_count(), 2);
    idx.clear_record_start();
    assert!(!idx.records_mode());
    assert_eq!(idx.line_count(), 0);
    idx.extend_to_end(&m);
    assert_eq!(idx.record_count(), 3);
    assert_eq!(idx.line_count(), 3);
}

#[test]
fn record_bytes_stripped_drops_escapes() {
    let m = b"[1] \x1b[1mhead\x1b[0m\n  more\n[2] x\n".to_vec();
    let mut idx = LineIndex::new();
    idx.set_record_start(re(r"^\["));
    idx.extend_to_end(&m);
    assert_eq!(idx.record_bytes_stripped(0, &m).as_ref(), b"[1] head\n  more");
    assert_eq!(idx.line_to_record(1), 0);
    assert_eq!(idx.line_to_record(2), 1);
    assert_eq!(idx.line_to_record(9), 0);
}

#[test]
fn head_cap_counts_records_of_visible_lines() {
    let m = b"[1] a\n  b\n[2] c\n[3] d\n".to_vec();
    let mut idx = LineIndex::new();
    idx.set_record_start(re(r"^\["));
    idx.set_head_cap(3);
    idx.extend_to_end(&m);
    assert_eq!(idx.line_count(), 3);
    assert_eq!(idx.record_count(), 2);
}

#[test]
fn byte_regex_reports_bad_patterns() {
    assert!(ByteRegex::new("(").is_err());
    let r = ByteRegex::new("a+b").unwrap();
    assert_eq!(r.as_str(), "a+b");
    assert!(r.is_match(b"xxaab"));
    assert!(!r.is_match(b"ba"));
}

// ---- grep ----

#[test]
fn empty_predicate_is_empty() {
    let g = GrepPredicate::compile(&[]).unwrap();
    assert!(g.is_empty());
}

#[test]
fn single_pattern_matches() {
    let g = GrepPredicate::compile(&["error".to_string()]).unwrap();
    assert!(g.matches(b"something failed: error 42"));
    assert!(!g.matches(b"all good"));
}

#[test]
fn multiple_patterns_are_anded() {
    let g = GrepPredicate::compile(
        &["error".to_string(), r"^\[\d{4}".to_string()],
    ).unwrap();
    assert!(g.matches(b"[2026-05-13] error occurred"));
    assert!(!g.matches(b"[2026-05-13] all good"));
    assert!(!g.matches(b"error occurred (no timestamp)"));
}

#[test]
fn invalid_regex_is_reported_with_arg() {
    let err = match GrepPredicate::compile(&["[unclosed".to_string()]) {
        Err(e) => e,
        Ok(_) => panic!("expected an error"),
    };
    assert!(err.contains("--grep `[unclosed`"), "{err}");
}

#[test]
fn non_utf8_line_never_matches() {
    let g = GrepPredicate::compile(&[".".to_string()]).unwrap();
    assert!(!g.matches(&[0xFF, b'a', b'b']));
}

#[test]
fn first_bad_pattern_is_the_one_reported() {
    let err = match GrepPredicate::compile(&["ok".to_string(), "(".to_string(), "[".to_string()]) {
        Err(e) => e,
        Ok(_) => panic!("expected an error"),
    };
    assert!(err.starts_with("--grep `(`: "), "{err}");
}

#[test]
fn empty_predicate_matches_every_utf8_line() {
    let g = GrepPredicate::compile(&[]).unwrap();
    assert!(g.matches(b"anything"));
    assert!(!g.matches(&[0xC3]));
}
