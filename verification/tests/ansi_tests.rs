use tess::ansi::{step, strip_sgr, Color, ParseState, ParseStep, Style};

#[test]
fn osc8_hyperlink_close() {
    let mut state = ParseState::Normal;
    let mut style = Style::default();
    let mut link = Some("https://example.com".to_string());
    for &b in b"\x1b]8;;\x07" {
        let _ = step(&mut state, &mut style, &mut link, b);
    }
    assert_eq!(link, None);
}

#[test]
fn strip_sgr_borrows_when_no_escapes() {
    let s = strip_sgr(b"plain");
    assert!(matches!(s, std::borrow::Cow::Borrowed(_)));
    assert_eq!(s.as_ref(), b"plain");
}

#[test]
fn strip_sgr_owns_and_removes_sgr() {
    let s = strip_sgr(b"\x1b[31merror\x1b[0m");
    assert_eq!(s.as_ref(), b"error");
}

#[test]
fn strip_sgr_preserves_utf8() {
    let s = strip_sgr("\x1b[31m日本\x1b[0m".as_bytes());
    assert_eq!(s.as_ref(), "日本".as_bytes());
}

#[test]
fn strip_sgr_handles_real_git_diff_line() {
    let input = b"\x1b[1mdiff --git a/foo b/foo\x1b[m\n\x1b[31m-old line\x1b[m\n\x1b[32m+new line\x1b[m\n";
    let stripped = strip_sgr(input);
    assert_eq!(stripped.as_ref(), b"diff --git a/foo b/foo\n-old line\n+new line\n");
}

#[test]
fn sgr_red_sets_foreground() {
    let mut state = ParseState::Normal;
    let mut style = Style::default();
    let mut link: Option<String> = None;
    for &b in b"\x1b[31m" {
        let _ = step(&mut state, &mut style, &mut link, b);
    }
    assert_eq!(style.fg, Some(Color::Ansi(1)));
}

#[test]
fn osc8_hyperlink_open_sets_link() {
    let mut state = ParseState::Normal;
    let mut style = Style::default();
    let mut link: Option<String> = None;
    for &b in b"\x1b]8;;https://example.com\x07" {
        let _ = step(&mut state, &mut style, &mut link, b);
    }
    assert_eq!(link.as_deref(), Some("https://example.com"));
}

#[test]
fn strip_sgr_twice_is_same_as_once() {
    let once = strip_sgr(b"\x1b[1mbold\x1b[0m text").into_owned();
    let twice = strip_sgr(&once).into_owned();
    assert_eq!(once, twice);
}

fn run(bytes: &[u8]) -> (Vec<u8>, Style, Option<String>) {
    let mut state = ParseState::Normal;
    let mut style = Style::default();
    let mut link = None;
    let mut printable = Vec::new();
    for &b in bytes {
        if let ParseStep::Printable(byte) = step(&mut state, &mut style, &mut link, b) {
            printable.push(byte);
        }
    }
    (printable, style, link)
}

#[test]
fn plain_bytes_pass_through() {
    let (out, style, _) = run(b"hello");
    assert_eq!(out, b"hello");
    assert_eq!(style, Style::default());
}

#[test]
fn sgr_red_then_text() {
    let (out, style, _) = run(b"\x1b[31mhi");
    assert_eq!(out, b"hi");
    assert_eq!(style.fg, Some(Color::Ansi(1)));
}

#[test]
fn sgr_reset_clears_style() {
    let (out, style, _) = run(b"\x1b[1;31mbold\x1b[0mreset");
    assert_eq!(out, b"boldreset");
    assert_eq!(style, Style::default());
}

#[test]
fn sgr_named_colors_0_to_15() {
    let (_, style, _) = run(b"\x1b[37m");
    assert_eq!(style.fg, Some(Color::Ansi(7)));
    let (_, style2, _) = run(b"\x1b[90m");
    assert_eq!(style2.fg, Some(Color::Ansi(8)));
    let (_, style3, _) = run(b"\x1b[97m");
    assert_eq!(style3.fg, Some(Color::Ansi(15)));
}

#[test]
fn sgr_256_indexed_fg() {
    let (_, style, _) = run(b"\x1b[38;5;208m");
    assert_eq!(style.fg, Some(Color::Indexed(208)));
}

#[test]
fn sgr_truecolor_fg() {
    let (_, style, _) = run(b"\x1b[38;2;255;128;0m");
    assert_eq!(style.fg, Some(Color::Rgb(255, 128, 0)));
}

#[test]
fn sgr_256_indexed_bg() {
    let (_, style, _) = run(b"\x1b[48;5;15m");
    assert_eq!(style.bg, Some(Color::Indexed(15)));
}

#[test]
fn sgr_truecolor_bg() {
    let (_, style, _) = run(b"\x1b[48;2;10;20;30m");
    assert_eq!(style.bg, Some(Color::Rgb(10, 20, 30)));
}

#[test]
fn sgr_attributes_all() {
    let (_, style, _) = run(b"\x1b[1;2;3;4;7;9m");
    assert!(style.bold);
    assert!(style.dim);
    assert!(style.italic);
    assert!(style.underline);
    assert!(style.reverse);
    assert!(style.strike);
}

#[test]
fn sgr_attribute_cancels() {
    let (_, style, _) = run(b"\x1b[1;2;3;4;7;9m\x1b[22;23;24;27;29m");
    assert!(!style.bold);
    assert!(!style.dim);
    assert!(!style.italic);
    assert!(!style.underline);
    assert!(!style.reverse);
    assert!(!style.strike);
}

#[test]
fn sgr_default_fg_bg_reset_colors_only() {
    let (_, style, _) = run(b"\x1b[1;31;42m\x1b[39;49m");
    assert!(style.bold);
    assert_eq!(style.fg, Some(Color::Default));
    assert_eq!(style.bg, Some(Color::Default));
}

#[test]
fn sgr_empty_treated_as_reset() {
    let (_, style, _) = run(b"\x1b[31m\x1b[m");
    assert_eq!(style, Style::default());
}

#[test]
fn unknown_sgr_code_ignored() {
    let (_, style, _) = run(b"\x1b[31;999;1m");
    assert_eq!(style.fg, Some(Color::Ansi(1)));
    assert!(style.bold);
}

#[test]
fn non_sgr_csi_skipped() {
    let (out, style, _) = run(b"\x1b[2Jcleared");
    assert_eq!(out, b"cleared");
    assert_eq!(style, Style::default());
}

#[test]
fn incomplete_csi_at_eof_recovers() {
    let (out, _, _) = run(b"\x1b[31");
    assert_eq!(out, b"");
    let mut state = ParseState::Normal;
    let mut style = Style::default();
    let mut link = None;
    for &b in b"\x1b[31" {
        let _ = step(&mut state, &mut style, &mut link, b);
    }
    for &b in b"m" {
        let _ = step(&mut state, &mut style, &mut link, b);
    }
    assert_eq!(style.fg, Some(Color::Ansi(1)));
}

#[test]
fn osc8_hyperlink_open_with_bel() {
    let (_, _, link) = run(b"\x1b]8;;https://example.com\x07");
    assert_eq!(link, Some("https://example.com".to_string()));
}

#[test]
fn osc8_hyperlink_open_with_st() {
    let (_, _, link) = run(b"\x1b]8;;https://example.com\x1b\\");
    assert_eq!(link, Some("https://example.com".to_string()));
}
