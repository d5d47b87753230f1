use tess::ansi::{Color, Style};
use tess::term::{fit_status_to_cols, hyperlink_diff, style_diff, StyleOp};

fn st() -> Style {
    Style::default()
}

#[test]
fn same_style_needs_no_commands() {
    let s = Style { fg: Some(Color::Ansi(1)), bold: true, ..st() };
    assert!(style_diff(&s, &s).is_empty());
}

#[test]
fn dropping_a_color_resets_then_restores_the_other() {
    let prev = Style { fg: Some(Color::Ansi(1)), bg: Some(Color::Ansi(4)), ..st() };
    let next = Style { fg: None, bg: Some(Color::Ansi(4)), ..st() };
    assert_eq!(style_diff(&prev, &next), vec![StyleOp::ResetColor, StyleOp::SetBackground(Color::Ansi(4))]);
}

#[test]
fn changed_colors_and_attributes_in_order() {
    let prev = st();
    let next = Style { fg: Some(Color::Rgb(1, 2, 3)), dim: true, italic: true, strike: true, ..st() };
    assert_eq!(
        style_diff(&prev, &next),
        vec![
            StyleOp::SetForeground(Color::Rgb(1, 2, 3)),
            StyleOp::Dim,
            StyleOp::Italic(true),
            StyleOp::Strike(true),
        ]
    );
}

#[test]
fn bold_wins_and_normal_intensity_clears_both() {
    let both = Style { bold: true, dim: true, ..st() };
    assert_eq!(style_diff(&st(), &both), vec![StyleOp::Bold]);
    assert_eq!(style_diff(&both, &st()), vec![StyleOp::NormalIntensity]);
    let under = Style { underline: true, reverse: true, ..st() };
    assert_eq!(style_diff(&under, &st()), vec![StyleOp::Underline(false), StyleOp::Reverse(false)]);
}

#[test]
fn hyperlink_switches() {
    assert!(hyperlink_diff(&None, &None).is_empty());
    let a = Some("http://a".to_string());
    let b = Some("http://b".to_string());
    assert!(hyperlink_diff(&a, &a.clone()).is_empty());
    assert_eq!(hyperlink_diff(&None, &a), b"\x1b]8;;http://a\x1b\\".to_vec());
    assert_eq!(hyperlink_diff(&a, &None), b"\x1b]8;;\x1b\\".to_vec());
    assert_eq!(hyperlink_diff(&a, &b), b"\x1b]8;;\x1b\\\x1b]8;;http://b\x1b\\".to_vec());
}

#[test]
fn status_is_cut_or_padded_to_the_width() {
    assert_eq!(fit_status_to_cols("abc", 5), "abc  ");
    assert_eq!(fit_status_to_cols("abcdef", 4), "abcd");
    assert_eq!(fit_status_to_cols("", 2), "  ");
    assert_eq!(fit_status_to_cols("a\u{4e2d}b", 2), "a ");
    assert_eq!(fit_status_to_cols("\u{4e2d}\u{4e2d}", 3), "\u{4e2d} ");
    assert_eq!(fit_status_to_cols("a\tb", 3), "a\tb ");
}

#[test]
fn fit_status_pads_by_display_width_not_bytes() {
    assert_eq!(fit_status_to_cols("ab", 5), "ab   ");
    // `×` is 2 bytes but 1 display column: padded to 4 columns.
    assert_eq!(fit_status_to_cols("\u{00d7}", 4), "\u{00d7}   ");
    assert_eq!(fit_status_to_cols("hello", 3), "hel");
    assert_eq!(fit_status_to_cols("", 3), "   ");
}
