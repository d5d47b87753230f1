use tess::ansi::{Color, Style};
use tess::diff::{DiffClass, DiffPair};
use tess::diff_view::{diff_scroll, class_style, compose_body, divider_cell, gutter_sign, pair_height, sign_cell, tint_side_rows};
use tess::render::Cell;

fn row(s: &str) -> Vec<Cell> {
    s.chars()
        .map(|ch| Cell::Char { ch, width: 1, style: Style::default(), hyperlink: None })
        .collect()
}

fn text(cells: &[Cell]) -> String {
    cells
        .iter()
        .map(|c| match c {
            Cell::Char { ch, .. } => *ch,
            Cell::Continuation => '#',
            Cell::Empty => '.',
        })
        .collect()
}

#[test]
fn pair_height_is_max_of_two_sides() {
    assert_eq!(pair_height(2, 1), 2);
    assert_eq!(pair_height(0, 3), 3);
    assert_eq!(pair_height(0, 0), 1);
}

#[test]
fn compose_has_divider_and_fills_body_rows() {
    let pairs = vec![(
        DiffPair { left: Some(0), right: Some(0), class: DiffClass::Changed },
        vec![row("aaaa"), row("aa")],
        vec![row("bb")],
    )];
    let body = compose_body(pairs, (0, 0), 4, 4, 3);
    assert_eq!(body.len(), 3);
    for r in &body {
        assert!(matches!(r.get(4), Some(Cell::Char { ch: '\u{2502}', .. })));
        assert_eq!(r.len(), 9);
    }
    assert_eq!(text(&body[0]), "~aaa\u{2502}~b..");
    assert_eq!(text(&body[1]), "aa..\u{2502}....");
    assert_eq!(text(&body[2]), "....\u{2502}....");
}

#[test]
fn added_pair_left_is_filler() {
    let pairs = vec![(
        DiffPair { left: None, right: Some(0), class: DiffClass::Added },
        vec![],
        vec![row("new line")],
    )];
    let body = compose_body(pairs, (0, 0), 10, 10, 1);
    let left_half = &body[0][0..10];
    assert!(left_half.iter().all(|c| matches!(c, Cell::Empty) || matches!(c, Cell::Char { ch: ' ', .. })));
    assert_eq!(text(&body[0][11..]), "+ew line..");
}

#[test]
fn scroll_position_skips_pairs_and_rows() {
    let eq = DiffPair { left: Some(0), right: Some(0), class: DiffClass::Equal };
    let pairs = vec![
        (eq, vec![row("x")], vec![row("x")]),
        (DiffPair { left: Some(1), right: Some(1), class: DiffClass::Equal }, vec![row("p1"), row("p2")], vec![row("q")]),
        (DiffPair { left: Some(2), right: Some(2), class: DiffClass::Equal }, vec![row("z")], vec![row("z")]),
    ];
    let body = compose_body(pairs, (1, 1), 2, 2, 2);
    assert_eq!(text(&body[0]), "p2\u{2502}..");
    assert_eq!(text(&body[1]), "z.\u{2502}z.");
}

#[test]
fn signs_and_styles_by_class() {
    assert_eq!(gutter_sign(DiffClass::Equal), ' ');
    assert_eq!(gutter_sign(DiffClass::Removed), '-');
    assert_eq!(class_style(DiffClass::Added).fg, Some(Color::Ansi(2)));
    assert_eq!(class_style(DiffClass::Equal), Style::default());
    match sign_cell('~', DiffClass::Changed) {
        Cell::Char { ch, style, .. } => {
            assert_eq!(ch, '~');
            assert_eq!(style.fg, Some(Color::Ansi(3)));
        }
        other => panic!("unexpected {other:?}"),
    }
    match divider_cell() {
        Cell::Char { ch, style, .. } => {
            assert_eq!(ch, '\u{2502}');
            assert!(style.dim);
        }
        other => panic!("unexpected {other:?}"),
    }
}

#[test]
fn tint_keeps_own_colors_and_adds_an_empty_row() {
    let mut r = row("ab");
    if let Cell::Char { style, .. } = &mut r[1] {
        style.fg = Some(Color::Ansi(4));
    }
    let out = tint_side_rows(vec![r], DiffClass::Removed);
    match (&out[0][0], &out[0][1]) {
        (Cell::Char { style: s0, .. }, Cell::Char { style: s1, .. }) => {
            assert_eq!(s0.fg, Some(Color::Ansi(1)));
            assert_eq!(s1.fg, Some(Color::Ansi(4)));
        }
        _ => panic!("cells changed kind"),
    }
    let empty = tint_side_rows(Vec::new(), DiffClass::Equal);
    assert_eq!(empty.len(), 1);
    assert!(empty[0].is_empty());
}

#[test]
fn scroll_moves_by_rows_across_pairs() {
    let h = [2usize, 3, 1];
    assert_eq!(diff_scroll(&h, (0, 1), 3), (1, 2));
    assert_eq!(diff_scroll(&h, (2, 0), -1), (1, 2));
    assert_eq!(diff_scroll(&h, (1, 2), -2), (1, 0));
}

#[test]
fn scroll_clamps_at_both_ends() {
    let h = [2usize, 3, 1];
    assert_eq!(diff_scroll(&h, (1, 0), 10), (2, 0));
    assert_eq!(diff_scroll(&h, (1, 1), -10), (0, 0));
    assert_eq!(diff_scroll(&h, (0, 0), isize::MIN), (0, 0));
    assert_eq!(diff_scroll(&h, (0, 0), isize::MAX), (2, 0));
}

#[test]
fn scroll_without_pairs_or_delta_stays() {
    assert_eq!(diff_scroll(&[], (0, 0), 5), (0, 0));
    assert_eq!(diff_scroll(&[2, 3], (1, 1), 0), (1, 1));
}

#[test]
fn scroll_from_a_stale_sub_row() {
    // After a resize the sub-row can lie past the end of its pair.
    let h = [2usize, 3];
    assert_eq!(diff_scroll(&h, (0, 5), 1), (1, 1));
    assert_eq!(diff_scroll(&h, (0, 5), -1), (0, 4));
}

#[test]
fn scroll_down_then_up_returns() {
    let h = [2usize, 3, 1, 4];
    for (p, d) in [((0usize, 1usize), 3isize), ((1, 0), 5), ((2, 0), 1), ((0, 0), 9)] {
        let down = diff_scroll(&h, p, d);
        assert_eq!(diff_scroll(&h, down, -d), p);
    }
}
