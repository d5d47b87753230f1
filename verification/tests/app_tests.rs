use tess::app::{
    capture_lock_offsets, expand_tilde, longest_common_prefix, other_slot, parse_colon_command,
    phys_of_slot, rotate_focus, rotate_index, set_focus, ColonCommand, ColonParseError,
    toggle_zoom, unzoom, TagStack, TagStepResult, ZoomAction,
};
use tess::render::AnsiMode;
use tess::tags::{TagAddress, TagEntry};
use tess::viewport::CaseMode;

fn parse(buf: &str) -> Result<ColonCommand, ColonParseError> {
    parse_colon_command(buf, None)
}

#[test]
fn parse_colon_n() {
    assert_eq!(parse("n").unwrap(), ColonCommand::Next);
    assert_eq!(parse("next").unwrap(), ColonCommand::Next);
}

#[test]
fn pane_phys_slot_mapping_roundtrips() {
    for focused_pos in 0..4 {
        for slot in 0..3 {
            let phys = phys_of_slot(slot, focused_pos);
            assert_ne!(phys, focused_pos, "a slot never maps to the focused column");
            assert_eq!(other_slot(phys, focused_pos), slot, "round-trip slot↔phys");
        }
    }
}

#[test]
fn rotate_index_wraps_both_directions() {
    assert_eq!(rotate_index(0, 3, true), 1);
    assert_eq!(rotate_index(2, 3, true), 0);
    assert_eq!(rotate_index(0, 3, false), 2);
    assert_eq!(rotate_index(1, 3, false), 0);
    assert_eq!(rotate_index(0, 2, true), 1);
    assert_eq!(rotate_index(1, 2, true), 0);
    assert_eq!(rotate_index(0, 2, false), 1);
    assert_eq!(rotate_index(1, 2, false), 0);
}

#[test]
fn set_focus_targets_specific_pane() {
    let (f, others, pos) = set_focus(10usize, vec![20, 30], 0, 2);
    assert_eq!(f, 30);
    assert_eq!(others, vec![10, 20]);
    assert_eq!(pos, 2);
    let (f, others, pos) = set_focus(10usize, vec![20, 30], 1, 9);
    assert_eq!(f, 30);
    assert_eq!(others, vec![20, 10]);
    assert_eq!(pos, 2);
}

#[test]
fn rotate_focus_cycles_through_panes() {
    let (f, others, pos) = rotate_focus(1usize, vec![2, 3], 0, true);
    assert_eq!((f, pos), (2, 1));
    assert_eq!(others, vec![1, 3]);
    let (f, _, pos) = rotate_focus(1usize, vec![2, 3], 0, false);
    assert_eq!((f, pos), (3, 2));
}

#[test]
fn capture_lock_offsets_relative_to_leftmost() {
    assert_eq!(capture_lock_offsets(50, &[10, 30], 1), vec![0, 40, 20]);
    assert_eq!(capture_lock_offsets(5, &[10], 0), vec![0, 5]);
}

#[test]
fn parse_colon_zoom() {
    assert_eq!(parse("zoom").unwrap(), ColonCommand::Zoom);
}

#[test]
fn parse_colon_p() {
    assert_eq!(parse("p").unwrap(), ColonCommand::Prev);
    assert_eq!(parse("prev").unwrap(), ColonCommand::Prev);
}

#[test]
fn parse_colon_e_with_path() {
    match parse("e /tmp/foo.log").unwrap() {
        ColonCommand::Edit(p) => assert_eq!(p, "/tmp/foo.log"),
        other => panic!("expected Edit, got {other:?}"),
    }
}

#[test]
fn parse_colon_e_with_tilde() {
    match parse_colon_command("e ~/foo.log", Some("/home/user")).unwrap() {
        ColonCommand::Edit(p) => assert_eq!(p, "/home/user/foo.log"),
        other => panic!("expected Edit, got {other:?}"),
    }
}

#[test]
fn parse_colon_e_tilde_without_home_stays() {
    match parse("e ~/foo.log").unwrap() {
        ColonCommand::Edit(p) => assert_eq!(p, "~/foo.log"),
        other => panic!("expected Edit, got {other:?}"),
    }
}

#[test]
fn expand_tilde_joins_like_a_path() {
    assert_eq!(expand_tilde(&['~', '/', 'a'], Some("/h/")), "/h/a");
    assert_eq!(expand_tilde(&['~', '/', '/', 'a'], Some("/h")), "/a");
    assert_eq!(expand_tilde(&['x'], Some("/h")), "x");
}

#[test]
fn parse_colon_vsplit_and_only() {
    assert_eq!(parse("vsplit").unwrap(), ColonCommand::VSplit(None));
    assert_eq!(parse("split a.log").unwrap(), ColonCommand::VSplit(Some("a.log".into())));
    assert_eq!(parse("only").unwrap(), ColonCommand::Only);
    assert_eq!(parse("close").unwrap(), ColonCommand::Only);
}

#[test]
fn parse_colon_layout() {
    assert_eq!(parse("layout dash").unwrap(), ColonCommand::Layout("dash".into()));
    assert!(parse("layout").is_err());
}

#[test]
fn parse_colon_scrolllock() {
    assert_eq!(parse("scrolllock").unwrap(), ColonCommand::ScrollLock);
}

#[test]
fn parse_colon_hsplit_and_rotate() {
    assert_eq!(parse("hsplit").unwrap(), ColonCommand::HSplit(None));
    assert_eq!(parse("hsplit a.log").unwrap(), ColonCommand::HSplit(Some("a.log".into())));
    assert_eq!(parse("rotate").unwrap(), ColonCommand::Rotate);
}

#[test]
fn parse_colon_search_skip_screen_and_tilde() {
    assert_eq!(parse("search-skip-screen").unwrap(), ColonCommand::SearchSkipScreen);
    assert_eq!(parse("tilde").unwrap(), ColonCommand::Tilde);
}

#[test]
fn parse_colon_e_missing_path_errors() {
    assert_eq!(parse("e").unwrap_err(), ColonParseError::MissingPath);
    assert_eq!(parse("e ").unwrap_err(), ColonParseError::MissingPath);
}

#[test]
fn parse_colon_f_q_d_x_t() {
    assert_eq!(parse("f").unwrap(), ColonCommand::ShowFile);
    assert_eq!(parse("q").unwrap(), ColonCommand::Quit);
    assert_eq!(parse("d").unwrap(), ColonCommand::Delete);
    assert_eq!(parse("x").unwrap(), ColonCommand::First);
    assert_eq!(parse("t").unwrap(), ColonCommand::Last);
}

#[test]
fn parse_unknown_command_errors() {
    let err = parse("bogus").unwrap_err();
    match err {
        ColonParseError::UnknownCommand(name) => assert_eq!(name, "bogus"),
        other => panic!("expected UnknownCommand, got {other:?}"),
    }
}

#[test]
fn parse_handles_whitespace() {
    assert_eq!(parse("n  ").unwrap(), ColonCommand::Next);
    assert_eq!(parse("  n").unwrap(), ColonCommand::Next);
}

#[test]
fn parse_colon_tag_with_name() {
    assert_eq!(parse("tag foo").unwrap(), ColonCommand::Tag("foo".into()));
}

#[test]
fn parse_colon_tag_strips_trailing_whitespace() {
    assert_eq!(parse("tag foo  ").unwrap(), ColonCommand::Tag("foo".into()));
}

#[test]
fn parse_colon_tag_without_name_errors() {
    assert_eq!(parse("tag").unwrap_err(), ColonParseError::TagRequiresName);
    assert_eq!(parse("tag  ").unwrap_err(), ColonParseError::TagRequiresName);
}

#[test]
fn parse_colon_tnext_and_tprev() {
    assert_eq!(parse("tnext").unwrap(), ColonCommand::TagNext);
    assert_eq!(parse("tprev").unwrap(), ColonCommand::TagPrev);
}

#[test]
fn parse_colon_tselect_without_arg_uses_active() {
    assert_eq!(parse("tselect").unwrap(), ColonCommand::TagSelect(None));
}

#[test]
fn parse_colon_tselect_with_name() {
    assert_eq!(parse("tselect foo").unwrap(), ColonCommand::TagSelect(Some("foo".into())));
}

#[test]
fn parse_colon_b_opens_picker() {
    assert_eq!(parse("b").unwrap(), ColonCommand::OpenPicker);
    assert_eq!(parse("buffers").unwrap(), ColonCommand::OpenPicker);
}

#[test]
fn parse_colon_help_opens_help() {
    assert_eq!(parse("h").unwrap(), ColonCommand::OpenHelp);
    assert_eq!(parse("help").unwrap(), ColonCommand::OpenHelp);
}

#[test]
fn parse_colon_hex_with_valid_widths() {
    for n in [2usize, 4, 8, 16, 32] {
        assert_eq!(parse(&format!("hex {n}")).unwrap(), ColonCommand::HexGroup(n));
    }
}

#[test]
fn parse_colon_hex_without_value_errors() {
    assert_eq!(parse("hex").unwrap_err(), ColonParseError::HexGroupRequiresValue);
}

#[test]
fn parse_colon_hex_with_invalid_value_errors() {
    match parse("hex 3").unwrap_err() {
        ColonParseError::HexGroupInvalid(v) => assert_eq!(v, "3"),
        other => panic!("expected HexGroupInvalid, got {other:?}"),
    }
    match parse("hex banana").unwrap_err() {
        ColonParseError::HexGroupInvalid(v) => assert_eq!(v, "banana"),
        other => panic!("expected HexGroupInvalid, got {other:?}"),
    }
}

#[test]
fn parse_colon_color_without_arg_cycles() {
    assert_eq!(parse("color").unwrap(), ColonCommand::Color(None));
}

#[test]
fn parse_colon_color_with_named_mode() {
    assert_eq!(parse("color strict").unwrap(), ColonCommand::Color(Some(AnsiMode::Strict)));
    assert_eq!(parse("color interpret").unwrap(), ColonCommand::Color(Some(AnsiMode::Interpret)));
    assert_eq!(parse("color raw").unwrap(), ColonCommand::Color(Some(AnsiMode::Raw)));
}

#[test]
fn parse_colon_color_with_unknown_mode_errors() {
    match parse("color rainbow").unwrap_err() {
        ColonParseError::ColorInvalid(v) => assert_eq!(v, "rainbow"),
        other => panic!("expected ColorInvalid, got {other:?}"),
    }
}

#[test]
fn parse_colon_case_without_arg_cycles() {
    assert_eq!(parse("case").unwrap(), ColonCommand::Case(None));
}

#[test]
fn parse_colon_case_with_named_mode() {
    assert_eq!(parse("case smart").unwrap(), ColonCommand::Case(Some(CaseMode::Smart)));
    assert_eq!(parse("case sensitive").unwrap(), ColonCommand::Case(Some(CaseMode::Sensitive)));
    assert_eq!(parse("case insensitive").unwrap(), ColonCommand::Case(Some(CaseMode::Insensitive)));
}

#[test]
fn parse_colon_case_unknown_errors() {
    match parse("case rainbow").unwrap_err() {
        ColonParseError::CaseInvalid(v) => assert_eq!(v, "rainbow"),
        other => panic!("expected CaseInvalid, got {other:?}"),
    }
}

#[test]
fn parse_colon_hlsearch_on_off() {
    assert_eq!(parse("hlsearch").unwrap(), ColonCommand::HlSearch(true));
    assert_eq!(parse("nohlsearch").unwrap(), ColonCommand::HlSearch(false));
}

#[test]
fn parse_colon_incsearch_toggle() {
    assert_eq!(parse("incsearch").unwrap(), ColonCommand::IncSearch);
}

#[test]
fn parse_colon_encoding() {
    assert_eq!(parse("encoding iso-8859-1").unwrap(), ColonCommand::SetEncoding(Some("iso-8859-1".to_string())));
    assert_eq!(parse("encoding").unwrap(), ColonCommand::SetEncoding(None));
}

#[test]
fn parse_colon_header() {
    assert_eq!(parse("header 2").unwrap(), ColonCommand::Header(2, 0));
    assert_eq!(parse("header 2 3").unwrap(), ColonCommand::Header(2, 3));
    assert!(matches!(parse("header x").unwrap_err(), ColonParseError::HeaderInvalid(_)));
    assert!(matches!(parse("header 1 2 3").unwrap_err(), ColonParseError::HeaderInvalid(_)));
}

#[test]
fn colon_error_messages() {
    assert_eq!(ColonParseError::UnknownCommand("zz".into()).message(), "unknown command: :zz");
    assert_eq!(ColonParseError::MissingPath.message(), ":e requires a path");
    assert_eq!(ColonParseError::HexGroupInvalid("3".into()).message(), ":hex N must be one of 2, 4, 8, 16, 32 (got 3)");
    assert_eq!(ColonParseError::MouseInvalid("x".into()).message(), ":mouse expects on or off (got x)");
}

#[test]
fn lcp_empty_slice() {
    assert_eq!(longest_common_prefix(&[]), "");
}

#[test]
fn lcp_single_item_returns_self() {
    assert_eq!(longest_common_prefix(&["foo".into()]), "foo");
}

#[test]
fn lcp_finds_shared_prefix() {
    let v: Vec<String> = vec!["foobar".into(), "foobaz".into(), "fooqux".into()];
    assert_eq!(longest_common_prefix(&v), "foo");
}

#[test]
fn lcp_no_shared_prefix_returns_empty() {
    let v: Vec<String> = vec!["abc".into(), "xyz".into()];
    assert_eq!(longest_common_prefix(&v), "");
}

#[test]
fn lcp_one_item_is_prefix_of_others() {
    let v: Vec<String> = vec!["foo".into(), "foobar".into(), "foobaz".into()];
    assert_eq!(longest_common_prefix(&v), "foo");
}

fn entry(file: &str, line: usize) -> TagEntry {
    TagEntry { file: file.to_string(), address: TagAddress::Line(line) }
}

#[test]
fn tag_stack_push_pop_lifo() {
    let mut s = TagStack::default();
    s.push(0, 10);
    s.push(1, 20);
    assert_eq!(s.pop(), Some((1, 20)));
    assert_eq!(s.pop(), Some((0, 10)));
    assert_eq!(s.pop(), None);
}

#[test]
fn tag_stack_pop_clears_active() {
    let mut s = TagStack::default();
    s.push(0, 10);
    s.set_active("foo".into(), vec![entry("/a", 1)]);
    assert!(s.active.is_some());
    let _ = s.pop();
    assert!(s.active.is_none());
}

#[test]
fn tag_stack_next_advances_then_clamps() {
    let mut s = TagStack::default();
    s.set_active("foo".into(), vec![entry("/a", 1), entry("/b", 2)]);
    assert_eq!(s.next(), TagStepResult::Moved(1));
    assert_eq!(s.next(), TagStepResult::AtBoundary);
}

#[test]
fn tag_stack_prev_clamps_at_zero() {
    let mut s = TagStack::default();
    s.set_active("foo".into(), vec![entry("/a", 1)]);
    assert_eq!(s.prev(), TagStepResult::AtBoundary);
}

#[test]
fn tag_stack_next_with_no_active_returns_no_active() {
    let mut s = TagStack::default();
    assert_eq!(s.next(), TagStepResult::NoActive);
    assert_eq!(s.prev(), TagStepResult::NoActive);
}

#[test]
fn tag_stack_set_active_replaces_previous_list() {
    let mut s = TagStack::default();
    s.set_active("foo".into(), vec![entry("/a", 1)]);
    s.set_active("bar".into(), vec![entry("/x", 5), entry("/y", 6)]);
    let active = s.active.as_ref().unwrap();
    assert_eq!(active.name, "bar");
    assert_eq!(active.matches.len(), 2);
    assert_eq!(active.cursor, 0);
}

#[test]
fn tag_stack_next_then_prev_returns() {
    let mut s = TagStack::default();
    s.set_active("foo".into(), vec![entry("/a", 1), entry("/b", 2), entry("/c", 3)]);
    assert_eq!(s.next(), TagStepResult::Moved(1));
    assert_eq!(s.prev(), TagStepResult::Moved(0));
}

#[test]
fn parse_colon_diff_commands() {
    assert_eq!(parse("diff").unwrap(), ColonCommand::Diff { force: false });
    assert_eq!(parse("diff!").unwrap(), ColonCommand::Diff { force: true });
    assert_eq!(parse("nodiff").unwrap(), ColonCommand::NoDiff);
    assert_eq!(parse("diffws").unwrap(), ColonCommand::DiffToggleWs);
}

#[test]
fn parse_colon_predicate_commands() {
    assert_eq!(parse("grep ERROR").unwrap(), ColonCommand::Grep(Some("ERROR".into())));
    assert_eq!(parse("nogrep").unwrap(), ColonCommand::Grep(None));
    assert_eq!(parse("filter status=404").unwrap(), ColonCommand::Filter(Some("status=404".into())));
    assert_eq!(parse("nofilter").unwrap(), ColonCommand::Filter(None));
    assert_eq!(parse("format nginx-combined").unwrap(), ColonCommand::Format(Some("nginx-combined".into())));
    assert_eq!(parse("noformat").unwrap(), ColonCommand::Format(None));
    assert_eq!(parse("display <status>").unwrap(), ColonCommand::Display(Some("<status>".into())));
    assert_eq!(parse("nodisplay").unwrap(), ColonCommand::Display(None));
}

#[test]
fn parse_colon_mouse() {
    assert_eq!(parse("mouse").unwrap(), ColonCommand::Mouse(None));
    assert_eq!(parse("mouse on").unwrap(), ColonCommand::Mouse(Some(true)));
    assert_eq!(parse("mouse off").unwrap(), ColonCommand::Mouse(Some(false)));
    assert!(parse("mouse bogus").is_err());
}

#[test]
fn toggle_zoom_flips_only_with_a_split_and_not_in_diff() {
    // Single pane (no others): no-op.
    let (z, a) = toggle_zoom(false, false, false);
    assert!(!z, "single pane must not zoom");
    assert_eq!(a.message(), Some("zoom needs a split"));
    // Split present but diff active: no-op.
    let (z, a) = toggle_zoom(z, true, true);
    assert!(!z, "diff must not zoom");
    assert_eq!(a.message(), Some("zoom not available in diff"));
    // Split present, no diff: flips on, then off.
    let (z, a) = toggle_zoom(z, true, false);
    assert!(z, "split should zoom");
    assert_eq!(a, ZoomAction::Maximize);
    let (z, a) = toggle_zoom(z, true, false);
    assert!(!z, "second toggle unzooms");
    assert_eq!(a, ZoomAction::RestoreSplit);
}

#[test]
fn unzoom_clears_and_is_idempotent() {
    let (z, a) = unzoom(true);
    assert!(!z);
    assert_eq!(a, ZoomAction::RestoreSplit);
    // Already unzoomed: stays false, nothing to restore.
    let (z, a) = unzoom(z);
    assert!(!z);
    assert_eq!(a, ZoomAction::Keep);
    assert_eq!(a.message(), None);
}
