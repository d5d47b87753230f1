use tess::colon::{colon_tag_step, ChangeKind, TagActionOf};
use tess::app::{parse_colon_command, ColonCommand};
use tess::colon::{colon_step, show_file_message, ColonAction, ViewSettings};
use tess::file_set::FileSet;
use tess::input::Command;
use tess::render::AnsiMode;
use tess::viewport::CaseMode;

fn settings() -> ViewSettings {
    ViewSettings {
        hex_mode: false,
        hex_group: 2,
        ansi_mode: AnsiMode::Interpret,
        header_rows: 0,
        header_cols: 0,
        hilite_search: true,
        incsearch: false,
        search_skip_screen: false,
        tilde_eof: false,
        case_mode: CaseMode::Sensitive,
    }
}

fn files(n: usize) -> FileSet {
    FileSet::new((0..n).map(|i| format!("f{i}")).collect())
}

fn run(fs: &mut FileSet, v: &mut ViewSettings, text: &str) -> ColonAction {
    let cmd: ColonCommand = parse_colon_command(text, None).unwrap();
    colon_step(fs, v, cmd)
}

#[test]
fn colon_next_prev_switch_or_report() {
    let mut fs = files(2);
    let mut v = settings();
    assert_eq!(run(&mut fs, &mut v, "n"), ColonAction::SwitchToCurrent);
    assert_eq!(fs.current_index(), 1);
    assert_eq!(run(&mut fs, &mut v, "n"), ColonAction::Message("[no next file]".to_string()));
    assert_eq!(fs.current_index(), 1);
    assert_eq!(run(&mut fs, &mut v, "p"), ColonAction::SwitchToCurrent);
    assert_eq!(run(&mut fs, &mut v, "p"), ColonAction::Message("[no previous file]".to_string()));
}

#[test]
fn colon_first_last_are_silent_when_already_there() {
    let mut fs = files(3);
    let mut v = settings();
    assert_eq!(run(&mut fs, &mut v, "x"), ColonAction::Nothing);
    assert_eq!(run(&mut fs, &mut v, "last"), ColonAction::SwitchToCurrent);
    assert_eq!(fs.current_index(), 2);
    assert_eq!(run(&mut fs, &mut v, "last"), ColonAction::Nothing);
}

#[test]
fn colon_delete_refuses_the_last_file() {
    let mut fs = files(1);
    let mut v = settings();
    assert_eq!(run(&mut fs, &mut v, "d"), ColonAction::Message("[cannot remove last file]".to_string()));
    assert_eq!(fs.len(), 1);
}

#[test]
fn colon_settings_toggle_and_report() {
    let mut fs = files(1);
    let mut v = settings();
    assert_eq!(run(&mut fs, &mut v, "hex 8"), ColonAction::Message("[:hex requires --hex mode]".to_string()));
    v.hex_mode = true;
    assert_eq!(run(&mut fs, &mut v, "hex 8"), ColonAction::Message("[hex group: 8 chars]".to_string()));
    assert_eq!(v.hex_group, 4);
    assert_eq!(run(&mut fs, &mut v, "color"), ColonAction::Message("[color: raw]".to_string()));
    assert_eq!(v.ansi_mode, AnsiMode::Raw);
    assert_eq!(run(&mut fs, &mut v, "case"), ColonAction::Message("[case: smart]".to_string()));
    assert_eq!(run(&mut fs, &mut v, "header 3 2"), ColonAction::Message("[header: 3 rows, 2 cols]".to_string()));
    assert_eq!((v.header_rows, v.header_cols), (3, 2));
    assert_eq!(run(&mut fs, &mut v, "nohlsearch"), ColonAction::Message("[hlsearch off]".to_string()));
    assert_eq!(run(&mut fs, &mut v, "tilde"), ColonAction::Message("[tilde on]".to_string()));
    assert_eq!(run(&mut fs, &mut v, "q"), ColonAction::Quit);
    assert_eq!(run(&mut fs, &mut v, "help"), ColonAction::Dispatch(Command::OpenHelp));
}

#[test]
fn colon_show_file_report() {
    assert_eq!(show_file_message("a.log", 0, 1, 9, 100), "a.log: line 10/100");
    assert_eq!(show_file_message("b.log", 1, 3, 0, 5), "b.log (file 2/3): line 1/5");
}

fn builtin_formats_compiled() -> Vec<tess::format::LogFormat> {
    tess::format::builtin_formats()
        .into_iter()
        .map(|(name, pattern)| tess::format::LogFormat::compile(name, pattern).unwrap())
        .collect()
}

fn outcome(cmd: ColonCommand, label: Option<&str>) -> (tess::colon::ChangeKind, String) {
    let formats = builtin_formats_compiled();
    let (c, m) = tess::colon::colon_predicates(&cmd, &formats, label, tess::viewport::CaseMode::Sensitive).unwrap();
    let k = match c {
        tess::colon::PredicateChange::Keep => tess::colon::ChangeKind::Keep,
        tess::colon::PredicateChange::ClearGrep => tess::colon::ChangeKind::ClearGrep,
        tess::colon::PredicateChange::SetGrep(_) => tess::colon::ChangeKind::SetGrep,
        tess::colon::PredicateChange::ClearDisplay => tess::colon::ChangeKind::ClearDisplay,
        tess::colon::PredicateChange::SetDisplay(_) => tess::colon::ChangeKind::SetDisplay,
        tess::colon::PredicateChange::ClearFormat => tess::colon::ChangeKind::ClearFormat,
        tess::colon::PredicateChange::SetFormat(_, _) => tess::colon::ChangeKind::SetFormat,
        tess::colon::PredicateChange::ClearFilter => tess::colon::ChangeKind::ClearFilter,
        tess::colon::PredicateChange::SetFilter(_) => tess::colon::ChangeKind::SetFilter,
    };
    (k, m)
}

#[test]
fn colon_grep_sets_and_clears() {
    assert_eq!(outcome(ColonCommand::Grep(Some("ERR".to_string())), None), (ChangeKind::SetGrep, "[grep: ERR]".to_string()));
    assert_eq!(outcome(ColonCommand::Grep(None), None), (ChangeKind::ClearGrep, "[grep cleared]".to_string()));
    let (k, m) = outcome(ColonCommand::Grep(Some("(".to_string())), None);
    assert_eq!(k, ChangeKind::Keep);
    assert!(m.starts_with("grep: --grep `(`: "), "{m}");
}

#[test]
fn colon_format_display_filter_need_a_format() {
    assert_eq!(
        outcome(ColonCommand::Display(Some("<status>".to_string())), None),
        (ChangeKind::Keep, "display needs a format (:format NAME)".to_string())
    );
    assert_eq!(
        outcome(ColonCommand::Filter(Some("status=404".to_string())), None),
        (ChangeKind::Keep, "filter needs a format (:format NAME)".to_string())
    );
    assert_eq!(
        outcome(ColonCommand::Format(Some("nope".to_string())), None),
        (ChangeKind::Keep, "unknown format: nope".to_string())
    );
    assert_eq!(
        outcome(ColonCommand::Format(Some("apache-common".to_string())), None),
        (ChangeKind::SetFormat, "[format: apache-common]".to_string())
    );
    assert_eq!(outcome(ColonCommand::Format(None), None), (ChangeKind::ClearFormat, "[format cleared]".to_string()));
}

#[test]
fn colon_filter_and_display_with_a_format() {
    let label = Some("apache-common");
    assert_eq!(
        outcome(ColonCommand::Filter(Some("status=404".to_string())), label),
        (ChangeKind::SetFilter, "[filter: status=404]".to_string())
    );
    let (k, m) = outcome(ColonCommand::Filter(Some("status".to_string())), label);
    assert_eq!(k, ChangeKind::Keep);
    assert!(m.starts_with("filter: ") && m.contains("missing operator"), "{m}");
    assert_eq!(
        outcome(ColonCommand::Display(Some("<status> <url>".to_string())), label),
        (ChangeKind::SetDisplay, "[display set]".to_string())
    );
    let (k, m) = outcome(ColonCommand::Display(Some("<nope>".to_string())), label);
    assert_eq!(k, ChangeKind::Keep);
    assert!(m.starts_with("display: "), "{m}");
    assert_eq!(outcome(ColonCommand::Filter(None), label), (ChangeKind::ClearFilter, "[filter cleared]".to_string()));
    assert_eq!(outcome(ColonCommand::Display(None), label), (ChangeKind::ClearDisplay, "[display cleared]".to_string()));
}

#[test]
fn colon_predicates_ignores_other_commands() {
    let formats = builtin_formats_compiled();
    assert!(tess::colon::colon_predicates(&ColonCommand::Next, &formats, None, tess::viewport::CaseMode::Sensitive).is_none());
}

fn tag_entry(file: &str, line: usize) -> tess::tags::TagEntry {
    tess::tags::TagEntry { file: file.to_string(), address: tess::tags::TagAddress::Line(line) }
}

#[test]
fn colon_tag_steps_through_matches() {
    let mut stack = tess::app::TagStack::default();
    assert_eq!(
        colon_tag_step(&mut stack, &ColonCommand::TagNext, None),
        Some(TagActionOf::Message("[no active tag]".to_string()))
    );
    assert_eq!(
        colon_tag_step(&mut stack, &ColonCommand::TagSelect(None), None),
        Some(TagActionOf::Message("[no active tag]".to_string()))
    );
    assert_eq!(
        colon_tag_step(&mut stack, &ColonCommand::TagSelect(Some("f".to_string())), None),
        Some(TagActionOf::Message("[no tags file loaded]".to_string()))
    );
    assert_eq!(
        colon_tag_step(&mut stack, &ColonCommand::TagSelect(Some("f".to_string())), Some(vec![])),
        Some(TagActionOf::Message("[no matches for `f`]".to_string()))
    );
    let found = vec![tag_entry("a.rs", 1), tag_entry("b.rs", 2)];
    assert_eq!(
        colon_tag_step(&mut stack, &ColonCommand::TagSelect(Some("f".to_string())), Some(found)),
        Some(TagActionOf::OpenTagPicker)
    );
    assert_eq!(stack.active.as_ref().unwrap().name, "f");
    assert_eq!(colon_tag_step(&mut stack, &ColonCommand::TagPrev, None), Some(TagActionOf::Message("[at first match]".to_string())));
    assert_eq!(colon_tag_step(&mut stack, &ColonCommand::TagNext, None), Some(TagActionOf::ShowMatch(1)));
    assert_eq!(colon_tag_step(&mut stack, &ColonCommand::TagNext, None), Some(TagActionOf::Message("[no more matches]".to_string())));
    assert_eq!(colon_tag_step(&mut stack, &ColonCommand::TagPrev, None), Some(TagActionOf::ShowMatch(0)));
    assert_eq!(colon_tag_step(&mut stack, &ColonCommand::TagSelect(None), None), Some(TagActionOf::OpenTagPicker));
    assert_eq!(colon_tag_step(&mut stack, &ColonCommand::Quit, None), None);
}

#[test]
fn yank_messages() {
    assert_eq!(
        tess::colon::yank_refusal(false, 10).as_deref(),
        Some("[clipboard not enabled (pass --clipboard)]")
    );
    assert_eq!(tess::colon::yank_refusal(true, 0).as_deref(), Some("[nothing to copy]"));
    assert_eq!(tess::colon::yank_refusal(true, 3), None);
    assert_eq!(tess::colon::yank_report(Ok(42)), "[copied 42 bytes]");
    assert_eq!(tess::colon::yank_report(Err("no clipboard tool".to_string())), "[no clipboard tool]");
}
