use tess::app::find_pattern_line;
use tess::config_path::{global_config_dir, user_config_dir};
use tess::format::reserved_group_names;
use tess::input::{Command, KeyCode, KeyEvent, MOD_NONE};
use tess::keys::{BindingTarget, KeyMap};
use tess::line_index::LineIndex;
use tess::manpage::insert_groups_section;
use tess::pattern::ByteRegex;

fn bindings(pairs: &[(&str, &str)]) -> Vec<(String, String)> {
    pairs.iter().map(|(k, v)| (k.to_string(), v.to_string())).collect()
}

#[test]
fn global_config_dir_honors_env_value() {
    assert_eq!(global_config_dir(Some("/tmp/tess-test-global"), true), Some("/tmp/tess-test-global".to_string()));
    assert_eq!(global_config_dir(None, true), Some("/etc/tess".to_string()));
    assert_eq!(global_config_dir(None, false), None);
}

#[test]
fn user_config_dir_appends_config_tess() {
    assert_eq!(user_config_dir(Some("/home/u")), Some("/home/u/.config/tess".to_string()));
    assert_eq!(user_config_dir(Some("/home/u/")), Some("/home/u/.config/tess".to_string()));
    assert_eq!(user_config_dir(None), None);
}

#[test]
fn groups_section_goes_before_version() {
    let page = ".TH tess 1\n.SH NAME\ntess\n.SH VERSION\nv1\n".to_string();
    let out = insert_groups_section(page);
    let g = out.find(".SH GROUPS").unwrap();
    let v = out.find(".SH VERSION").unwrap();
    assert!(g < v);
    assert!(out.starts_with(".TH tess 1\n.SH NAME\ntess\n.SH GROUPS\n"));
    assert!(out.ends_with(".SH VERSION\nv1\n"));
    assert!(out.contains("\\fBchop\\-long\\-lines\\fR"));
    assert!(out.contains("Reserved names: \\fBformat\\fR, \\fBfilter\\fR, "));
}

#[test]
fn groups_section_is_appended_without_version() {
    let out = insert_groups_section("X\n".to_string());
    assert!(out.starts_with("X\n.SH GROUPS\nA CLI group (a \\fB\\-\\-<name>\\fR shortcut"));
    assert!(out.ends_with("prints an error and exits.\n"));
}

#[test]
fn reserved_names_match_the_refused_flags() {
    let names = reserved_group_names();
    assert_eq!(names.len(), 32);
    assert!(names.contains(&"split"));
    assert!(names.contains(&"LINE-NUMBERS"));
}

#[test]
fn local_key_layer_wins_per_binding() {
    let global = bindings(&[("j", "scroll-down"), ("k", "scroll-up")]);
    let local = bindings(&[("j", "quit")]);
    let m = KeyMap::from_layers(&global, &local, "keys.toml: ").unwrap();
    assert!(matches!(m.lookup(&KeyEvent::new(KeyCode::Char('j'), MOD_NONE)), Some(BindingTarget::Command(Command::Quit))));
    assert!(matches!(m.lookup(&KeyEvent::new(KeyCode::Char('k'), MOD_NONE)), Some(BindingTarget::Command(Command::ScrollLines(-1)))));
}

#[test]
fn overridden_bad_global_binding_is_not_an_error() {
    let global = bindings(&[("j", "not-a-command")]);
    let local = bindings(&[("j", "quit")]);
    assert!(KeyMap::from_layers(&global, &local, "").is_ok());
    assert!(KeyMap::from_layers(&global, &[], "").is_err());
}

#[test]
fn pattern_line_is_found_from_a_start_line() {
    let src = b"fn a() {}\n\x1b[1mfn main\x1b[0m() {}\nfn main2() {}\n".to_vec();
    let mut idx = LineIndex::new();
    let re = ByteRegex::new("^fn main").unwrap();
    assert_eq!(find_pattern_line(&src, &mut idx, &re, 0), Some(1));
    assert_eq!(find_pattern_line(&src, &mut idx, &re, 2), Some(2));
    assert_eq!(find_pattern_line(&src, &mut idx, &re, 3), None);
    let missing = ByteRegex::new("^nothing").unwrap();
    assert_eq!(find_pattern_line(&src, &mut idx, &missing, 0), None);
}

#[test]
fn global_config_dir_honors_env_var() {
    assert_eq!(
        global_config_dir(Some("/tmp/tess-test-global"), std::path::Path::new("/etc/tess").is_dir()),
        Some("/tmp/tess-test-global".to_string())
    );
}

#[test]
fn global_config_dir_with_no_env_var_returns_etc_or_none() {
    let result = global_config_dir(None, std::path::Path::new("/etc/tess").is_dir());
    if let Some(p) = &result {
        assert_eq!(p, "/etc/tess");
    }
}

#[test]
fn layered_keys_local_overrides_global_per_binding() {
    let global = bindings(&[("j", "scroll-down"), ("k", "scroll-up")]);
    let local = bindings(&[("j", "page-down")]);
    let km = KeyMap::from_layers(&global, &local, "keys.toml: ").unwrap();
    match km.lookup(&KeyEvent::new(KeyCode::Char('j'), MOD_NONE)) {
        Some(BindingTarget::Command(cmd)) => {
            let dbg = format!("{cmd:?}");
            assert!(dbg.to_lowercase().contains("page"), "got: {dbg}");
        }
        other => panic!("expected Command(PageDown), got {other:?}"),
    }
    match km.lookup(&KeyEvent::new(KeyCode::Char('k'), MOD_NONE)) {
        Some(BindingTarget::Command(cmd)) => {
            assert!(matches!(cmd, Command::ScrollLines(n) if *n < 0), "got: {cmd:?}");
        }
        other => panic!("expected Command(ScrollLines(-1)), got {other:?}"),
    }
}
