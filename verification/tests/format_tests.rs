use std::collections::HashMap;
use tess::config_path::ConfigSource;
use tess::format::{
    expand_argv, expand_group_tokens, expand_layout_argv, format_source_label, is_reserved_flag,
    builtin_formats, DisplayRenderer, DisplayTemplate, Group, Layout, LogFormat, StringHashMap,
};
use tess::charset::{parse_label, TextEncoding};

fn fields() -> Vec<String> {
    vec!["ts".into(), "level".into(), "msg".into()]
}

fn group(name: &str) -> Group {
    Group { name: name.into(), ..Group::default() }
}

fn argv(parts: &[&str]) -> Vec<String> {
    parts.iter().map(|s| s.to_string()).collect()
}

fn groups_of(entries: Vec<(&str, Group)>) -> StringHashMap<Group> {
    let mut m = StringHashMap::new();
    for (k, g) in entries {
        m.insert(k.to_string(), g);
    }
    m
}

#[test]
fn display_template_compiles_basic() {
    let t = DisplayTemplate::compile("[<ts>] <level> <msg>", &fields()).unwrap();
    assert_eq!(t.source(), "[<ts>] <level> <msg>");
}

#[test]
fn display_template_renders_substitutions() {
    let t = DisplayTemplate::compile("<level>: <msg>", &fields()).unwrap();
    let mut map = HashMap::new();
    map.insert("level".to_string(), "ERROR".to_string());
    map.insert("msg".to_string(), "boom".to_string());
    let out = t.render(|n| map.get(n).cloned());
    assert_eq!(out, "ERROR: boom");
}

#[test]
fn display_template_missing_field_renders_empty() {
    let t = DisplayTemplate::compile("<level>:<msg>", &fields()).unwrap();
    let mut map = HashMap::new();
    map.insert("level".to_string(), "ERROR".to_string());
    let out = t.render(|n| map.get(n).cloned());
    assert_eq!(out, "ERROR:");
}

#[test]
fn display_template_escape_sequences() {
    let t = DisplayTemplate::compile(r"\<not a field> <level>", &fields()).unwrap();
    let mut map = HashMap::new();
    map.insert("level".to_string(), "X".to_string());
    let out = t.render(|n| map.get(n).cloned());
    assert_eq!(out, "<not a field> X");
}

#[test]
fn display_template_escape_backslash() {
    let t = DisplayTemplate::compile(r"a\\b <level>", &fields()).unwrap();
    let mut map = HashMap::new();
    map.insert("level".to_string(), "X".to_string());
    let out = t.render(|n| map.get(n).cloned());
    assert_eq!(out, r"a\b X");
}

#[test]
fn display_template_escape_e_emits_esc() {
    let t = DisplayTemplate::compile(r"\e[31m<level>\e[0m", &fields()).unwrap();
    let mut map = HashMap::new();
    map.insert("level".to_string(), "X".to_string());
    let out = t.render(|n| map.get(n).cloned());
    assert_eq!(out, "\x1b[31mX\x1b[0m");
}

#[test]
fn display_template_escape_x1b_emits_esc() {
    let t = DisplayTemplate::compile(r"\x1b[1m<level>", &fields()).unwrap();
    let out = t.render(|_| Some("Y".to_string()));
    assert_eq!(out, "\x1b[1mY");
}

#[test]
fn display_template_escape_octal_emits_esc() {
    let t = DisplayTemplate::compile(r"\033[1m<level>", &fields()).unwrap();
    let out = t.render(|_| Some("Z".to_string()));
    assert_eq!(out, "\x1b[1mZ");
}

#[test]
fn display_template_escape_n_t_r() {
    let t = DisplayTemplate::compile(r"\n\t\r<level>", &fields()).unwrap();
    let out = t.render(|_| Some("Q".to_string()));
    assert_eq!(out, "\n\t\rQ");
}

#[test]
fn display_template_escape_unknown_preserves_backslash() {
    let t = DisplayTemplate::compile(r"\q<level>", &fields()).unwrap();
    let out = t.render(|_| Some("Q".to_string()));
    assert_eq!(out, r"\qQ");
}

#[test]
fn display_template_escape_x_incomplete_errors() {
    let err = DisplayTemplate::compile(r"\x1", &fields()).unwrap_err();
    assert!(err.contains("incomplete"), "{err}");
}

#[test]
fn display_template_escape_invalid_hex_errors() {
    let err = DisplayTemplate::compile(r"\xZZ", &fields()).unwrap_err();
    assert!(err.contains("invalid"), "{err}");
}

#[test]
fn display_template_rejects_empty() {
    let err = DisplayTemplate::compile("", &fields()).unwrap_err();
    assert!(err.contains("empty"), "{err}");
}

#[test]
fn display_template_rejects_unknown_field() {
    let err = DisplayTemplate::compile("<bogus>", &fields()).unwrap_err();
    assert!(err.contains("unknown field"), "{err}");
}

#[test]
fn display_template_rejects_unterminated() {
    let err = DisplayTemplate::compile("<level", &fields()).unwrap_err();
    assert!(err.contains("unterminated"), "{err}");
}

#[test]
fn display_template_rejects_empty_ref() {
    let err = DisplayTemplate::compile("<>", &fields()).unwrap_err();
    assert!(err.contains("empty field reference"), "{err}");
}

#[test]
fn display_template_error_texts_are_exact() {
    assert_eq!(DisplayTemplate::compile("<bogus>", &fields()).unwrap_err(),
               "unknown field `bogus` (available: ts, level, msg)");
    assert_eq!(DisplayTemplate::compile("<lev", &fields()).unwrap_err(),
               "unterminated `<` (expected `<lev>`)");
    assert_eq!(DisplayTemplate::compile(r"\xZZ", &fields()).unwrap_err(), r"invalid `\xZZ` escape");
    assert_eq!(DisplayTemplate::compile(r"\098", &fields()).unwrap_err(), r"invalid `\098` escape");
    assert_eq!(DisplayTemplate::compile(r"\09", &fields()).unwrap_err(), r"incomplete `\NNN` escape");
    assert_eq!(DisplayTemplate::compile("a\\", &fields()).unwrap_err(), r"template ends with a lone `\`");
}

#[test]
fn display_template_hex_escape_accepts_plus_sign() {
    let t = DisplayTemplate::compile(r"\x+A<level>", &fields()).unwrap();
    let out = t.render(|_| Some("v".to_string()));
    assert_eq!(out, "\nv");
}

#[test]
fn expand_argv_passes_through_when_no_group_matches() {
    let groups: StringHashMap<Group> = StringHashMap::new();
    let out = expand_argv(argv(&["tess", "-f", "log.txt"]), &groups);
    assert_eq!(out, argv(&["tess", "-f", "log.txt"]));
    let groups = groups_of(vec![("errorlog", group("errorlog"))]);
    let out = expand_argv(argv(&["tess", "--errorlog", "-o", "out.txt", "lvl=ERROR"]), &groups);
    assert_eq!(out, argv(&["tess", "-o", "out.txt", "--filter", "lvl=ERROR"]));
}

#[test]
fn expand_argv_inserts_group_flags_and_file() {
    let groups = groups_of(vec![(
        "errorlog",
        Group {
            name: "errorlog".into(),
            format: Some("apache-combined".into()),
            file: Some("/var/log/access.log".into()),
            follow: true,
            tail: Some(1000),
            filter: vec!["status~^5".into()],
            ..Group::default()
        },
    )]);
    let out = expand_argv(argv(&["tess", "--errorlog"]), &groups);
    assert_eq!(
        out,
        argv(&["tess", "--format", "apache-combined", "--follow", "--tail", "1000", "--filter", "status~^5", "/var/log/access.log"])
    );
}

#[test]
fn expand_argv_converts_positionals_to_filters_after_group() {
    let groups = groups_of(vec![(
        "errorlog",
        Group { name: "errorlog".into(), format: Some("apache-combined".into()), file: Some("/log".into()), ..Group::default() },
    )]);
    let out = expand_argv(argv(&["tess", "--errorlog", "msg~test", "url~/api/"]), &groups);
    assert_eq!(
        out,
        argv(&["tess", "--format", "apache-combined", "/log", "--filter", "msg~test", "--filter", "url~/api/"])
    );
}

#[test]
fn expand_argv_leaves_flags_alone_after_group() {
    let groups = groups_of(vec![("errorlog", group("errorlog"))]);
    let out = expand_argv(argv(&["tess", "--errorlog", "--tail", "50", "msg=hi"]), &groups);
    assert_eq!(out, argv(&["tess", "--tail", "50", "--filter", "msg=hi"]));
}

#[test]
fn expand_argv_user_flag_after_group_can_override_tail() {
    let groups = groups_of(vec![("errorlog", Group { name: "errorlog".into(), tail: Some(1000), ..Group::default() })]);
    let out = expand_argv(argv(&["tess", "--errorlog", "--tail", "50"]), &groups);
    assert!(out.windows(2).any(|w| w == ["--tail", "1000"]));
    assert!(out.windows(2).any(|w| w == ["--tail", "50"]));
    let pos_1000 = out.iter().position(|x| x == "1000").unwrap();
    let pos_50 = out.iter().position(|x| x == "50").unwrap();
    assert!(pos_1000 < pos_50, "user's value must come after group's");
}

#[test]
fn expand_argv_treats_grep_value_as_flag_arg_not_filter() {
    let groups = groups_of(vec![("errorlog", group("errorlog"))]);
    let out = expand_argv(argv(&["tess", "--errorlog", "--grep", "timeout", "msg=hi"]), &groups);
    assert_eq!(out, argv(&["tess", "--grep", "timeout", "--filter", "msg=hi"]));
}

#[test]
fn expand_argv_unknown_double_dash_passes_through() {
    let groups: StringHashMap<Group> = StringHashMap::new();
    let out = expand_argv(argv(&["tess", "--unknown"]), &groups);
    assert_eq!(out, argv(&["tess", "--unknown"]));
}

#[test]
fn expand_argv_passes_display_template_through_after_group() {
    let groups = groups_of(vec![("errorlog", group("errorlog"))]);
    let out = expand_argv(argv(&["tess", "--errorlog", "--display", "<lvl>: <msg>", "lvl=ERROR"]), &groups);
    assert_eq!(out, argv(&["tess", "--display", "<lvl>: <msg>", "--filter", "lvl=ERROR"]));
}

#[test]
fn expand_argv_passes_short_value_flag_through_after_group() {
    let groups = groups_of(vec![("errorlog", group("errorlog"))]);
    let out = expand_argv(argv(&["tess", "--errorlog", "-o", "out.txt", "lvl=ERROR"]), &groups);
    assert_eq!(out, argv(&["tess", "-o", "out.txt", "--filter", "lvl=ERROR"]));
}

#[test]
fn expand_argv_group_token_with_equals_is_not_a_group() {
    let groups = groups_of(vec![("errorlog", group("errorlog"))]);
    let out = expand_argv(argv(&["tess", "--errorlog=1", "x"]), &groups);
    assert_eq!(out, argv(&["tess", "--errorlog=1", "x"]));
}

#[test]
fn expand_group_emits_display_when_set() {
    let g = Group {
        name: "errs".into(),
        format: Some("simple".into()),
        display: Some("<lvl>!! <msg>".into()),
        filter: vec!["lvl=ERROR".into()],
        ..Group::default()
    };
    let out = expand_argv(argv(&["tess", "--errs"]), &groups_of(vec![("errs", g)]));
    assert_eq!(out, argv(&["tess", "--format", "simple", "--display", "<lvl>!! <msg>", "--filter", "lvl=ERROR"]));
}

#[test]
fn expand_argv_cli_display_overrides_group_display() {
    let g = Group { name: "errs".into(), format: Some("simple".into()), display: Some("group-tmpl".into()), ..Group::default() };
    let out = expand_argv(argv(&["tess", "--errs", "--display", "cli-tmpl"]), &groups_of(vec![("errs", g)]));
    let pos_group = out.iter().position(|x| x == "group-tmpl").unwrap();
    let pos_cli = out.iter().position(|x| x == "cli-tmpl").unwrap();
    assert!(pos_group < pos_cli, "CLI display must come after group's so it wins");
}

#[test]
fn expand_argv_emits_group_grep_flags() {
    let groups = groups_of(vec![(
        "errorlog",
        Group { name: "errorlog".to_string(), grep: vec!["timeout".to_string(), "deadlock".to_string()], ..Default::default() },
    )]);
    let out = expand_argv(argv(&["tess", "--errorlog", "logs.txt"]), &groups);
    let joined = out.join(" ");
    assert!(joined.contains("--grep timeout"), "got: {joined}");
    assert!(joined.contains("--grep deadlock"), "got: {joined}");
}

#[test]
fn user_grep_after_group_accumulates() {
    let groups = groups_of(vec![(
        "errorlog",
        Group { name: "errorlog".to_string(), grep: vec!["timeout".to_string()], ..Default::default() },
    )]);
    let out = expand_argv(argv(&["tess", "--errorlog", "--grep", "extra", "logs.txt"]), &groups);
    let joined = out.join(" ");
    assert!(joined.contains("--grep timeout"));
    assert!(joined.contains("--grep extra"));
}

#[test]
fn source_label_renders_correctly() {
    assert_eq!(format_source_label(ConfigSource::Builtin, None), "[built-in]");
    assert_eq!(format_source_label(ConfigSource::Global, None), "[global]");
    assert_eq!(format_source_label(ConfigSource::Local, None), "[local]");
    assert_eq!(format_source_label(ConfigSource::Local, Some(ConfigSource::Global)), "[local, overrides global]");
    assert_eq!(format_source_label(ConfigSource::Local, Some(ConfigSource::Builtin)), "[local, overrides built-in]");
    assert_eq!(format_source_label(ConfigSource::Global, Some(ConfigSource::Builtin)), "[global, overrides built-in]");
}

#[test]
fn expand_layout_argv_expands_token_to_sections() {
    let mut layouts = StringHashMap::new();
    layouts.insert("dash".to_string(), Layout {
        name: "dash".into(),
        horizontal: true,
        panes: vec![
            Group { name: "p0".into(), file: Some("a.log".into()), format: Some("myapp".into()), filter: vec!["x=1".into()], ..Default::default() },
            Group { name: "p1".into(), file: Some("b.log".into()), grep: vec!["5..".into()], ..Default::default() },
        ],
    });
    let argv: Vec<String> = ["tess", "--mouse", "--dash"].iter().map(|s| s.to_string()).collect();
    let (out, horiz) = expand_layout_argv(argv, &layouts);
    assert_eq!(horiz, Some(true));
    let expected: Vec<String> = ["tess", "--mouse", "--format", "myapp", "--filter", "x=1", "a.log", "--", "--grep", "5..", "b.log"]
        .iter().map(|s| s.to_string()).collect();
    assert_eq!(out, expected);
}

#[test]
fn expand_layout_argv_noop_without_layout_token() {
    let layouts: StringHashMap<Layout> = StringHashMap::new();
    let argv: Vec<String> = ["tess", "a.log"].iter().map(|s| s.to_string()).collect();
    let (out, horiz) = expand_layout_argv(argv.clone(), &layouts);
    assert_eq!(out, argv);
    assert_eq!(horiz, None);
}

#[test]
fn expand_group_emits_or_conditions_in_marker_form() {
    let groups = groups_of(vec![(
        "intrusion",
        Group {
            name: "intrusion".into(),
            format: Some("app".into()),
            or_grep: vec!["panic".into()],
            or_named: vec![("svc".into(), vec!["status=403".into()], vec!["ssh".into()])],
            ..Group::default()
        },
    )]);
    let out = expand_argv(argv(&["tess", "--intrusion"]), &groups);
    assert_eq!(
        out,
        argv(&["tess", "--format", "app", "--or-grep", "panic", "--or-group", "svc", "--or-filter", "status=403", "--or-grep", "ssh"])
    );
}

#[test]
fn expand_group_tokens_appends_head_and_numbers() {
    let g = Group { name: "g".into(), head: Some(5), dim: true, line_numbers: true, chop: true, tab_width: Some(4), ..Group::default() };
    let mut out = vec!["x".to_string()];
    expand_group_tokens(&g, &mut out);
    assert_eq!(out, argv(&["x", "--head", "5", "--dim", "-N", "-S", "--tab-width", "4"]));
}

#[test]
fn reserved_flag_names() {
    assert!(is_reserved_flag("format"));
    assert!(is_reserved_flag("split"));
    assert!(!is_reserved_flag("errorlog"));
}

fn builtin(i: usize) -> (&'static str, &'static str) {
    builtin_formats()[i]
}

/// What each field of `fmt` captures on `line`, by name.
fn captures(fmt: &LogFormat, line: &str) -> std::collections::HashMap<String, String> {
    let vals = fmt.regex.captures(line, &fmt.field_names).expect("should match");
    fmt.field_names
        .iter()
        .cloned()
        .zip(vals)
        .filter_map(|(k, v)| v.map(|v| (k, v)))
        .collect()
}

#[test]
fn builtins_all_compile() {
    for (name, pat) in builtin_formats() {
        LogFormat::compile(name, pat).unwrap_or_else(|e| panic!("built-in {name} should compile: {e}"));
    }
}

#[test]
fn apache_common_extracts_fields() {
    let fmt = LogFormat::compile("apache-common", builtin(0).1).unwrap();
    let line = r#"127.0.0.1 - alice [10/Oct/2023:13:55:36 +0000] "GET /index.html HTTP/1.1" 200 2326"#;
    let caps = captures(&fmt, line);
    assert_eq!(&caps["ip"], "127.0.0.1");
    assert_eq!(&caps["user"], "alice");
    assert_eq!(&caps["method"], "GET");
    assert_eq!(&caps["url"], "/index.html");
    assert_eq!(&caps["status"], "200");
    assert_eq!(&caps["size"], "2326");
}

#[test]
fn apache_combined_extracts_referer_and_agent() {
    let fmt = LogFormat::compile("apache-combined", builtin(1).1).unwrap();
    let line = r#"10.1.2.3 - bob [10/Oct/2023:13:55:36 +0000] "POST /api/login HTTP/1.1" 401 512 "https://example.com/" "Mozilla/5.0""#;
    let caps = captures(&fmt, line);
    assert_eq!(&caps["status"], "401");
    assert_eq!(&caps["url"], "/api/login");
    assert_eq!(&caps["referer"], "https://example.com/");
    assert_eq!(&caps["agent"], "Mozilla/5.0");
}

#[test]
fn field_names_listed_in_order() {
    let fmt = LogFormat::compile("apache-common", builtin(0).1).unwrap();
    assert_eq!(fmt.field_names, vec!["ip", "user", "time", "method", "url", "protocol", "status", "size"]);
}

#[test]
fn compile_rejects_regex_without_named_groups() {
    let err = LogFormat::compile("bare", r"^\d+$").err().unwrap();
    assert!(err.contains("at least one named capture"), "{err}");
    assert_eq!(err, "format `bare`: regex must declare at least one named capture group");
}

#[test]
fn compile_rejects_invalid_regex() {
    let err = LogFormat::compile("bad", r"(?P<x>[").err().unwrap();
    assert!(err.contains("bad"), "{err}");
    assert!(err.starts_with("format `bad`: "), "{err}");
}

#[test]
fn log_format_compile_full_with_record_start() {
    let fmt = LogFormat::compile_full("test", r"^(?P<msg>.+)$", None, Some(r"^\[")).expect("compile");
    assert!(fmt.record_start.is_some());
    assert!(fmt.record_start.as_ref().unwrap().is_match("[2026-05-15"));
    assert!(!fmt.record_start.as_ref().unwrap().is_match("  continuation"));
}

#[test]
fn log_format_compile_full_bad_record_start_errors() {
    let err = LogFormat::compile_full("test", r"^(?P<msg>.+)$", None, Some(r"[")).err().expect("should fail");
    assert!(err.contains("record_start"), "error mentions record_start: {err}");
}

#[test]
fn log_format_display_must_use_known_fields() {
    let err = LogFormat::compile_with_display("d", r"^(?P<msg>.+)$", Some("<nope>")).err().unwrap();
    assert!(err.starts_with("format `d`: display: "), "{err}");
    let ok = LogFormat::compile_with_display("d", r"^(?P<msg>.+)$", Some("[<msg>]")).ok().unwrap();
    assert_eq!(ok.display.as_ref().unwrap().source(), "[<msg>]");
}

#[test]
fn display_renderer_decoded_latin1() {
    let fmt = LogFormat::compile_with_display("simple3", r"^(?P<msg>.+)$", Some("<msg>")).ok().unwrap();
    let renderer = DisplayRenderer::new(fmt.display.unwrap(), fmt.regex);
    let l1 = parse_label("iso-8859-1").unwrap();
    // "café" in Latin-1 bytes
    let latin1_line: &[u8] = b"caf\xE9";
    assert_eq!(renderer.render_line(latin1_line, l1).as_deref(), Some("café"));
    // As UTF-8 the lone 0xE9 decodes to U+FFFD: still a match, not "café".
    let utf8_result = renderer.render_line(latin1_line, TextEncoding::utf8());
    assert!(utf8_result.is_some());
    assert_ne!(utf8_result.as_deref(), Some("café"));
}

#[test]
fn display_renderer_needs_a_parse() {
    let fmt = LogFormat::compile("simple", r"^(?P<level>\w+) (?P<msg>.+)$").ok().unwrap();
    let template = DisplayTemplate::compile("<level>: <msg>", &fmt.field_names).ok().unwrap();
    let renderer = DisplayRenderer::new(template, fmt.regex);
    assert_eq!(renderer.render_line(b"WARN disk low", TextEncoding::utf8()).as_deref(), Some("WARN: disk low"));
    assert_eq!(renderer.render_line(b"singleword", TextEncoding::utf8()), None);
}
