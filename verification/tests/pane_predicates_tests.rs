use tess::charset::TextEncoding;
use tess::error::Error;
use tess::format::{builtin_formats, LogFormat};
use tess::image_render::AsciiStyle;
use tess::layout::{
    resolve_pane_options, resolve_pane_predicates, ImageProbe, PaneSettings, ResolvedPredicates, TabSetting,
};
use tess::viewport::CaseMode;

fn builtin_list() -> Vec<LogFormat> {
    builtin_formats()
        .into_iter()
        .map(|(name, pattern)| LogFormat::compile(name, pattern).unwrap())
        .collect()
}

fn runtime_message(r: Result<ResolvedPredicates, Error>) -> String {
    match r {
        Err(Error::Runtime(m)) => m,
        Err(_) => panic!("expected a runtime error"),
        Ok(_) => panic!("expected an error"),
    }
}

#[test]
fn resolved_predicates_empty_is_all_none() {
    let rp = ResolvedPredicates::empty();
    assert!(rp.grep.is_none());
    assert!(rp.filter.is_none());
    assert!(rp.display.is_none());
    assert!(rp.record_start.is_none());
    assert!(rp.format_label.is_none());
}

#[test]
fn resolve_pane_predicates_grep_and_filter() {
    let formats = builtin_list();
    let case = CaseMode::Sensitive;
    let r = resolve_pane_predicates(&["ERROR".to_string()], &[], &formats, None, None, case).unwrap();
    assert!(r.grep.is_some() && r.filter.is_none());
    let r2 = resolve_pane_predicates(&[], &["status=404".to_string()], &formats, Some("apache-common"), None, case).unwrap();
    assert!(r2.filter.is_some());
    assert_eq!(r2.format_label.as_deref(), Some("apache-common"));
}

#[test]
fn resolve_pane_predicates_unknown_format() {
    let formats = builtin_list();
    let m = runtime_message(resolve_pane_predicates(&[], &[], &formats, Some("nope"), None, CaseMode::Sensitive));
    assert_eq!(m, "unknown format `nope` (run --list-formats to see available)");
}

#[test]
fn resolve_pane_predicates_bad_grep_is_reported_first() {
    let formats = builtin_list();
    let m = runtime_message(resolve_pane_predicates(
        &["ok".to_string(), "(".to_string()], &[], &formats, Some("nope"), None, CaseMode::Sensitive,
    ));
    assert!(m.starts_with("--grep `(`: "), "{m}");
}

#[test]
fn resolve_pane_predicates_filter_errors() {
    let formats = builtin_list();
    let m = runtime_message(resolve_pane_predicates(
        &[], &["status".to_string()], &formats, Some("apache-common"), None, CaseMode::Sensitive,
    ));
    assert!(m.contains("missing operator"), "{m}");
    let m = runtime_message(resolve_pane_predicates(
        &[], &["nosuch=1".to_string()], &formats, Some("apache-common"), None, CaseMode::Sensitive,
    ));
    assert!(m.contains("nosuch"), "{m}");
}

#[test]
fn resolve_pane_predicates_display_template() {
    let formats = builtin_list();
    let r = resolve_pane_predicates(&[], &[], &formats, Some("apache-common"), Some("<status> <url>"), CaseMode::Sensitive)
        .unwrap();
    let d = r.display.unwrap();
    let line = b"127.0.0.1 - - [10/Oct/2000:13:55:36 -0700] \"GET /a.gif HTTP/1.0\" 404 2326";
    assert_eq!(d.render_line(line, TextEncoding::utf8()).as_deref(), Some("404 /a.gif"));
    let m = runtime_message(resolve_pane_predicates(
        &[], &[], &formats, Some("apache-common"), Some("<bogus>"), CaseMode::Sensitive,
    ));
    assert!(m.starts_with("--right-display: "), "{m}");
}

#[test]
fn resolve_pane_predicates_without_format_ignores_filter() {
    let formats = builtin_list();
    let r = resolve_pane_predicates(&[], &["status=404".to_string()], &formats, None, Some("<x>"), CaseMode::Sensitive)
        .unwrap();
    assert!(r.grep.is_none() && r.filter.is_none() && r.display.is_none());
    assert!(r.record_start.is_none() && r.format_label.is_none());
}

fn settings() -> PaneSettings {
    PaneSettings {
        tail: None,
        head: None,
        tabs: None,
        header: None,
        hex: false,
        no_image: false,
        blocks: false,
        no_animate: false,
    }
}

#[test]
fn pane_options_single_tab_stop_is_a_width() {
    let mut s = settings();
    s.tabs = Some("4".to_string());
    let o = resolve_pane_options(&s).unwrap();
    assert_eq!(o.tabs, Some(TabSetting::Width(4)));
    s.tabs = Some("300".to_string());
    assert_eq!(resolve_pane_options(&s).unwrap().tabs, Some(TabSetting::Width(255)));
    s.tabs = Some("4,8,16".to_string());
    assert_eq!(resolve_pane_options(&s).unwrap().tabs, Some(TabSetting::Stops(vec![4, 8, 16])));
}

#[test]
fn pane_options_header_and_caps() {
    let mut s = settings();
    s.tail = Some(10);
    s.head = Some(3);
    s.header = Some("2,".to_string());
    let o = resolve_pane_options(&s).unwrap();
    assert_eq!(o.tail, Some(10));
    assert_eq!(o.head_cap, Some(3));
    assert_eq!(o.header, Some((2, 0)));
    assert!(o.tabs.is_none());
}

#[test]
fn pane_options_errors_come_tabs_first() {
    let mut s = settings();
    s.tabs = Some("8,4".to_string());
    s.header = Some("x".to_string());
    assert_eq!(resolve_pane_options(&s).unwrap_err(), "--tabs: stops must be strictly ascending");
    s.tabs = None;
    assert_eq!(resolve_pane_options(&s).unwrap_err(), "--header: not a number `x`");
}

#[test]
fn pane_options_image_probe() {
    let mut s = settings();
    assert_eq!(resolve_pane_options(&s).unwrap().image, ImageProbe::Probe { style: AsciiStyle::Ramp, animate: true });
    s.blocks = true;
    s.no_animate = true;
    assert_eq!(resolve_pane_options(&s).unwrap().image, ImageProbe::Probe { style: AsciiStyle::Blocks, animate: false });
    s.hex = true;
    assert_eq!(resolve_pane_options(&s).unwrap().image, ImageProbe::Off);
    s.hex = false;
    s.no_image = true;
    assert_eq!(resolve_pane_options(&s).unwrap().image, ImageProbe::Off);
}

fn display_flags() -> tess::layout::DisplayFlags {
    tess::layout::DisplayFlags {
        line_numbers: true,
        chop: false,
        tab_width: 4,
        follow: true,
        live: false,
        hex: true,
        hex_group: 8,
        squeeze_blanks: true,
        status_column: false,
        rscroll: ">>".to_string(),
        word_wrap: false,
        window: Some(12),
        search_skip_screen: true,
        hilite_only_match: false,
        tilde: true,
    }
}

#[test]
fn pane_display_config_takes_the_shared_flags() {
    let c = tess::layout::pane_display_config(&display_flags());
    assert!(c.toggle_line_numbers && !c.toggle_chop && c.follow && !c.live);
    assert_eq!(c.tab_width, 4);
    assert!(c.hex_mode);
    assert_eq!(c.hex_group, Some(4));
    assert_eq!(c.rscroll_char, Some('>'));
    assert_eq!(c.page_size, Some(12));
    assert!(c.squeeze_blanks && c.search_skip_screen && c.tilde_eof);
    assert_eq!((c.file_index, c.file_count), (0, 1));
}

#[test]
fn pane_display_config_ignores_unknown_hex_group_and_empty_rscroll() {
    let mut f = display_flags();
    f.hex_group = 3;
    f.rscroll = String::new();
    let c = tess::layout::pane_display_config(&f);
    assert_eq!(c.hex_group, None);
    assert_eq!(c.rscroll_char, None);
    f.hex = false;
    f.hex_group = 8;
    assert_eq!(tess::layout::pane_display_config(&f).hex_group, None);
}

fn section_args(file: Option<&str>) -> tess::layout::SectionArgs {
    tess::layout::SectionArgs {
        file: file.map(|f| f.to_string()),
        grep: vec![],
        filter: vec![],
        format: None,
        display: None,
        has_or_flags: false,
        ignore_case: false,
        ignore_case_always: false,
    }
}

fn plan_error(sections: &[tess::layout::SectionArgs]) -> String {
    match tess::layout::plan_sections(sections, &builtin_list()) {
        Err(Error::Runtime(m)) => m,
        Err(_) => panic!("expected a runtime error"),
        Ok(_) => panic!("expected an error"),
    }
}

#[test]
fn plan_sections_independent_grep_and_case() {
    let mut a = section_args(Some("a.txt"));
    a.grep = vec!["alpha".to_string()];
    a.ignore_case = true;
    let mut b = section_args(Some("b.txt"));
    b.ignore_case_always = true;
    let plans = tess::layout::plan_sections(&[a, b], &builtin_list()).unwrap();
    assert_eq!(plans.len(), 2);
    assert_eq!(plans[0].file, "a.txt");
    assert!(plans[0].predicates.grep.is_some());
    assert!(plans[1].predicates.grep.is_none());
    assert_eq!(plans[0].case_mode, CaseMode::Smart);
    assert_eq!(plans[1].case_mode, CaseMode::Insensitive);
}

#[test]
fn plan_sections_rejects_bad_sections_in_order() {
    assert_eq!(plan_error(&[section_args(None)]), "pane 2: no file given");
    let mut f = section_args(Some("a.txt"));
    f.filter = vec!["status=404".to_string()];
    assert_eq!(plan_error(&[section_args(Some("x")), f]), "pane 3: --filter requires --format");
    let mut o = section_args(Some("a.txt"));
    o.has_or_flags = true;
    assert_eq!(
        plan_error(&[o]),
        "pane 2: --or-filter/--or-grep/--or-group are only allowed before the first `--`"
    );
    let mut u = section_args(Some("a.txt"));
    u.format = Some("nope".to_string());
    assert_eq!(plan_error(&[u, section_args(None)]), "unknown format `nope` (run --list-formats to see available)");
}

#[test]
fn plan_sections_resolves_format_predicates() {
    let mut a = section_args(Some("a.log"));
    a.format = Some("apache-common".to_string());
    a.filter = vec!["status=404".to_string()];
    let plans = tess::layout::plan_sections(&[a], &builtin_list()).unwrap();
    assert!(plans[0].predicates.filter.is_some());
    assert_eq!(plans[0].predicates.format_label.as_deref(), Some("apache-common"));
}
