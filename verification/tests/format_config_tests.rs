use tess::config_path::ConfigSource;
use tess::format_config::{load_groups, load_layouts, promote_group, GroupEntry, LayoutEntry, OrSubGroup};

fn entry() -> GroupEntry {
    GroupEntry {
        format: None,
        file: None,
        follow: None,
        tail: None,
        head: None,
        dim: None,
        line_numbers: None,
        chop: None,
        tab_width: None,
        display: None,
        filter: Vec::new(),
        grep: Vec::new(),
        or_filter: Vec::new(),
        or_grep: Vec::new(),
        or: Vec::new(),
    }
}

fn file_entry(f: &str) -> GroupEntry {
    GroupEntry { file: Some(f.to_string()), ..entry() }
}

#[test]
fn load_groups_reads_user_config() {
    let errorlog = GroupEntry {
        format: Some("apache-combined".to_string()),
        file: Some("/var/log/access.log".to_string()),
        follow: Some(true),
        tail: Some(1000),
        filter: vec!["status~^5".to_string()],
        display: Some("<status> <url>".to_string()),
        ..entry()
    };
    let minimal = file_entry("/tmp/x.log");
    let groups = match load_groups(Vec::new(), vec![("errorlog".to_string(), errorlog), ("minimal".to_string(), minimal)]) {
        Ok(g) => g,
        Err(e) => panic!("{e}"),
    };
    let err = groups.get("errorlog").unwrap();
    assert_eq!(err.format.as_deref(), Some("apache-combined"));
    assert_eq!(err.file.as_deref(), Some("/var/log/access.log"));
    assert!(err.follow);
    assert_eq!(err.tail, Some(1000));
    assert_eq!(err.filter, vec!["status~^5".to_string()]);
    assert_eq!(err.display.as_deref(), Some("<status> <url>"));
    assert_eq!(err.source, ConfigSource::Local);
    let min = groups.get("minimal").unwrap();
    assert!(!min.follow);
    assert!(min.tail.is_none());
    assert_eq!(min.filter, Vec::<String>::new());
    assert!(min.display.is_none());
}

#[test]
fn load_groups_rejects_reserved_name() {
    let err = match load_groups(Vec::new(), vec![("follow".to_string(), file_entry("/x.log"))]) {
        Err(e) => e,
        Ok(_) => panic!("reserved name accepted"),
    };
    assert!(err.contains("collides with built-in --follow"), "{err}");
    assert_eq!(err, "group `follow`: name collides with built-in --follow flag");
}

#[test]
fn layered_loader_local_overrides_global() {
    let global = vec![
        ("shared".to_string(), GroupEntry { tail: Some(1), ..file_entry("/g.log") }),
        ("onlyglobal".to_string(), file_entry("/og.log")),
    ];
    let local = vec![("shared".to_string(), GroupEntry { tail: Some(2), ..file_entry("/l.log") })];
    let groups = match load_groups(global, local) {
        Ok(g) => g,
        Err(e) => panic!("{e}"),
    };
    let shared = groups.get("shared").unwrap();
    assert_eq!(shared.file.as_deref(), Some("/l.log"));
    assert_eq!(shared.tail, Some(2));
    assert_eq!(shared.source, ConfigSource::Local);
    assert_eq!(shared.overrides, Some(ConfigSource::Global));
    let og = groups.get("onlyglobal").unwrap();
    assert_eq!(og.source, ConfigSource::Global);
    assert_eq!(og.overrides, None);
    assert_eq!(groups.len(), 2);
}

#[test]
fn load_groups_reads_or_conditions() {
    let e = GroupEntry {
        or: vec![
            ("zeta".to_string(), OrSubGroup { filter: vec!["a=1".to_string()], grep: Vec::new() }),
            ("alpha".to_string(), OrSubGroup { filter: Vec::new(), grep: vec!["x".to_string()] }),
        ],
        or_filter: vec!["level=ERROR".to_string()],
        ..file_entry("/x")
    };
    let g = promote_group("g".to_string(), e);
    assert_eq!(g.name, "g");
    assert_eq!(g.or_filter, vec!["level=ERROR".to_string()]);
    let names: Vec<&str> = g.or_named.iter().map(|t| t.0.as_str()).collect();
    assert_eq!(names, vec!["alpha", "zeta"]);
    assert_eq!(g.or_named[0].2, vec!["x".to_string()]);
    assert_eq!(g.or_named[1].1, vec!["a=1".to_string()]);
}

#[test]
fn promote_group_defaults_switches_off() {
    let g = promote_group("p".to_string(), GroupEntry { dim: Some(true), chop: Some(false), ..entry() });
    assert!(g.dim);
    assert!(!g.chop);
    assert!(!g.line_numbers);
    assert!(!g.follow);
    assert_eq!(g.source, ConfigSource::Builtin);
    assert_eq!(g.overrides, None);
}

fn layout(orientation: Option<&str>, panes: Vec<GroupEntry>) -> LayoutEntry {
    LayoutEntry { orientation: orientation.map(|s| s.to_string()), pane: panes }
}

#[test]
fn load_layouts_parses_panes_and_orientation() {
    let p0 = GroupEntry { format: Some("myapp".to_string()), filter: vec!["x=1".to_string()], ..file_entry("a.log") };
    let p1 = GroupEntry { grep: vec!["5..".to_string()], ..file_entry("b.log") };
    let layouts = match load_layouts(Vec::new(), vec![("dash".to_string(), layout(Some("horizontal"), vec![p0, p1]))]) {
        Ok(l) => l,
        Err(e) => panic!("{e}"),
    };
    let dash = layouts.get("dash").unwrap();
    assert!(dash.horizontal);
    assert_eq!(dash.name, "dash");
    assert_eq!(dash.panes.len(), 2);
    assert_eq!(dash.panes[0].file.as_deref(), Some("a.log"));
    assert_eq!(dash.panes[0].format.as_deref(), Some("myapp"));
    assert_eq!(dash.panes[0].filter, vec!["x=1".to_string()]);
    assert_eq!(dash.panes[0].name, "dash.pane0");
    assert_eq!(dash.panes[1].file.as_deref(), Some("b.log"));
    assert_eq!(dash.panes[1].grep, vec!["5..".to_string()]);
    assert_eq!(dash.panes[1].name, "dash.pane1");
}

#[test]
fn load_layouts_defaults_orientation_vertical() {
    let layouts = match load_layouts(Vec::new(), vec![("dash".to_string(), layout(None, vec![file_entry("a.log")]))]) {
        Ok(l) => l,
        Err(e) => panic!("{e}"),
    };
    assert!(!layouts.get("dash").unwrap().horizontal);
    let v = match load_layouts(vec![("v".to_string(), layout(Some("vertical"), vec![file_entry("a")]))], Vec::new()) {
        Ok(l) => l,
        Err(e) => panic!("{e}"),
    };
    assert!(!v.get("v").unwrap().horizontal);
}

fn layout_err(name: &str, l: LayoutEntry) -> String {
    match load_layouts(Vec::new(), vec![(name.to_string(), l)]) {
        Err(e) => e,
        Ok(_) => panic!("layout accepted"),
    }
}

#[test]
fn load_layouts_rejects_pane_without_file() {
    let err = layout_err("dash", layout(None, vec![file_entry("a"), entry()]));
    assert_eq!(err, "layout `dash` pane 1: missing `file`");
}

#[test]
fn load_layouts_rejects_reserved_name() {
    let err = layout_err("split", layout(None, vec![file_entry("a")]));
    assert!(err.contains("collides with built-in --split"), "{err}");
}

#[test]
fn load_layouts_rejects_bad_orientation() {
    let err = layout_err("dash", layout(Some("diagonal"), vec![file_entry("a")]));
    assert_eq!(err, "layout `dash`: bad orientation `diagonal` (expected vertical or horizontal)");
}

#[test]
fn load_layouts_rejects_empty() {
    let err = layout_err("dash", layout(None, Vec::new()));
    assert_eq!(err, "layout `dash`: needs at least one pane");
}
