use tess::batch::{pending_units, plan_pending, BatchDestination, BatchSpec};
use tess::charset::TextEncoding;
use tess::format::{DisplayRenderer, DisplayTemplate, LogFormat};
use tess::grep::GrepPredicate;
use tess::line_index::LineIndex;
use tess::pattern::ByteRegex;

fn indexed(bytes: &[u8], records: Option<&str>) -> LineIndex {
    let mut idx = LineIndex::new();
    if let Some(p) = records {
        idx.set_record_start(ByteRegex::new(p).unwrap());
    }
    idx.extend_to_end(bytes);
    idx
}

#[test]
fn batch_spec_defaults_to_stdout_without_follow() {
    let s = BatchSpec::default();
    assert!(matches!(s.destination, BatchDestination::Stdout));
    assert!(!s.follow);
    assert_eq!(s.poll_interval, 250_000_000);
}

#[test]
fn line_mode_writes_passing_lines_and_moves_past_all() {
    let src = b"alpha\nbeta\ngamma\n";
    let idx = indexed(src, None);
    assert_eq!(pending_units(&idx, 0), 0..3);
    let p = plan_pending(&idx, 0, &[true, false, true]);
    assert_eq!(p.lines, vec![0, 2]);
    assert_eq!(p.next_line, 3);
}

#[test]
fn line_mode_without_verdicts_writes_nothing_new() {
    let src = b"a\nb\n";
    let idx = indexed(src, None);
    let p = plan_pending(&idx, 2, &[]);
    assert!(p.lines.is_empty());
    assert_eq!(p.next_line, 2);
    assert_eq!(pending_units(&idx, 5), 5..5);
}

#[test]
fn records_mode_writes_every_line_of_a_passing_record() {
    let src = b"[1] a\n  more\n[2] b\n[3] c\n  x\n  y\n";
    let idx = indexed(src, Some(r"^\["));
    assert_eq!(pending_units(&idx, 0), 0..3);
    let p = plan_pending(&idx, 0, &[true, false, true]);
    assert_eq!(p.lines, vec![0, 1, 3, 4, 5]);
    assert_eq!(p.next_line, 6);
}

#[test]
fn records_mode_resumes_inside_a_record_without_repeating_lines() {
    let src = b"[1] a\n  more\n  more\n[2] b\n";
    let idx = indexed(src, Some(r"^\["));
    assert_eq!(pending_units(&idx, 2), 0..2);
    let p = plan_pending(&idx, 2, &[true, true]);
    assert_eq!(p.lines, vec![2, 3]);
    assert_eq!(p.next_line, 4);
}

/// One full pass over `src`, as the batch writer makes it: each pending
/// unit's verdict from `grep`, then the planned lines, each followed by a
/// newline.
fn run_to_vec(src: &[u8], mut idx: LineIndex, grep: Option<GrepPredicate>) -> Vec<u8> {
    idx.extend_to_end(src);
    let passes: Vec<bool> = pending_units(&idx, 0)
        .map(|u| match &grep {
            None => true,
            Some(g) => {
                if idx.records_mode() {
                    g.matches(&idx.record_bytes_stripped(u, src))
                } else {
                    g.matches(&src[idx.line_range(u, src)])
                }
            }
        })
        .collect();
    let plan = plan_pending(&idx, 0, &passes);
    let mut out = Vec::new();
    for n in plan.lines {
        out.extend_from_slice(&src[idx.line_range(n, src)]);
        out.push(b'\n');
    }
    out
}

#[test]
fn writes_all_lines_unfiltered() {
    let out = run_to_vec(b"alpha\nbeta\ngamma\n", LineIndex::new(), None);
    assert_eq!(out, b"alpha\nbeta\ngamma\n");
}

#[test]
fn head_cap_limits_output() {
    let mut idx = LineIndex::new();
    idx.set_head_cap(3);
    let out = run_to_vec(b"1\n2\n3\n4\n5\n", idx, None);
    assert_eq!(out, b"1\n2\n3\n");
}

#[test]
fn grep_filters_in_batch_mode() {
    let g = GrepPredicate::compile(&["error".to_string()]).unwrap();
    let out = run_to_vec(b"keep error one\ndrop me\nkeep error two\n", LineIndex::new(), Some(g));
    assert_eq!(out, b"keep error one\nkeep error two\n");
}

#[test]
fn grep_in_records_mode_emits_all_lines_of_matching_record() {
    let mut idx = LineIndex::new();
    idx.set_record_start(ByteRegex::new(r"^\[").unwrap());
    // The pattern matches a continuation line, not the header: the whole
    // record goes out.
    let g = GrepPredicate::compile(&["Renderer".to_string()]).unwrap();
    let out = run_to_vec(b"[1] head\n  Renderer.php\n  more body\n[2] other\n  unrelated\n", idx, Some(g));
    assert_eq!(out, b"[1] head\n  Renderer.php\n  more body\n");
}

/// One full pass writing each line through `display`, falling back to the
/// raw line when it does not parse.
fn run_with_display(src: &[u8], display: &DisplayRenderer) -> Vec<u8> {
    let mut idx = LineIndex::new();
    idx.extend_to_end(src);
    let passes = vec![true; pending_units(&idx, 0).len()];
    let plan = plan_pending(&idx, 0, &passes);
    let mut out = Vec::new();
    for n in plan.lines {
        let bytes = &src[idx.line_range(n, src)];
        match display.render_line(bytes, TextEncoding::utf8()) {
            Some(r) => out.extend_from_slice(r.as_bytes()),
            None => out.extend_from_slice(bytes),
        }
        out.push(b'\n');
    }
    out
}

#[test]
fn display_template_rewrites_lines() {
    let src = b"127.0.0.1 - alice [10/Oct/2023:13:55:36 +0000] \"GET /a HTTP/1.1\" 200 1024 \"-\" \"-\"\n\
127.0.0.1 - alice [10/Oct/2023:13:55:36 +0000] \"GET /b HTTP/1.1\" 500 64 \"-\" \"-\"\n";
    let fmt = LogFormat::compile(
        "apache-combined",
        r#"^(?P<ip>\S+) \S+ (?P<user>\S+) \[(?P<time>[^\]]+)\] "(?P<method>\S+) (?P<url>\S+) (?P<protocol>[^"]+)" (?P<status>\d+) (?P<size>\S+) "(?P<referer>[^"]*)" "(?P<agent>[^"]*)"$"#,
    )
    .ok()
    .unwrap();
    let template = DisplayTemplate::compile("<status> <method> <url>", &fmt.field_names).ok().unwrap();
    let renderer = DisplayRenderer::new(template, fmt.regex);
    let out = run_with_display(src, &renderer);
    assert_eq!(std::str::from_utf8(&out).unwrap(), "200 GET /a\n500 GET /b\n");
}

#[test]
fn display_falls_back_to_raw_when_line_doesnt_parse() {
    let fmt = LogFormat::compile("simple", r"^(?P<level>\w+) (?P<msg>.+)$").ok().unwrap();
    let template = DisplayTemplate::compile("<level>: <msg>", &fmt.field_names).ok().unwrap();
    let renderer = DisplayRenderer::new(template, fmt.regex);
    let out = run_with_display(b"singleword\n", &renderer);
    assert_eq!(out, b"singleword\n");
}
