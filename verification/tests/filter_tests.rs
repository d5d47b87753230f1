use tess::charset::{parse_label, TextEncoding};
use tess::filter::{compare_with, lex_compare, CompiledFilter, FilterMatch, FilterOp, FilterSpec, Order};
use tess::format::LogFormat;
use tess::viewport::CaseMode;

#[test]
fn parse_eq() {
    let s = FilterSpec::parse("status=500").unwrap();
    assert_eq!(s.field, "status");
    assert_eq!(s.op, FilterOp::Eq);
    assert_eq!(s.value, "500");
}

#[test]
fn parse_ne_before_eq() {
    let s = FilterSpec::parse("status!=200").unwrap();
    assert_eq!(s.op, FilterOp::Ne);
    assert_eq!(s.value, "200");
}

#[test]
fn parse_re() {
    let s = FilterSpec::parse(r"ip~^10\.").unwrap();
    assert_eq!(s.op, FilterOp::Re);
    assert_eq!(s.value, r"^10\.");
}

#[test]
fn parse_not_re_before_re() {
    let s = FilterSpec::parse("agent!~bot").unwrap();
    assert_eq!(s.op, FilterOp::NotRe);
    assert_eq!(s.value, "bot");
}

#[test]
fn parse_rejects_no_operator() {
    let err = FilterSpec::parse("status").unwrap_err();
    assert!(err.contains("missing operator"), "{err}");
}

#[test]
fn parse_rejects_empty_field() {
    let err = FilterSpec::parse("=500").unwrap_err();
    assert!(err.contains("empty field"), "{err}");
}

#[test]
fn parse_le_before_lt() {
    let s = FilterSpec::parse("status<=200").unwrap();
    assert_eq!(s.op, FilterOp::Le);
    assert_eq!(s.value, "200");
}

#[test]
fn parse_ge_before_gt() {
    let s = FilterSpec::parse("status>=500").unwrap();
    assert_eq!(s.op, FilterOp::Ge);
    assert_eq!(s.value, "500");
}

#[test]
fn parse_lt() {
    let s = FilterSpec::parse("size<1000").unwrap();
    assert_eq!(s.op, FilterOp::Lt);
    assert_eq!(s.value, "1000");
}

#[test]
fn parse_gt() {
    let s = FilterSpec::parse("size>0").unwrap();
    assert_eq!(s.op, FilterOp::Gt);
    assert_eq!(s.value, "0");
}

#[test]
fn evaluate_lex_fallback() {
    // "-" is not a number, so the texts compare lexicographically.
    assert!(compare_with(&FilterOp::Lt, None, "-", "100"));
    assert!(!compare_with(&FilterOp::Gt, None, "-", "100"));
}

#[test]
fn evaluate_lex_string_compare() {
    assert!(compare_with(&FilterOp::Gt, None, "warning", "warn"));
    assert!(!compare_with(&FilterOp::Gt, None, "info", "warn"));
    assert!(compare_with(&FilterOp::Ge, None, "warn", "warn"));
    assert!(compare_with(&FilterOp::Le, None, "warn", "warn"));
}

#[test]
fn parse_rejects_no_op_mentions_new_ops() {
    let err = FilterSpec::parse("status").unwrap_err();
    assert!(err.contains(">=") && err.contains("<="), "{err}");
}

#[test]
fn parse_error_texts_are_exact() {
    assert_eq!(FilterSpec::parse("=500").unwrap_err(), "filter `=500`: empty field name");
    assert_eq!(
        FilterSpec::parse("status").unwrap_err(),
        "filter `status`: missing operator (expected =, !=, ~, !~, <, <=, >, or >=)"
    );
}

#[test]
fn parse_splits_at_first_occurrence() {
    let s = FilterSpec::parse("a=b=c").unwrap();
    assert_eq!((s.field.as_str(), s.value.as_str()), ("a", "b=c"));
    // `~` is tried before `=` even when `=` comes first.
    let s = FilterSpec::parse("a=b~c").unwrap();
    assert_eq!((s.field.as_str(), s.op, s.value.as_str()), ("a=b", FilterOp::Re, "c"));
}

#[test]
fn numeric_order_takes_precedence() {
    assert!(compare_with(&FilterOp::Lt, Some(Some(Order::Less)), "9", "10"));
    assert!(!compare_with(&FilterOp::Lt, Some(None), "NaN", "1"));
    assert!(!compare_with(&FilterOp::Eq, Some(Some(Order::Equal)), "1", "1"));
}

#[test]
fn lex_compare_orders_by_code_point() {
    assert_eq!(lex_compare("abc", "abd"), Order::Less);
    assert_eq!(lex_compare("ab", "a"), Order::Greater);
    assert_eq!(lex_compare("", ""), Order::Equal);
    assert_eq!(lex_compare("é", "z"), Order::Greater);
}

fn numeric(a: &str, b: &str) -> Option<Option<Order>> {
    match (a.parse::<f64>(), b.parse::<f64>()) {
        (Ok(x), Ok(y)) => Some(x.partial_cmp(&y).map(|o| match o {
            std::cmp::Ordering::Less => Order::Less,
            std::cmp::Ordering::Equal => Order::Equal,
            std::cmp::Ordering::Greater => Order::Greater,
        })),
        _ => None,
    }
}

fn apache_combined() -> LogFormat {
    LogFormat::compile(
        "apache-combined",
        r#"^(?P<ip>\S+) \S+ (?P<user>\S+) \[(?P<time>[^\]]+)\] "(?P<method>\S+) (?P<url>\S+) (?P<protocol>[^"]+)" (?P<status>\d+) (?P<size>\S+) "(?P<referer>[^"]*)" "(?P<agent>[^"]*)"$"#,
    )
    .unwrap()
}

const SAMPLE_200: &[u8] = br#"127.0.0.1 - alice [10/Oct/2023:13:55:36 +0000] "GET /index.html HTTP/1.1" 200 2326 "-" "Mozilla/5.0""#;
const SAMPLE_500: &[u8] = br#"127.0.0.1 - alice [10/Oct/2023:13:55:36 +0000] "GET /api/data HTTP/1.1" 500 512 "-" "curl/7.0""#;
const NON_PARSING: &[u8] = b"this line does not match the format at all";

#[test]
fn compile_rejects_unknown_field() {
    let fmt = apache_combined();
    let specs = vec![FilterSpec::parse("notafield=x").unwrap()];
    let err = CompiledFilter::compile(&fmt, specs, CaseMode::Sensitive).err().unwrap();
    assert!(err.contains("not in format"), "{err}");
}

#[test]
fn evaluate_eq_matches() {
    let fmt = apache_combined();
    let f = CompiledFilter::compile(&fmt, vec![FilterSpec::parse("status=500").unwrap()], CaseMode::Sensitive).unwrap();
    assert_eq!(f.evaluate(SAMPLE_500, TextEncoding::utf8(), numeric), FilterMatch::Matched);
    assert_eq!(f.evaluate(SAMPLE_200, TextEncoding::utf8(), numeric), FilterMatch::NotMatched);
}

#[test]
fn evaluate_re_matches_5xx() {
    let fmt = apache_combined();
    let f = CompiledFilter::compile(&fmt, vec![FilterSpec::parse("status~^5").unwrap()], CaseMode::Sensitive).unwrap();
    assert_eq!(f.evaluate(SAMPLE_500, TextEncoding::utf8(), numeric), FilterMatch::Matched);
    assert_eq!(f.evaluate(SAMPLE_200, TextEncoding::utf8(), numeric), FilterMatch::NotMatched);
}

#[test]
fn evaluate_ne_excludes_200() {
    let fmt = apache_combined();
    let f = CompiledFilter::compile(&fmt, vec![FilterSpec::parse("status!=200").unwrap()], CaseMode::Sensitive).unwrap();
    assert_eq!(f.evaluate(SAMPLE_500, TextEncoding::utf8(), numeric), FilterMatch::Matched);
    assert_eq!(f.evaluate(SAMPLE_200, TextEncoding::utf8(), numeric), FilterMatch::NotMatched);
}

#[test]
fn evaluate_multiple_filters_and() {
    let fmt = apache_combined();
    let f = CompiledFilter::compile(
        &fmt,
        vec![
            FilterSpec::parse("status~^5").unwrap(),
            FilterSpec::parse(r"url~/api/").unwrap(),
        ],
        CaseMode::Sensitive,
    )
    .unwrap();
    assert_eq!(f.evaluate(SAMPLE_500, TextEncoding::utf8(), numeric), FilterMatch::Matched);
    assert_eq!(f.evaluate(SAMPLE_200, TextEncoding::utf8(), numeric), FilterMatch::NotMatched);
}

#[test]
fn evaluate_unparseable_line_is_not_parsed() {
    let fmt = apache_combined();
    let f = CompiledFilter::compile(&fmt, vec![FilterSpec::parse("status=200").unwrap()], CaseMode::Sensitive).unwrap();
    assert_eq!(f.evaluate(NON_PARSING, TextEncoding::utf8(), numeric), FilterMatch::NotParsed);
}

#[test]
fn evaluate_ge_numeric() {
    let fmt = apache_combined();
    let f = CompiledFilter::compile(&fmt, vec![FilterSpec::parse("status>=500").unwrap()], CaseMode::Sensitive).unwrap();
    assert_eq!(f.evaluate(SAMPLE_500, TextEncoding::utf8(), numeric), FilterMatch::Matched);
    assert_eq!(f.evaluate(SAMPLE_200, TextEncoding::utf8(), numeric), FilterMatch::NotMatched);
}

#[test]
fn evaluate_lt_numeric() {
    let fmt = apache_combined();
    let f = CompiledFilter::compile(&fmt, vec![FilterSpec::parse("status<400").unwrap()], CaseMode::Sensitive).unwrap();
    assert_eq!(f.evaluate(SAMPLE_200, TextEncoding::utf8(), numeric), FilterMatch::Matched);
    assert_eq!(f.evaluate(SAMPLE_500, TextEncoding::utf8(), numeric), FilterMatch::NotMatched);
}

#[test]
fn filter_evaluate_decoded_latin1() {
    // Format with a `user` field that could contain non-ASCII Latin-1 bytes.
    // We build a simple log format: "<ip> <user>" so the user field is the 2nd token.
    let fmt = LogFormat::compile(
        "simple2",
        r"^(?P<ip>\S+) (?P<user>\S+)$",
    )
    .unwrap();
    let f = CompiledFilter::compile(
        &fmt,
        vec![FilterSpec::parse("user=café").unwrap()],
        CaseMode::Sensitive,
    )
    .unwrap();
    let l1 = parse_label("iso-8859-1").unwrap();
    // "127.0.0.1 café" in Latin-1 (0xE9 = é in iso-8859-1)
    let latin1_line: Vec<u8> = b"127.0.0.1 caf\xE9".to_vec();
    assert_eq!(f.evaluate(&latin1_line, l1, numeric), FilterMatch::Matched);
    // Same bytes under UTF-8: 0xE9 is invalid → lossy replacement → user field != "café"
    assert_eq!(
        f.evaluate(&latin1_line, TextEncoding::utf8(), numeric),
        FilterMatch::NotMatched
    );
}

#[test]
fn evaluate_record_spans_lines() {
    let fmt = LogFormat::compile("rec", r"^\[(?P<level>\w+)\] (?P<msg>.*)$").unwrap();
    let f = CompiledFilter::compile(&fmt, vec![FilterSpec::parse("msg~Renderer").unwrap()], CaseMode::Sensitive).unwrap();
    let rec = b"[WARN] head\n  Renderer.php\n";
    assert_eq!(f.evaluate_record(rec, TextEncoding::utf8(), numeric), FilterMatch::Matched);
    assert_eq!(f.evaluate(b"[WARN] head", TextEncoding::utf8(), numeric), FilterMatch::NotMatched);
}

#[test]
fn compile_errors_name_the_spec() {
    let fmt = apache_combined();
    let err = CompiledFilter::compile(&fmt, vec![FilterSpec::parse("nope=1").unwrap()], CaseMode::Sensitive).err().unwrap();
    assert_eq!(
        err,
        "filter `nopeEq1`: field `nope` is not in format `apache-combined` (available: ip, user, time, method, url, protocol, status, size, referer, agent)"
    );
    let err = CompiledFilter::compile(&fmt, vec![FilterSpec::parse("url~[").unwrap()], CaseMode::Sensitive).err().unwrap();
    assert!(err.starts_with("filter `url`: invalid regex `[`: "), "{err}");
}

#[test]
fn smart_case_regex_ignores_case_without_capitals() {
    let fmt = apache_combined();
    let lower = CompiledFilter::compile(&fmt, vec![FilterSpec::parse("agent~curl").unwrap()], CaseMode::Smart).unwrap();
    let upper = CompiledFilter::compile(&fmt, vec![FilterSpec::parse("agent~CURL").unwrap()], CaseMode::Smart).unwrap();
    let insens = CompiledFilter::compile(&fmt, vec![FilterSpec::parse("agent~CURL").unwrap()], CaseMode::Insensitive).unwrap();
    let line = br#"127.0.0.1 - alice [10/Oct/2023:13:55:36 +0000] "GET /api/data HTTP/1.1" 500 512 "-" "Curl/7.0""#;
    assert_eq!(lower.evaluate(line, TextEncoding::utf8(), numeric), FilterMatch::Matched);
    assert_eq!(upper.evaluate(line, TextEncoding::utf8(), numeric), FilterMatch::NotMatched);
    assert_eq!(insens.evaluate(line, TextEncoding::utf8(), numeric), FilterMatch::Matched);
}

#[test]
fn ordering_falls_back_to_text_order() {
    let fmt = apache_combined();
    let f = CompiledFilter::compile(&fmt, vec![FilterSpec::parse("user<bob").unwrap()], CaseMode::Sensitive).unwrap();
    assert_eq!(f.evaluate(SAMPLE_200, TextEncoding::utf8(), numeric), FilterMatch::Matched);
}
