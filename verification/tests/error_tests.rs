use tess::error::Error;

#[test]
fn display_wraps_io_error_with_context() {
    let e = Error::OpenFile { path: "/nope".to_string(), source: "no such file".to_string() };
    assert_eq!(e.message(), "tess: /nope: no such file");
}

#[test]
fn exit_code_for_startup_is_one() {
    let e = Error::OpenFile { path: "/nope".to_string(), source: "x".to_string() };
    assert_eq!(e.exit_code(), 1);
}

#[test]
fn exit_code_for_runtime_is_two() {
    let e = Error::Runtime("stdout closed".into());
    assert_eq!(e.exit_code(), 2);
}

#[test]
fn tag_file_parse_message_names_place() {
    let e = Error::TagFileParse("bad line".into(), "tags".into(), 12);
    assert_eq!(e.message(), "tags file parse error: bad line at tags:12");
    assert_eq!(e.exit_code(), 1);
}

#[test]
fn no_input_message() {
    assert_eq!(Error::NoInput.message(), "tess: no input (specify a file or pipe stdin)");
    assert_eq!(Error::NotAFile { path: "/d".into() }.message(), "tess: /d: not a regular file");
}
