use tess::clipboard::{candidates, detect, read_cmd, write_cmd, Tool};

#[test]
fn read_write_cmd_programs_distinct_per_tool() {
    for t in [Tool::PbCopyPaste, Tool::WlClipboard, Tool::Xclip, Tool::Xsel] {
        assert!(!read_cmd(t).program.is_empty());
        assert!(!write_cmd(t).program.is_empty());
    }
}

#[test]
fn xclip_read_uses_output_flag() {
    let c = read_cmd(Tool::Xclip);
    let args: Vec<String> = c.args.iter().map(|a| a.to_string()).collect();
    assert!(args.contains(&"-o".to_string()));
}

#[test]
fn detect_prefers_earlier_candidates() {
    assert_eq!(detect(&[false, true, true, false]), Some(Tool::WlClipboard));
    assert_eq!(detect(&[true, true, true, true]), Some(Tool::PbCopyPaste));
    assert_eq!(detect(&[false, false, false, true]), Some(Tool::Xsel));
    assert_eq!(detect(&[false, false, false, false]), None);
    assert_eq!(detect(&[]), None);
}

#[test]
fn candidates_probe_the_read_programs_in_order() {
    let c = candidates();
    let names: Vec<&str> = c.iter().map(|(p, _)| *p).collect();
    assert_eq!(names, vec!["pbpaste", "wl-paste", "xclip", "xsel"]);
    for (p, t) in c {
        assert_eq!(read_cmd(t).program, p);
    }
}

#[test]
fn write_commands_take_input() {
    assert_eq!(write_cmd(Tool::Xsel).args, vec!["--clipboard", "--input"]);
    assert_eq!(write_cmd(Tool::PbCopyPaste).program, "pbcopy");
    assert!(write_cmd(Tool::WlClipboard).args.is_empty());
}
