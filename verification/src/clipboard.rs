//! System clipboard by way of OS tools: which tool to use, and the command
//! line that reads or writes with it. macOS: pbcopy / pbpaste. Linux:
//! wl-copy / wl-paste (Wayland), then xclip, then xsel. Running the
//! commands is the caller's part.

use vstd::prelude::*;

verus! {

/// A clipboard tool.
#[derive(Debug, Clone, Copy, PartialEq, Eq, Structural)]
pub enum Tool {
    PbCopyPaste,
    WlClipboard,
    Xclip,
    Xsel,
}

/// The tools in order of preference, with the program whose presence on
/// `PATH` shows each.
pub open spec fn candidate_table() -> Seq<(Seq<char>, Tool)> {
    seq![
        ("pbpaste"@, Tool::PbCopyPaste),
        ("wl-paste"@, Tool::WlClipboard),
        ("xclip"@, Tool::Xclip),
        ("xsel"@, Tool::Xsel),
    ]
}

/// The tools in order of preference, each with the program to look for.
pub fn candidates() -> (v: Vec<(&'static str, Tool)>)
    ensures
        v@.len() == candidate_table().len(),
        forall|i: int| 0 <= i < v@.len() ==> (#[trigger] v@[i]).0@ == candidate_table()[i].0 && v@[i].1 == candidate_table()[i].1,
{
    vec![
        ("pbpaste", Tool::PbCopyPaste),
        ("wl-paste", Tool::WlClipboard),
        ("xclip", Tool::Xclip),
        ("xsel", Tool::Xsel),
    ]
}

/// The first candidate found, given for each candidate in order whether
/// its program is on `PATH` (candidates past the end of `found` count as
/// absent).
pub open spec fn first_found(found: Seq<bool>) -> Option<Tool> {
    if found.len() > 0 && found[0] {
        Some(Tool::PbCopyPaste)
    } else if found.len() > 1 && found[1] {
        Some(Tool::WlClipboard)
    } else if found.len() > 2 && found[2] {
        Some(Tool::Xclip)
    } else if found.len() > 3 && found[3] {
        Some(Tool::Xsel)
    } else {
        None
    }
}

/// The preferred tool among those present: `found[i]` says whether the
/// program of `candidates()[i]` is on `PATH`.
pub fn detect(found: &[bool]) -> (t: Option<Tool>)
    ensures
        t == first_found(found@),
{
    let c = candidates();
    let mut i: usize = 0;
    while i < c.len() && i < found.len()
        invariant
            c@.len() == 4,
            forall|k: int| 0 <= k < 4 ==> (#[trigger] c@[k]).1 == candidate_table()[k].1,
            i <= 4,
            forall|k: int| 0 <= k < i && k < found@.len() ==> !(#[trigger] found@[k]),
        decreases 4 - i,
    {
        if found[i] {
            return Some(c[i].1);
        }
        i = i + 1;
    }
    None
}

/// A program and its arguments.
pub struct ToolCommand {
    pub program: &'static str,
    pub args: Vec<&'static str>,
}

/// The command line of a tool, as text.
pub open spec fn command_text(c: ToolCommand) -> (Seq<char>, Seq<Seq<char>>) {
    (c.program@, c.args@.map_values(|a: &'static str| a@))
}

/// The command that prints the clipboard with `tool`.
pub open spec fn read_command(tool: Tool) -> (Seq<char>, Seq<Seq<char>>) {
    match tool {
        Tool::PbCopyPaste => ("pbpaste"@, seq![]),
        Tool::WlClipboard => ("wl-paste"@, seq!["--no-newline"@]),
        Tool::Xclip => ("xclip"@, seq!["-selection"@, "clipboard"@, "-o"@]),
        Tool::Xsel => ("xsel"@, seq!["--clipboard"@, "--output"@]),
    }
}

/// The command that sets the clipboard from its input with `tool`.
pub open spec fn write_command(tool: Tool) -> (Seq<char>, Seq<Seq<char>>) {
    match tool {
        Tool::PbCopyPaste => ("pbcopy"@, seq![]),
        Tool::WlClipboard => ("wl-copy"@, seq![]),
        Tool::Xclip => ("xclip"@, seq!["-selection"@, "clipboard"@]),
        Tool::Xsel => ("xsel"@, seq!["--clipboard"@, "--input"@]),
    }
}

/// The command that reads the clipboard with `tool`.
pub fn read_cmd(tool: Tool) -> (c: ToolCommand)
    ensures
        command_text(c) == read_command(tool),
{
    let c = match tool {
        Tool::PbCopyPaste => ToolCommand { program: "pbpaste", args: vec![] },
        Tool::WlClipboard => ToolCommand { program: "wl-paste", args: vec!["--no-newline"] },
        Tool::Xclip => ToolCommand { program: "xclip", args: vec!["-selection", "clipboard", "-o"] },
        Tool::Xsel => ToolCommand { program: "xsel", args: vec!["--clipboard", "--output"] },
    };
    assert(command_text(c).1 =~= read_command(tool).1);
    c
}

/// The command that writes the clipboard with `tool`.
pub fn write_cmd(tool: Tool) -> (c: ToolCommand)
    ensures
        command_text(c) == write_command(tool),
{
    let c = match tool {
        Tool::PbCopyPaste => ToolCommand { program: "pbcopy", args: vec![] },
        Tool::WlClipboard => ToolCommand { program: "wl-copy", args: vec![] },
        Tool::Xclip => ToolCommand { program: "xclip", args: vec!["-selection", "clipboard"] },
        Tool::Xsel => ToolCommand { program: "xsel", args: vec!["--clipboard", "--input"] },
    };
    assert(command_text(c).1 =~= write_command(tool).1);
    c
}

} // verus!
