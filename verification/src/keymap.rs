//! The default key bindings, by category, as the help overlay lists them.

use vstd::prelude::*;
use crate::input::{has_mod, translate_spec, Command, KeyCode, KeyEvent, MOD_CONTROL, MOD_NONE, MOD_SHIFT};
use crate::text::{ascii_lower_char, is_ascii_upper};

verus! {

/// A help-overlay section.
#[derive(Debug, Clone, Copy, PartialEq, Eq, Hash, Structural)]
pub enum Category {
    Movement,
    Search,
    Files,
    Marks,
    Tags,
    Misc,
}

pub open spec fn category_label(c: Category) -> Seq<char> {
    match c {
        Category::Movement => "Movement"@,
        Category::Search => "Search"@,
        Category::Files => "Files"@,
        Category::Marks => "Marks"@,
        Category::Tags => "Tags"@,
        Category::Misc => "Misc"@,
    }
}

impl Category {
    /// The section heading.
    pub fn label(self) -> (s: &'static str)
        ensures
            s@ == category_label(self),
    {
        match self {
            Category::Movement => "Movement",
            Category::Search => "Search",
            Category::Files => "Files",
            Category::Marks => "Marks",
            Category::Tags => "Tags",
            Category::Misc => "Misc",
        }
    }

    /// The order the sections are shown in.
    pub fn order() -> (v: Vec<Category>)
        ensures
            v@ == seq![Category::Movement, Category::Search, Category::Files, Category::Marks, Category::Tags, Category::Misc],
    {
        let v = vec![Category::Movement, Category::Search, Category::Files, Category::Marks, Category::Tags, Category::Misc];
        assert(v@ =~= seq![Category::Movement, Category::Search, Category::Files, Category::Marks, Category::Tags, Category::Misc]);
        v
    }
}

/// One default binding: the keys shown for it (the first is the canonical
/// one), its section, what it does, its command and its name in `keys.toml`.
#[derive(Debug)]
pub struct KeyEntry {
    pub keys: Vec<&'static str>,
    pub category: Category,
    pub description: &'static str,
    pub command: Command,
    pub command_name: &'static str,
}

pub type EntryView = (Seq<Seq<char>>, Category, Seq<char>, Command, Seq<char>);

pub open spec fn entry_view(e: KeyEntry) -> EntryView {
    (Seq::new(e.keys@.len(), |i: int| e.keys@[i]@), e.category, e.description@, e.command, e.command_name@)
}

/// Every default binding, in help order within each section.
pub open spec fn registry_table() -> Seq<EntryView> {
    seq![
        (seq!["j"@, "↓"@, "e"@, "Enter"@], Category::Movement, "scroll down one line"@, Command::ScrollLines(1i64), "scroll-down"@),
        (seq!["k"@, "↑"@, "y"@], Category::Movement, "scroll up one line"@, Command::ScrollLines(-1i64), "scroll-up"@),
        (seq!["J"@], Category::Movement, "next logical line (skip wrap rows)"@, Command::ScrollLogicalLines(1i64), "scroll-logical-down"@),
        (seq!["K"@], Category::Movement, "previous logical line"@, Command::ScrollLogicalLines(-1i64), "scroll-logical-up"@),
        (seq!["Space"@, "f"@, "Ctrl-F"@, "PgDn"@], Category::Movement, "page down"@, Command::PageDown, "page-down"@),
        (seq!["b"@, "Ctrl-B"@, "PgUp"@], Category::Movement, "page up"@, Command::PageUp, "page-up"@),
        (seq!["d"@, "Ctrl-D"@], Category::Movement, "half page down"@, Command::HalfPageDown, "half-page-down"@),
        (seq!["u"@, "Ctrl-U"@], Category::Movement, "half page up"@, Command::HalfPageUp, "half-page-up"@),
        (seq!["g"@, "<"@, "Home"@], Category::Movement, "jump to first line (or line N with prefix)"@, Command::GotoLine, "goto-line"@),
        (seq!["G"@, ">"@, "End"@], Category::Movement, "jump to last line (or record N with prefix)"@, Command::GotoRecord, "goto-record"@),
        (seq!["%"@], Category::Movement, "jump to N% through file"@, Command::GotoPercent, "goto-percent"@),
        (seq!["/"@], Category::Search, "search forward"@, Command::SearchForward, "search-forward"@),
        (seq!["?"@], Category::Search, "search backward"@, Command::SearchBackward, "search-backward"@),
        (seq!["n"@], Category::Search, "next match"@, Command::NextMatch, "next-match"@),
        (seq!["N"@], Category::Search, "previous match"@, Command::PreviousMatch, "previous-match"@),
        (seq![":n"@], Category::Files, "next file"@, Command::ColonPrompt, "next-file"@),
        (seq![":p"@], Category::Files, "previous file"@, Command::ColonPrompt, "prev-file"@),
        (seq![":b"@, ":buffers"@], Category::Files, "open file picker"@, Command::OpenPicker, "open-picker"@),
        (seq![":e PATH"@], Category::Files, "open a new file (add to set)"@, Command::ColonPrompt, "edit-file"@),
        (seq![":d"@], Category::Files, "drop current file from set"@, Command::ColonPrompt, "drop-file"@),
        (seq![":x"@], Category::Files, "jump to first file"@, Command::ColonPrompt, "first-file"@),
        (seq![":t"@], Category::Files, "jump to last file"@, Command::ColonPrompt, "last-file"@),
        (seq!["m<a-z>"@], Category::Marks, "set mark to current position"@, Command::MarkSet, "mark-set"@),
        (seq!["'<a-z>"@], Category::Marks, "jump to mark"@, Command::MarkJump, "mark-jump"@),
        (seq!["Ctrl-X Ctrl-X"@], Category::Marks, "jump to previous position"@, Command::JumpPrevious, "jump-previous"@),
        (seq!["Ctrl-]"@], Category::Tags, "jump to tag (prompts for name)"@, Command::TagPrompt, "tag-prompt"@),
        (seq!["Ctrl-T"@], Category::Tags, "pop tag stack"@, Command::TagPop, "tag-pop"@),
        (seq!["q"@, "Q"@, "Ctrl-C"@], Category::Misc, "quit"@, Command::Quit, "quit"@),
        (seq!["r"@, "Ctrl-L"@], Category::Misc, "refresh screen"@, Command::Refresh, "refresh"@),
        (seq!["R"@], Category::Misc, "reload source from disk"@, Command::Reload, "reload"@),
        (seq!["F"@], Category::Misc, "toggle follow mode"@, Command::ToggleFollow, "toggle-follow"@),
        (seq!["P"@], Category::Misc, "toggle prettify"@, Command::TogglePrettify, "toggle-prettify"@),
        (seq!["-"@], Category::Misc, "option-toggle prefix (N=lines, S=chop, F=follow)"@, Command::OptionPrefix, "option-prefix"@),
        (seq!["!"@], Category::Misc, "shell escape (run external command)"@, Command::ShellEscape, "shell-escape"@),
        (seq![":"@], Category::Misc, "colon command prompt"@, Command::ColonPrompt, "colon-prompt"@),
        (seq!["0"@, "1-9"@], Category::Misc, "numeric prefix (e.g. 5G jumps to record 5)"@, Command::Digit(0u8), "digit-prefix"@),
        (seq!["Esc"@], Category::Misc, "cancel pending numeric prefix or command"@, Command::Cancel, "cancel"@),
        (seq![":help"@, ":h"@, "F1"@], Category::Misc, "open this help overlay"@, Command::OpenHelp, "open-help"@),
    ]
}

fn entry(keys: Vec<&'static str>, category: Category, description: &'static str, command: Command, command_name: &'static str) -> (e: KeyEntry)
    ensures
        e.keys == keys,
        e.category == category,
        e.description == description,
        e.command == command,
        e.command_name == command_name,
{
    KeyEntry { keys, category, description, command, command_name }
}

/// Every default binding, with its section and description.
#[verifier::rlimit(60)]
pub fn key_registry() -> (v: Vec<KeyEntry>)
    ensures
        v@.len() == registry_table().len(),
        forall|i: int| 0 <= i < v@.len() ==> entry_view(#[trigger] v@[i]) == registry_table()[i],
{
    let mut v: Vec<KeyEntry> = Vec::new();
    v.push(entry(vec!["j", "↓", "e", "Enter"], Category::Movement, "scroll down one line", Command::ScrollLines(1), "scroll-down"));
    v.push(entry(vec!["k", "↑", "y"], Category::Movement, "scroll up one line", Command::ScrollLines(-1), "scroll-up"));
    v.push(entry(vec!["J"], Category::Movement, "next logical line (skip wrap rows)", Command::ScrollLogicalLines(1), "scroll-logical-down"));
    v.push(entry(vec!["K"], Category::Movement, "previous logical line", Command::ScrollLogicalLines(-1), "scroll-logical-up"));
    v.push(entry(vec!["Space", "f", "Ctrl-F", "PgDn"], Category::Movement, "page down", Command::PageDown, "page-down"));
    v.push(entry(vec!["b", "Ctrl-B", "PgUp"], Category::Movement, "page up", Command::PageUp, "page-up"));
    v.push(entry(vec!["d", "Ctrl-D"], Category::Movement, "half page down", Command::HalfPageDown, "half-page-down"));
    v.push(entry(vec!["u", "Ctrl-U"], Category::Movement, "half page up", Command::HalfPageUp, "half-page-up"));
    v.push(entry(vec!["g", "<", "Home"], Category::Movement, "jump to first line (or line N with prefix)", Command::GotoLine, "goto-line"));
    v.push(entry(vec!["G", ">", "End"], Category::Movement, "jump to last line (or record N with prefix)", Command::GotoRecord, "goto-record"));
    v.push(entry(vec!["%"], Category::Movement, "jump to N% through file", Command::GotoPercent, "goto-percent"));
    v.push(entry(vec!["/"], Category::Search, "search forward", Command::SearchForward, "search-forward"));
    v.push(entry(vec!["?"], Category::Search, "search backward", Command::SearchBackward, "search-backward"));
    v.push(entry(vec!["n"], Category::Search, "next match", Command::NextMatch, "next-match"));
    v.push(entry(vec!["N"], Category::Search, "previous match", Command::PreviousMatch, "previous-match"));
    v.push(entry(vec![":n"], Category::Files, "next file", Command::ColonPrompt, "next-file"));
    v.push(entry(vec![":p"], Category::Files, "previous file", Command::ColonPrompt, "prev-file"));
    v.push(entry(vec![":b", ":buffers"], Category::Files, "open file picker", Command::OpenPicker, "open-picker"));
    v.push(entry(vec![":e PATH"], Category::Files, "open a new file (add to set)", Command::ColonPrompt, "edit-file"));
    v.push(entry(vec![":d"], Category::Files, "drop current file from set", Command::ColonPrompt, "drop-file"));
    v.push(entry(vec![":x"], Category::Files, "jump to first file", Command::ColonPrompt, "first-file"));
    v.push(entry(vec![":t"], Category::Files, "jump to last file", Command::ColonPrompt, "last-file"));
    v.push(entry(vec!["m<a-z>"], Category::Marks, "set mark to current position", Command::MarkSet, "mark-set"));
    v.push(entry(vec!["'<a-z>"], Category::Marks, "jump to mark", Command::MarkJump, "mark-jump"));
    v.push(entry(vec!["Ctrl-X Ctrl-X"], Category::Marks, "jump to previous position", Command::JumpPrevious, "jump-previous"));
    v.push(entry(vec!["Ctrl-]"], Category::Tags, "jump to tag (prompts for name)", Command::TagPrompt, "tag-prompt"));
    v.push(entry(vec!["Ctrl-T"], Category::Tags, "pop tag stack", Command::TagPop, "tag-pop"));
    v.push(entry(vec!["q", "Q", "Ctrl-C"], Category::Misc, "quit", Command::Quit, "quit"));
    v.push(entry(vec!["r", "Ctrl-L"], Category::Misc, "refresh screen", Command::Refresh, "refresh"));
    v.push(entry(vec!["R"], Category::Misc, "reload source from disk", Command::Reload, "reload"));
    v.push(entry(vec!["F"], Category::Misc, "toggle follow mode", Command::ToggleFollow, "toggle-follow"));
    v.push(entry(vec!["P"], Category::Misc, "toggle prettify", Command::TogglePrettify, "toggle-prettify"));
    v.push(entry(vec!["-"], Category::Misc, "option-toggle prefix (N=lines, S=chop, F=follow)", Command::OptionPrefix, "option-prefix"));
    v.push(entry(vec!["!"], Category::Misc, "shell escape (run external command)", Command::ShellEscape, "shell-escape"));
    v.push(entry(vec![":"], Category::Misc, "colon command prompt", Command::ColonPrompt, "colon-prompt"));
    v.push(entry(vec!["0", "1-9"], Category::Misc, "numeric prefix (e.g. 5G jumps to record 5)", Command::Digit(0), "digit-prefix"));
    v.push(entry(vec!["Esc"], Category::Misc, "cancel pending numeric prefix or command", Command::Cancel, "cancel"));
    v.push(entry(vec![":help", ":h", "F1"], Category::Misc, "open this help overlay", Command::OpenHelp, "open-help"));
    proof {
        assert forall|i: int| 0 <= i < v@.len() implies entry_view(#[trigger] v@[i]) == registry_table()[i] by {
            assert(entry_view(v@[i]).0 =~= registry_table()[i].0);
        }
    }
    v
}


/// The key event a registry key names, read as the help shows it: a single
/// character is that key (an uppercase letter with Shift, an arrow its
/// arrow key); `Ctrl-` and one character is that key, in lower case, with
/// Ctrl; `F1`..`F9` are the function keys; `Enter`, `Esc`, `Space`, `Tab`,
/// `Backspace`, `PgUp`, `PgDn`, `Home` and `End` are those keys. Anything
/// else (a colon command, a key sequence, a range) names no single key.
pub open spec fn registry_key(k: Seq<char>) -> Option<KeyEvent> {
    let plain = |code: KeyCode| Some(KeyEvent { code, modifiers: MOD_NONE });
    if k.len() == 1 {
        let c = k[0];
        if c == '\u{2191}' { plain(KeyCode::Up) }
        else if c == '\u{2193}' { plain(KeyCode::Down) }
        else if c == '\u{2190}' { plain(KeyCode::Left) }
        else if c == '\u{2192}' { plain(KeyCode::Right) }
        else if is_ascii_upper(c) { Some(KeyEvent { code: KeyCode::Char(c), modifiers: MOD_SHIFT }) }
        else { plain(KeyCode::Char(c)) }
    } else if k.len() == 6 && k.take(5) == "Ctrl-"@ {
        Some(KeyEvent { code: KeyCode::Char(ascii_lower_char(k[5])), modifiers: MOD_CONTROL })
    } else if k.len() == 2 && k[0] == 'F' && '1' <= k[1] && k[1] <= '9' {
        plain(KeyCode::F(((k[1] as u32) - 48) as u8))
    } else if k == "Enter"@ { plain(KeyCode::Enter) }
    else if k == "Esc"@ { plain(KeyCode::Esc) }
    else if k == "Space"@ { plain(KeyCode::Char(' ')) }
    else if k == "Tab"@ { plain(KeyCode::Tab) }
    else if k == "Backspace"@ { plain(KeyCode::Backspace) }
    else if k == "PgUp"@ { plain(KeyCode::PageUp) }
    else if k == "PgDn"@ { plain(KeyCode::PageDown) }
    else if k == "Home"@ { plain(KeyCode::Home) }
    else if k == "End"@ { plain(KeyCode::End) }
    else { None }
}

/// A registry key, pressed, runs the command: the key event it names
/// translates to `cmd` by the default bindings (only Ctrl among the
/// modifiers counts). A key that names no single key event is not pressed.
pub open spec fn key_reaches(k: Seq<char>, cmd: Command) -> bool {
    match registry_key(k) {
        Some(ke) => translate_spec(ke.code, has_mod(ke.modifiers, MOD_CONTROL)) == cmd,
        None => true,
    }
}

proof fn lemma_registry_keys_reach()
    ensures
        key_reaches("j"@, Command::ScrollLines(1i64)),
        key_reaches("↓"@, Command::ScrollLines(1i64)),
        key_reaches("e"@, Command::ScrollLines(1i64)),
        key_reaches("Enter"@, Command::ScrollLines(1i64)),
        key_reaches("k"@, Command::ScrollLines(-1i64)),
        key_reaches("↑"@, Command::ScrollLines(-1i64)),
        key_reaches("y"@, Command::ScrollLines(-1i64)),
        key_reaches("J"@, Command::ScrollLogicalLines(1i64)),
        key_reaches("K"@, Command::ScrollLogicalLines(-1i64)),
        key_reaches("Space"@, Command::PageDown),
        key_reaches("f"@, Command::PageDown),
        key_reaches("Ctrl-F"@, Command::PageDown),
        key_reaches("PgDn"@, Command::PageDown),
        key_reaches("b"@, Command::PageUp),
        key_reaches("Ctrl-B"@, Command::PageUp),
        key_reaches("PgUp"@, Command::PageUp),
        key_reaches("d"@, Command::HalfPageDown),
        key_reaches("Ctrl-D"@, Command::HalfPageDown),
        key_reaches("u"@, Command::HalfPageUp),
        key_reaches("Ctrl-U"@, Command::HalfPageUp),
        key_reaches("g"@, Command::GotoLine),
        key_reaches("<"@, Command::GotoLine),
        key_reaches("Home"@, Command::GotoLine),
        key_reaches("G"@, Command::GotoRecord),
        key_reaches(">"@, Command::GotoRecord),
        key_reaches("End"@, Command::GotoRecord),
        key_reaches("%"@, Command::GotoPercent),
        key_reaches("/"@, Command::SearchForward),
        key_reaches("?"@, Command::SearchBackward),
        key_reaches("n"@, Command::NextMatch),
        key_reaches("N"@, Command::PreviousMatch),
        key_reaches(":n"@, Command::ColonPrompt),
        key_reaches(":p"@, Command::ColonPrompt),
        key_reaches(":b"@, Command::OpenPicker),
        key_reaches(":buffers"@, Command::OpenPicker),
        key_reaches(":e PATH"@, Command::ColonPrompt),
        key_reaches(":d"@, Command::ColonPrompt),
        key_reaches(":x"@, Command::ColonPrompt),
        key_reaches(":t"@, Command::ColonPrompt),
        key_reaches("m<a-z>"@, Command::MarkSet),
        key_reaches("'<a-z>"@, Command::MarkJump),
        key_reaches("Ctrl-X Ctrl-X"@, Command::JumpPrevious),
        key_reaches("Ctrl-]"@, Command::TagPrompt),
        key_reaches("Ctrl-T"@, Command::TagPop),
        key_reaches("q"@, Command::Quit),
        key_reaches("Q"@, Command::Quit),
        key_reaches("Ctrl-C"@, Command::Quit),
        key_reaches("r"@, Command::Refresh),
        key_reaches("Ctrl-L"@, Command::Refresh),
        key_reaches("R"@, Command::Reload),
        key_reaches("F"@, Command::ToggleFollow),
        key_reaches("P"@, Command::TogglePrettify),
        key_reaches("-"@, Command::OptionPrefix),
        key_reaches("!"@, Command::ShellEscape),
        key_reaches(":"@, Command::ColonPrompt),
        key_reaches("0"@, Command::Digit(0u8)),
        key_reaches("1-9"@, Command::Digit(0u8)),
        key_reaches("Esc"@, Command::Cancel),
        key_reaches(":help"@, Command::OpenHelp),
        key_reaches(":h"@, Command::OpenHelp),
        key_reaches("F1"@, Command::OpenHelp),
{
    reveal_strlit("j");
    reveal_strlit("↓");
    reveal_strlit("e");
    reveal_strlit("Enter");
    reveal_strlit("k");
    reveal_strlit("↑");
    reveal_strlit("y");
    reveal_strlit("J");
    reveal_strlit("K");
    reveal_strlit("Space");
    reveal_strlit("f");
    reveal_strlit("Ctrl-F");
    reveal_strlit("PgDn");
    reveal_strlit("b");
    reveal_strlit("Ctrl-B");
    reveal_strlit("PgUp");
    reveal_strlit("d");
    reveal_strlit("Ctrl-D");
    reveal_strlit("u");
    reveal_strlit("Ctrl-U");
    reveal_strlit("g");
    reveal_strlit("<");
    reveal_strlit("Home");
    reveal_strlit("G");
    reveal_strlit(">");
    reveal_strlit("End");
    reveal_strlit("%");
    reveal_strlit("/");
    reveal_strlit("?");
    reveal_strlit("n");
    reveal_strlit("N");
    reveal_strlit(":n");
    reveal_strlit(":p");
    reveal_strlit(":b");
    reveal_strlit(":buffers");
    reveal_strlit(":e PATH");
    reveal_strlit(":d");
    reveal_strlit(":x");
    reveal_strlit(":t");
    reveal_strlit("m<a-z>");
    reveal_strlit("'<a-z>");
    reveal_strlit("Ctrl-X Ctrl-X");
    reveal_strlit("Ctrl-]");
    reveal_strlit("Ctrl-T");
    reveal_strlit("q");
    reveal_strlit("Q");
    reveal_strlit("Ctrl-C");
    reveal_strlit("r");
    reveal_strlit("Ctrl-L");
    reveal_strlit("R");
    reveal_strlit("F");
    reveal_strlit("P");
    reveal_strlit("-");
    reveal_strlit("!");
    reveal_strlit(":");
    reveal_strlit("0");
    reveal_strlit("1-9");
    reveal_strlit("Esc");
    reveal_strlit(":help");
    reveal_strlit(":h");
    reveal_strlit("F1");
    reveal_strlit("Ctrl-");
    reveal_strlit("Tab");
    reveal_strlit("Backspace");
    assert(0u8 & 2u8 == 0 && 1u8 & 2u8 == 0 && 2u8 & 2u8 != 0) by (bit_vector);
    assert("PgDn"@ != "PgUp"@) by { assert("PgDn"@[2] != "PgUp"@[2]); }
    assert("m<a-z>"@.take(5) != "Ctrl-"@) by { assert("m<a-z>"@.take(5)[0] != "Ctrl-"@[0]); }
    assert("'<a-z>"@.take(5) != "Ctrl-"@) by { assert("'<a-z>"@.take(5)[0] != "Ctrl-"@[0]); }
    assert("Ctrl-F"@.take(5) =~= "Ctrl-"@);
    assert("Ctrl-B"@.take(5) =~= "Ctrl-"@);
    assert("Ctrl-D"@.take(5) =~= "Ctrl-"@);
    assert("Ctrl-U"@.take(5) =~= "Ctrl-"@);
    assert("Ctrl-]"@.take(5) =~= "Ctrl-"@);
    assert("Ctrl-T"@.take(5) =~= "Ctrl-"@);
    assert("Ctrl-C"@.take(5) =~= "Ctrl-"@);
    assert("Ctrl-L"@.take(5) =~= "Ctrl-"@);
}

/// Every key the help lists for a binding runs that binding's command: for
/// each registry entry, each of its keys that names a single key event
/// translates to the entry's command (so `k` scrolls up and `Ctrl-F` pages
/// down, as the help says).
pub proof fn lemma_registry_matches_translate()
    ensures
        forall|i: int, j: int| 0 <= i < registry_table().len() && 0 <= j < registry_table()[i].0.len()
            ==> key_reaches(#[trigger] registry_table()[i].0[j], registry_table()[i].3),
{
    lemma_registry_keys_reach();
    let t = registry_table();
    assert forall|i: int, j: int| 0 <= i < t.len() && 0 <= j < t[i].0.len()
        implies key_reaches(#[trigger] t[i].0[j], t[i].3) by {
        if i == 0 {
            assert(t[0].0 == seq!["j"@, "↓"@, "e"@, "Enter"@]);
        }
        else if i == 1 {
            assert(t[1].0 == seq!["k"@, "↑"@, "y"@]);
        }
        else if i == 2 {
            assert(t[2].0 == seq!["J"@]);
        }
        else if i == 3 {
            assert(t[3].0 == seq!["K"@]);
        }
        else if i == 4 {
            assert(t[4].0 == seq!["Space"@, "f"@, "Ctrl-F"@, "PgDn"@]);
        }
        else if i == 5 {
            assert(t[5].0 == seq!["b"@, "Ctrl-B"@, "PgUp"@]);
        }
        else if i == 6 {
            assert(t[6].0 == seq!["d"@, "Ctrl-D"@]);
        }
        else if i == 7 {
            assert(t[7].0 == seq!["u"@, "Ctrl-U"@]);
        }
        else if i == 8 {
            assert(t[8].0 == seq!["g"@, "<"@, "Home"@]);
        }
        else if i == 9 {
            assert(t[9].0 == seq!["G"@, ">"@, "End"@]);
        }
        else if i == 10 {
            assert(t[10].0 == seq!["%"@]);
        }
        else if i == 11 {
            assert(t[11].0 == seq!["/"@]);
        }
        else if i == 12 {
            assert(t[12].0 == seq!["?"@]);
        }
        else if i == 13 {
            assert(t[13].0 == seq!["n"@]);
        }
        else if i == 14 {
            assert(t[14].0 == seq!["N"@]);
        }
        else if i == 15 {
            assert(t[15].0 == seq![":n"@]);
        }
        else if i == 16 {
            assert(t[16].0 == seq![":p"@]);
        }
        else if i == 17 {
            assert(t[17].0 == seq![":b"@, ":buffers"@]);
        }
        else if i == 18 {
            assert(t[18].0 == seq![":e PATH"@]);
        }
        else if i == 19 {
            assert(t[19].0 == seq![":d"@]);
        }
        else if i == 20 {
            assert(t[20].0 == seq![":x"@]);
        }
        else if i == 21 {
            assert(t[21].0 == seq![":t"@]);
        }
        else if i == 22 {
            assert(t[22].0 == seq!["m<a-z>"@]);
        }
        else if i == 23 {
            assert(t[23].0 == seq!["'<a-z>"@]);
        }
        else if i == 24 {
            assert(t[24].0 == seq!["Ctrl-X Ctrl-X"@]);
        }
        else if i == 25 {
            assert(t[25].0 == seq!["Ctrl-]"@]);
        }
        else if i == 26 {
            assert(t[26].0 == seq!["Ctrl-T"@]);
        }
        else if i == 27 {
            assert(t[27].0 == seq!["q"@, "Q"@, "Ctrl-C"@]);
        }
        else if i == 28 {
            assert(t[28].0 == seq!["r"@, "Ctrl-L"@]);
        }
        else if i == 29 {
            assert(t[29].0 == seq!["R"@]);
        }
        else if i == 30 {
            assert(t[30].0 == seq!["F"@]);
        }
        else if i == 31 {
            assert(t[31].0 == seq!["P"@]);
        }
        else if i == 32 {
            assert(t[32].0 == seq!["-"@]);
        }
        else if i == 33 {
            assert(t[33].0 == seq!["!"@]);
        }
        else if i == 34 {
            assert(t[34].0 == seq![":"@]);
        }
        else if i == 35 {
            assert(t[35].0 == seq!["0"@, "1-9"@]);
        }
        else if i == 36 {
            assert(t[36].0 == seq!["Esc"@]);
        }
        else if i == 37 {
            assert(t[37].0 == seq![":help"@, ":h"@, "F1"@]);
        }
    }
}

/// The digit keys type the numeric prefix: `0` to `9` (without Ctrl) are
/// the digits 0 to 9, as the help's `0`, `1-9` entry says.
pub proof fn lemma_digit_keys()
    ensures
        forall|d: u8| d <= 9 ==> #[trigger] translate_spec(KeyCode::Char(digit_char(d)), false) == Command::Digit(d),
{
    assert forall|d: u8| d <= 9 implies #[trigger] translate_spec(KeyCode::Char(digit_char(d)), false) == Command::Digit(d) by {
        if d == 0 {} else if d == 1 {} else if d == 2 {} else if d == 3 {} else if d == 4 {}
        else if d == 5 {} else if d == 6 {} else if d == 7 {} else if d == 8 {} else {}
    }
}

/// The character of a decimal digit.
pub open spec fn digit_char(d: u8) -> char {
    if d == 0 { '0' } else if d == 1 { '1' } else if d == 2 { '2' } else if d == 3 { '3' }
    else if d == 4 { '4' } else if d == 5 { '5' } else if d == 6 { '6' } else if d == 7 { '7' }
    else if d == 8 { '8' } else { '9' }
}

} // verus!
