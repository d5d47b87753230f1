//! The manual page's GROUPS section: the names a group may not take, set
//! into the page that the command-line definition renders.

use vstd::prelude::*;
use crate::format::{reserved_group_names, reserved_names};
use crate::text::{chars_of, find_chars, first_occurrence, join, join_strings, push_chars, push_str, string_of, string_views};

verus! {

/// `n` with each `-` escaped for roff (`\-`), so that names such as
/// `chop-long-lines` render literally.
pub open spec fn escape_dashes(n: Seq<char>) -> Seq<char>
    decreases n.len(),
{
    if n.len() == 0 {
        Seq::empty()
    } else {
        escape_dashes(n.drop_last()) + (if n.last() == '-' { seq!['\\', '-'] } else { seq![n.last()] })
    }
}

/// A reserved name in bold.
pub open spec fn name_item(n: Seq<char>) -> Seq<char> {
    "\\fB"@ + escape_dashes(n) + "\\fR"@
}

/// The GROUPS section for the reserved `names`.
pub open spec fn groups_section(names: Seq<Seq<char>>) -> Seq<char> {
    ".SH GROUPS\nA CLI group (a \\fB\\-\\-<name>\\fR shortcut defined in \\fBformats.toml\\fR) cannot be named the same as a built\\-in flag. Reserved names: "@
        + join(names.map_values(|n: Seq<char>| name_item(n)), ", "@)
        + ". Attempting to load such a group prints an error and exits.\n"@
}

/// `text` with the GROUPS section set in before its `.SH VERSION` section,
/// or appended when there is none.
pub open spec fn with_groups_section(text: Seq<char>, section: Seq<char>) -> Seq<char> {
    match first_occurrence(text, ".SH VERSION"@) {
        Some(i) => text.take(i) + section + text.skip(i),
        None => text + section,
    }
}

/// Escape the dashes of a name.
fn escaped(n: &str) -> (r: Vec<char>)
    ensures
        r@ == escape_dashes(n@),
{
    let c = chars_of(n);
    let mut out: Vec<char> = Vec::new();
    let mut i: usize = 0;
    assert(c@.take(0) =~= Seq::<char>::empty());
    while i < c.len()
        invariant
            i <= c@.len(),
            c@ == n@,
            out@ == escape_dashes(c@.take(i as int)),
        decreases c@.len() - i,
    {
        let ch = c[i];
        if ch == '-' {
            out.push('\\');
            out.push('-');
        } else {
            out.push(ch);
        }
        assert(c@.take(i + 1).drop_last() =~= c@.take(i as int));
        i = i + 1;
        assert(out@ =~= escape_dashes(c@.take(i as int)));
    }
    assert(c@.take(c@.len() as int) =~= c@);
    out
}

/// Build the GROUPS section, listing the reserved group names, and set it
/// into `text` before `.SH VERSION` (or at the end when that section moved).
pub fn insert_groups_section(text: String) -> (r: String)
    ensures
        r@ == with_groups_section(text@, groups_section(reserved_names())),
{
    let names = reserved_group_names();
    let mut items: Vec<String> = Vec::new();
    let mut i: usize = 0;
    while i < names.len()
        invariant
            i <= names@.len(),
            names@.len() == reserved_names().len(),
            forall|k: int| 0 <= k < names@.len() ==> (#[trigger] names@[k])@ == reserved_names()[k],
            items@.len() == i,
            forall|k: int| 0 <= k < i ==> (#[trigger] items@[k])@ == name_item(reserved_names()[k]),
        decreases names@.len() - i,
    {
        let mut it: Vec<char> = Vec::new();
        push_str(&mut it, "\\fB");
        let e = escaped(names[i]);
        push_chars(&mut it, e.as_slice());
        push_str(&mut it, "\\fR");
        items.push(string_of(it.as_slice()));
        i = i + 1;
    }
    let list = join_strings(items.as_slice(), ", ");
    assert(string_views(items@) =~= reserved_names().map_values(|n: Seq<char>| name_item(n)));
    let mut sec: Vec<char> = Vec::new();
    push_str(&mut sec, ".SH GROUPS\nA CLI group (a \\fB\\-\\-<name>\\fR shortcut defined in \\fBformats.toml\\fR) cannot be named the same as a built\\-in flag. Reserved names: ");
    let lc = chars_of(list.as_str());
    push_chars(&mut sec, lc.as_slice());
    push_str(&mut sec, ". Attempting to load such a group prints an error and exits.\n");
    let tc = chars_of(text.as_str());
    let marker = chars_of(".SH VERSION");
    let mut out: Vec<char> = Vec::new();
    match find_chars(tc.as_slice(), marker.as_slice()) {
        Some(idx) => {
            let mut k: usize = 0;
            while k < idx
                invariant
                    k <= idx,
                    idx <= tc@.len(),
                    out@ == tc@.take(k as int),
                decreases idx - k,
            {
                out.push(tc[k]);
                k = k + 1;
                assert(out@ =~= tc@.take(k as int));
            }
            push_chars(&mut out, sec.as_slice());
            let ghost head = out@;
            let mut m = idx;
            while m < tc.len()
                invariant
                    idx <= m <= tc@.len(),
                    out@ == head + tc@.subrange(idx as int, m as int),
                decreases tc@.len() - m,
            {
                out.push(tc[m]);
                m = m + 1;
                assert(out@ =~= head + tc@.subrange(idx as int, m as int));
            }
            assert(tc@.subrange(idx as int, tc@.len() as int) =~= tc@.skip(idx as int));
        },
        None => {
            push_chars(&mut out, tc.as_slice());
            push_chars(&mut out, sec.as_slice());
        },
    }
    string_of(out.as_slice())
}

} // verus!
