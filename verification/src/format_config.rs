//! Groups and layouts from the two layers of `formats.toml` (global, then
//! the user's local one, which wins per name): names that would shadow a
//! built-in flag are refused, layouts are validated, and each entry is
//! promoted to a `Group`. Reading and parsing the files is the caller's
//! part; these functions take the parsed tables.

use vstd::prelude::*;
use crate::config_path::ConfigSource;
use crate::filter::{lex_compare, lex_order, Order};
use crate::format::{reserved_flag, is_reserved_flag, Group, Layout, StringHashMap};
use crate::text::{chars_of, decimal_chars, decimal_of, eq_lit, push_chars, push_str, string_of};

verus! {

/// A `[group.X.or.<name>]` table: a named OR-group's conditions.
pub struct OrSubGroup {
    pub filter: Vec<String>,
    pub grep: Vec<String>,
}

/// A `[group.X]` table (or a layout pane) as parsed.
pub struct GroupEntry {
    pub format: Option<String>,
    pub file: Option<String>,
    pub follow: Option<bool>,
    pub tail: Option<usize>,
    pub head: Option<usize>,
    pub dim: Option<bool>,
    pub line_numbers: Option<bool>,
    pub chop: Option<bool>,
    pub tab_width: Option<u8>,
    pub display: Option<String>,
    pub filter: Vec<String>,
    pub grep: Vec<String>,
    pub or_filter: Vec<String>,
    pub or_grep: Vec<String>,
    /// The named OR-groups, by name.
    pub or: Vec<(String, OrSubGroup)>,
}

/// A `[layout.X]` table as parsed: an orientation and its panes.
pub struct LayoutEntry {
    pub orientation: Option<String>,
    pub pane: Vec<GroupEntry>,
}

// ---------------------------------------------------------------------------
// Promotion.
// ---------------------------------------------------------------------------

/// One named OR-group as a group holds it.
pub type OrNamed = (String, Vec<String>, Vec<String>);

/// The names of named OR-groups.
pub open spec fn or_names(v: Seq<OrNamed>) -> Seq<Seq<char>> {
    v.map_values(|e: OrNamed| e.0@)
}

/// `a` does not come after `b` in lexicographic order.
#[verifier::opaque]
pub open spec fn name_le(a: Seq<char>, b: Seq<char>) -> bool {
    lex_order(a, b) != Order::Greater
}

/// Each name is at most the next one.
pub open spec fn names_sorted(n: Seq<Seq<char>>) -> bool {
    forall|i: int| 0 <= i < n.len() - 1 ==> name_le(#[trigger] n[i], n[i + 1])
}

/// The OR-groups are in order of their names.
pub open spec fn sorted_by_name(v: Seq<OrNamed>) -> bool {
    names_sorted(or_names(v))
}

/// `out` holds the elements of `v`, each once, reordered.
pub open spec fn is_permutation<T>(out: Seq<T>, v: Seq<T>) -> bool {
    exists|p: Seq<int>| #[trigger] permutes(p, out, v)
}

/// `p` maps each position of `out` to the position of `v` it came from.
pub open spec fn permutes<T>(p: Seq<int>, out: Seq<T>, v: Seq<T>) -> bool {
    &&& p.len() == out.len() == v.len()
    &&& forall|k: int| 0 <= k < p.len() ==> 0 <= #[trigger] p[k] < v.len() && out[k] == v[p[k]]
    &&& forall|k: int, l: int| 0 <= k < l < p.len() ==> p[k] != p[l]
}

/// The OR-groups of an entry as (name, filters, greps).
pub open spec fn or_flat(or: Seq<(String, OrSubGroup)>) -> Seq<OrNamed> {
    or.map_values(|e: (String, OrSubGroup)| (e.0, e.1.filter, e.1.grep))
}

/// `g` is `e` promoted under `name`: the name, the entry's settings with
/// unset switches off, and the named OR-groups sorted by name.
pub open spec fn promoted(g: Group, name: Seq<char>, e: GroupEntry) -> bool {
    &&& g.name@ == name
    &&& g.format == e.format
    &&& g.file == e.file
    &&& g.follow == (e.follow == Some(true))
    &&& g.tail == e.tail
    &&& g.head == e.head
    &&& g.dim == (e.dim == Some(true))
    &&& g.line_numbers == (e.line_numbers == Some(true))
    &&& g.chop == (e.chop == Some(true))
    &&& g.tab_width == e.tab_width
    &&& g.display == e.display
    &&& g.filter == e.filter
    &&& g.grep == e.grep
    &&& g.or_filter == e.or_filter
    &&& g.or_grep == e.or_grep
    &&& sorted_by_name(g.or_named@)
    &&& is_permutation(g.or_named@, or_flat(e.or@))
}

/// Promote a parsed entry to a group named `name`; the layer fields are
/// left at built-in and are the caller's to set.
pub fn promote_group(name: String, entry: GroupEntry) -> (g: Group)
    ensures
        promoted(g, name@, entry),
        g.source == ConfigSource::Builtin,
        g.overrides is None,
{
    let ghost e = entry;
    let GroupEntry {
        format, file, follow, tail, head, dim, line_numbers, chop, tab_width, display,
        filter, grep, or_filter, or_grep, or,
    } = entry;
    let or_named = sort_or_groups(or);
    Group {
        name,
        format,
        file,
        follow: match follow { Some(b) => b, None => false },
        tail,
        head,
        dim: match dim { Some(b) => b, None => false },
        line_numbers: match line_numbers { Some(b) => b, None => false },
        chop: match chop { Some(b) => b, None => false },
        tab_width,
        display,
        filter,
        grep,
        or_filter,
        or_grep,
        or_named,
        source: ConfigSource::Builtin,
        overrides: None,
    }
}

/// The named OR-groups flattened and sorted by name (stable: equal names
/// keep their order).
fn sort_or_groups(or: Vec<(String, OrSubGroup)>) -> (v: Vec<OrNamed>)
    ensures
        sorted_by_name(v@),
        is_permutation(v@, or_flat(or@)),
{
    let ghost flat = or_flat(or@);
    let mut rest = or;
    let mut out: Vec<OrNamed> = Vec::new();
    let ghost mut perm: Seq<int> = Seq::empty();
    let n = rest.len();
    let mut j: usize = 0;
    while j < n
        invariant
            j <= n,
            n == flat.len(),
            rest@.len() == n - j,
            forall|k: int| 0 <= k < n - j ==> (#[trigger] or_flat(rest@)[k]) == flat[j + k],
            out@.len() == j,
            sorted_by_name(out@),
            perm.len() == j,
            forall|k: int| 0 <= k < j ==> 0 <= #[trigger] perm[k] < j && out@[k] == flat[perm[k]],
            forall|k: int, l: int| 0 <= k < l < j ==> perm[k] != perm[l],
        decreases n - j,
    {
        let ghost r0 = or_flat(rest@);
        let (name, sub) = rest.remove(0);
        let ghost r1 = or_flat(rest@);
        assert forall|k: int| 0 <= k < n - j - 1 implies #[trigger] r1[k] == flat[j + 1 + k] by {
            assert(r1[k] == r0[k + 1]);
        }
        let item: OrNamed = (name, sub.filter, sub.grep);
        assert(item == flat[j as int]) by {
            assert(r0[0] == flat[j as int]);
        }
        // Find where the item goes: after every element not greater than it.
        let mut p = out.len();
        let mut stop = false;
        while p > 0 && !stop
            invariant
                p <= out@.len(),
                p < out@.len() ==> name_le(item.0@, out@[p as int].0@),
                stop ==> p > 0 && name_le(out@[p - 1].0@, item.0@),
            decreases p + (if stop { 0int } else { 1int }),
        {
            let c = lex_compare(out[p - 1].0.as_str(), item.0.as_str());
            proof {
                lemma_name_le_of(out@[p - 1].0@, item.0@, c);
            }
            if c != Order::Greater {
                stop = true;
            } else {
                p = p - 1;
            }
        }
        let ghost before = out@;
        proof {
            if p < before.len() {
                assert(or_names(before)[p as int] == before[p as int].0@);
            }
            if p > 0 {
                assert(or_names(before)[p - 1] == before[p - 1].0@);
            }
            lemma_insert_sorted(or_names(before), item.0@, p as int);
            assert(or_names(before.insert(p as int, item)) =~= or_names(before).insert(p as int, item.0@));
        }
        assert(item == flat[j as int]);
        out.insert(p, item);
        proof {
            lemma_perm_insert(before, flat, perm, p as int, j as int, item);
            perm = perm.insert(p as int, j as int);
        }
        j = j + 1;
    }
    proof {
        assert(permutes(perm, out@, flat));
    }
    out
}

/// Inserting after every name not greater than `x`, and before a name
/// greater than it, keeps neighbours in order.
proof fn lemma_insert_sorted(n: Seq<Seq<char>>, x: Seq<char>, p: int)
    requires
        names_sorted(n),
        0 <= p <= n.len(),
        p > 0 ==> name_le(n[p - 1], x),
        p < n.len() ==> name_le(x, n[p]),
    ensures
        names_sorted(n.insert(p, x)),
{
    let w = n.insert(p, x);
    assert forall|i: int| 0 <= i < w.len() - 1 implies name_le(#[trigger] w[i], w[i + 1]) by {
        if i + 1 < p {
            assert(w[i] == n[i] && w[i + 1] == n[i + 1]);
        } else if i + 1 == p {
            assert(w[i] == n[p - 1] && w[i + 1] == x);
        } else if i == p {
            assert(w[i] == x && w[i + 1] == n[p]);
        } else {
            assert(w[i] == n[i - 1] && w[i + 1] == n[i]);
        }
    }
}

/// What the comparison found, as the order the sort keeps.
proof fn lemma_name_le_of(a: Seq<char>, b: Seq<char>, o: Order)
    requires
        o == lex_order(a, b),
    ensures
        o != Order::Greater ==> name_le(a, b),
        o == Order::Greater ==> name_le(b, a),
{
    reveal(name_le);
    if o == Order::Greater {
        lemma_lex_flip(a, b);
    }
}

/// Inserting the next input element keeps the position map a permutation.
proof fn lemma_perm_insert(before: Seq<OrNamed>, flat: Seq<OrNamed>, perm: Seq<int>, p: int, j: int, item: OrNamed)
    requires
        0 <= p <= before.len(),
        before.len() == j,
        j < flat.len(),
        item == flat[j],
        perm.len() == j,
        forall|k: int| 0 <= k < j ==> 0 <= #[trigger] perm[k] < j && before[k] == flat[perm[k]],
        forall|k: int, l: int| 0 <= k < l < j ==> perm[k] != perm[l],
    ensures
        perm.insert(p, j).len() == j + 1,
        forall|k: int| 0 <= k < j + 1 ==> 0 <= #[trigger] perm.insert(p, j)[k] < j + 1
            && before.insert(p, item)[k] == flat[perm.insert(p, j)[k]],
        forall|k: int, l: int| 0 <= k < l < j + 1 ==> perm.insert(p, j)[k] != perm.insert(p, j)[l],
{
    let np = perm.insert(p, j);
    let out = before.insert(p, item);
    assert forall|k: int| 0 <= k < j + 1 implies 0 <= #[trigger] np[k] < j + 1 && out[k] == flat[np[k]] by {
        if k < p {
            assert(np[k] == perm[k] && out[k] == before[k]);
        } else if k == p {
            assert(np[k] == j && out[k] == item);
        } else {
            assert(np[k] == perm[k - 1] && out[k] == before[k - 1]);
        }
    }
    assert forall|k: int, l: int| 0 <= k < l < j + 1 implies np[k] != np[l] by {
        if l < p {
            assert(np[k] == perm[k] && np[l] == perm[l]);
        } else if l == p {
            assert(np[k] == perm[k]);
        } else if k < p {
            assert(np[k] == perm[k] && np[l] == perm[l - 1]);
        } else if k == p {
            assert(np[l] == perm[l - 1]);
        } else {
            assert(np[k] == perm[k - 1] && np[l] == perm[l - 1]);
        }
    }
}

/// Greater one way is less the other way.
proof fn lemma_lex_flip(a: Seq<char>, b: Seq<char>)
    requires
        lex_order(a, b) == Order::Greater,
    ensures
        lex_order(b, a) == Order::Less,
    decreases a.len(),
{
    if a.len() > 0 && b.len() > 0 && (a[0] as u32) == (b[0] as u32) {
        lemma_lex_flip(a.skip(1), b.skip(1));
    }
}

// ---------------------------------------------------------------------------
// Layering.
// ---------------------------------------------------------------------------

/// A staged entry: the entry, its layer, and the layer it replaced.
pub type Staged<T> = (T, ConfigSource, Option<ConfigSource>);

/// Stage a layer's entries in order over `m`: each name maps to its entry
/// and layer; an entry of the local layer records the layer it replaced.
pub open spec fn stage<T>(m: Map<Seq<char>, Staged<T>>, entries: Seq<(String, T)>, src: ConfigSource) -> Map<Seq<char>, Staged<T>>
    decreases entries.len(),
{
    if entries.len() == 0 {
        m
    } else {
        let m1 = stage(m, entries.drop_last(), src);
        let k = entries.last().0@;
        let ov = if src == ConfigSource::Local && m1.contains_key(k) { Some(m1[k].1) } else { None };
        m1.insert(k, (entries.last().1, src, ov))
    }
}

/// Both layers staged: global first, then local, which wins per name.
pub open spec fn layered<T>(global: Seq<(String, T)>, local: Seq<(String, T)>) -> Map<Seq<char>, Staged<T>> {
    stage(stage(Map::empty(), global, ConfigSource::Global), local, ConfigSource::Local)
}

/// The staging table agrees with the map `m`: its names are `m`'s, each
/// once, with `m`'s entries; `keys` finds each name's row.
pub open spec fn staging_ok<T>(keys: Map<Seq<char>, usize>, rows: Seq<(String, T, ConfigSource, Option<ConfigSource>)>, m: Map<Seq<char>, Staged<T>>) -> bool {
    &&& keys.dom() == m.dom()
    &&& forall|k: Seq<char>| #[trigger] keys.contains_key(k) ==> {
        let i = keys[k] as int;
        &&& 0 <= i < rows.len()
        &&& rows[i].0@ == k
        &&& (rows[i].1, rows[i].2, rows[i].3) == m[k]
    }
    &&& forall|i: int| 0 <= i < rows.len() ==> keys.contains_key((#[trigger] rows[i]).0@) && keys[rows[i].0@] == i
}

/// Stage one layer's entries over the table.
fn stage_layer<T>(keys: &mut StringHashMap<usize>, rows: &mut Vec<(String, T, ConfigSource, Option<ConfigSource>)>, entries: Vec<(String, T)>, src: ConfigSource, Ghost(m): Ghost<Map<Seq<char>, Staged<T>>>)
    requires
        staging_ok(old(keys)@, old(rows)@, m),
    ensures
        staging_ok(final(keys)@, final(rows)@, stage(m, entries@, src)),
{
    let ghost all = entries@;
    let mut rest = entries;
    let n = rest.len();
    let mut j: usize = 0;
    while j < n
        invariant
            j <= n,
            n == all.len(),
            rest@.len() == n - j,
            forall|k: int| 0 <= k < n - j ==> #[trigger] rest@[k] == all[j + k],
            staging_ok(keys@, rows@, stage(m, all.take(j as int), src)),
        decreases n - j,
    {
        let ghost cur = stage(m, all.take(j as int), src);
        let (name, entry) = rest.remove(0);
        assert(all.take(j + 1).drop_last() =~= all.take(j as int));
        assert(all.take(j + 1).last() == all[j as int]);
        let found = match keys.get(name.as_str()) {
            Some(i) => Some(*i),
            None => None,
        };
        match found {
            Some(i) => {
                let ov = if src == ConfigSource::Local { Some(rows[i].2) } else { None };
                assert(ov == (if src == ConfigSource::Local && cur.contains_key(name@) { Some(cur[name@].1) } else { None }));
                rows.set(i, (name, entry, src, ov));
                proof {
                    let nm = stage(m, all.take(j + 1), src);
                    assert forall|k: Seq<char>| #[trigger] keys@.contains_key(k) implies {
                        let x = keys@[k] as int;
                        &&& 0 <= x < rows@.len()
                        &&& rows@[x].0@ == k
                        &&& (rows@[x].1, rows@[x].2, rows@[x].3) == nm[k]
                    } by {
                        if k != all[j as int].0@ {
                            assert(keys@[k] != i);
                        }
                    }
                    assert(keys@.dom() =~= nm.dom());
                }
            },
            None => {
                let i = rows.len();
                rows.push((name, entry, src, None));
                let key = rows[i].0.clone();
                keys.insert(key, i);
                proof {
                    let nm = stage(m, all.take(j + 1), src);
                    assert(keys@.dom() =~= nm.dom());
                    assert forall|x: int| 0 <= x < rows@.len() implies keys@.contains_key((#[trigger] rows@[x]).0@) && keys@[rows@[x].0@] == x by {
                        if x < i {
                            assert(rows@[x].0@ != rows@[i as int].0@);
                        }
                    }
                }
            },
        }
        j = j + 1;
    }
    assert(all.take(n as int) =~= all);
}

/// The error for a group named like a built-in flag.
pub open spec fn group_collision_text(name: Seq<char>) -> Seq<char> {
    "group `"@ + name + "`: name collides with built-in --"@ + name + " flag"@
}

/// Load the groups of the global and local layers (local wins per name):
/// refuse any named like a built-in flag, else promote each, noting its
/// layer and the layer it replaced.
pub fn load_groups(global: Vec<(String, GroupEntry)>, local: Vec<(String, GroupEntry)>) -> (r: Result<StringHashMap<Group>, String>)
    ensures
        r is Ok <==> forall|k: Seq<char>| #[trigger] layered(global@, local@).contains_key(k) ==> !reserved_flag(k),
        r matches Err(m) ==> exists|k: Seq<char>| #[trigger] layered(global@, local@).contains_key(k) && reserved_flag(k)
            && m@ == group_collision_text(k),
        r matches Ok(map) ==> map@.dom() == layered(global@, local@).dom() && forall|k: Seq<char>| #[trigger] map@.contains_key(k) ==> {
            let st = layered(global@, local@)[k];
            &&& promoted(map@[k], k, st.0)
            &&& map@[k].source == st.1
            &&& map@[k].overrides == st.2
        },
{
    let ghost lay = layered(global@, local@);
    let mut keys: StringHashMap<usize> = StringHashMap::new();
    let mut rows: Vec<(String, GroupEntry, ConfigSource, Option<ConfigSource>)> = Vec::new();
    let ghost m0 = Map::<Seq<char>, Staged<GroupEntry>>::empty();
    proof {
        assert(keys@.dom() =~= m0.dom());
    }
    stage_layer(&mut keys, &mut rows, global, ConfigSource::Global, Ghost(m0));
    let ghost m1 = stage(m0, global@, ConfigSource::Global);
    stage_layer(&mut keys, &mut rows, local, ConfigSource::Local, Ghost(m1));
    let ghost rows0 = rows@;
    let mut out: StringHashMap<Group> = StringHashMap::new();
    let n = rows.len();
    let mut j: usize = 0;
    while j < n
        invariant
            j <= n,
            n == rows0.len(),
            lay == layered(global@, local@),
            staging_ok(keys@, rows0, lay),
            rows@.len() == n - j,
            forall|k: int| 0 <= k < n - j ==> #[trigger] rows@[k] == rows0[j + k],
            forall|k: int| 0 <= k < j ==> !reserved_flag((#[trigger] rows0[k]).0@),
            forall|k: Seq<char>| #[trigger] out@.contains_key(k) <==> exists|x: int| 0 <= x < j && rows0[x].0@ == k,
            forall|k: Seq<char>| #[trigger] out@.contains_key(k) ==> {
                let st = lay[k];
                &&& promoted(out@[k], k, st.0)
                &&& out@[k].source == st.1
                &&& out@[k].overrides == st.2
            },
        decreases n - j,
    {
        let (name, entry, src, ov) = rows.remove(0);
        let ghost x = j as int;
        assert(rows0[x].0 == name);
        if is_reserved_flag(name.as_str()) {
            let mut msg: Vec<char> = Vec::new();
            let nc = chars_of(name.as_str());
            push_str(&mut msg, "group `");
            push_chars(&mut msg, nc.as_slice());
            push_str(&mut msg, "`: name collides with built-in --");
            push_chars(&mut msg, nc.as_slice());
            push_str(&mut msg, " flag");
            proof {
                assert(keys@.contains_key(name@));
                assert(lay.contains_key(name@));
                assert(msg@ == group_collision_text(name@));
            }
            return Err(string_of(msg.as_slice()));
        }
        let key = name.clone();
        let mut g = promote_group(name, entry);
        g.source = src;
        g.overrides = ov;
        proof {
            assert(keys@.contains_key(key@) && keys@[key@] == x);
        }
        out.insert(key, g);
        j = j + 1;
    }
    proof {
        assert forall|k: Seq<char>| #[trigger] lay.contains_key(k) implies !reserved_flag(k) by {
            assert(keys@.contains_key(k));
            let x = keys@[k] as int;
            assert(rows0[x].0@ == k);
        }
        assert(out@.dom() =~= lay.dom()) by {
            assert forall|k: Seq<char>| lay.contains_key(k) implies out@.contains_key(k) by {
                assert(keys@.contains_key(k));
                let x = keys@[k] as int;
                assert(rows0[x].0@ == k);
            }
        }
    }
    Ok(out)
}

/// The name of pane `i` of layout `layout`.
pub open spec fn pane_name(layout: Seq<char>, i: int) -> Seq<char> {
    layout + ".pane"@ + decimal_of(i as nat)
}

/// The first pane that names no file.
pub open spec fn first_paneless(panes: Seq<GroupEntry>) -> Option<int>
    decreases panes.len(),
{
    if panes.len() == 0 {
        None
    } else {
        match first_paneless(panes.drop_last()) {
            Some(i) => Some(i),
            None => if panes.last().file is None { Some(panes.len() - 1) } else { None },
        }
    }
}

/// Whether an orientation is horizontal: absent or `vertical` is not,
/// `horizontal` is, anything else is no orientation.
pub open spec fn orientation_of(o: Option<String>) -> Option<bool> {
    match o {
        None => Some(false),
        Some(s) => if s@ == "vertical"@ {
            Some(false)
        } else if s@ == "horizontal"@ {
            Some(true)
        } else {
            None
        },
    }
}

/// What is wrong with layout `name`, checked in this order: a name that
/// shadows a built-in flag, a bad orientation, no panes, a pane without a
/// file.
pub open spec fn layout_error(name: Seq<char>, e: LayoutEntry) -> Option<Seq<char>> {
    if reserved_flag(name) {
        Some("layout `"@ + name + "`: name collides with built-in --"@ + name + " flag"@)
    } else if orientation_of(e.orientation) is None {
        Some("layout `"@ + name + "`: bad orientation `"@ + e.orientation.unwrap()@ + "` (expected vertical or horizontal)"@)
    } else if e.pane@.len() == 0 {
        Some("layout `"@ + name + "`: needs at least one pane"@)
    } else {
        match first_paneless(e.pane@) {
            Some(i) => Some("layout `"@ + name + "` pane "@ + decimal_of(i as nat) + ": missing `file`"@),
            None => None,
        }
    }
}

/// `l` is the valid layout entry `e` named `name`, its panes promoted.
pub open spec fn layout_built(l: Layout, name: Seq<char>, e: LayoutEntry) -> bool {
    &&& l.name@ == name
    &&& Some(l.horizontal) == orientation_of(e.orientation)
    &&& l.panes@.len() == e.pane@.len()
    &&& forall|i: int| 0 <= i < l.panes@.len() ==> promoted(#[trigger] l.panes@[i], pane_name(name, i), e.pane@[i])
}

/// Load the layouts of the global and local layers (local wins per name):
/// refuse a layout that shadows a built-in flag, has a bad orientation, no
/// pane, or a pane without a file; else build each, its panes promoted to
/// groups named `<layout>.pane<i>`.
pub fn load_layouts(global: Vec<(String, LayoutEntry)>, local: Vec<(String, LayoutEntry)>) -> (r: Result<StringHashMap<Layout>, String>)
    ensures
        r is Ok <==> forall|k: Seq<char>| #[trigger] layered(global@, local@).contains_key(k)
            ==> layout_error(k, layered(global@, local@)[k].0) is None,
        r matches Err(m) ==> exists|k: Seq<char>| #[trigger] layered(global@, local@).contains_key(k)
            && layout_error(k, layered(global@, local@)[k].0) == Some(m@),
        r matches Ok(map) ==> map@.dom() == layered(global@, local@).dom() && forall|k: Seq<char>| #[trigger] map@.contains_key(k)
            ==> layout_built(map@[k], k, layered(global@, local@)[k].0),
{
    let ghost lay = layered(global@, local@);
    let mut keys: StringHashMap<usize> = StringHashMap::new();
    let mut rows: Vec<(String, LayoutEntry, ConfigSource, Option<ConfigSource>)> = Vec::new();
    let ghost m0 = Map::<Seq<char>, Staged<LayoutEntry>>::empty();
    proof {
        assert(keys@.dom() =~= m0.dom());
    }
    stage_layer(&mut keys, &mut rows, global, ConfigSource::Global, Ghost(m0));
    let ghost m1 = stage(m0, global@, ConfigSource::Global);
    stage_layer(&mut keys, &mut rows, local, ConfigSource::Local, Ghost(m1));
    let ghost rows0 = rows@;
    let mut out: StringHashMap<Layout> = StringHashMap::new();
    let n = rows.len();
    let mut j: usize = 0;
    while j < n
        invariant
            j <= n,
            n == rows0.len(),
            lay == layered(global@, local@),
            staging_ok(keys@, rows0, lay),
            rows@.len() == n - j,
            forall|k: int| 0 <= k < n - j ==> #[trigger] rows@[k] == rows0[j + k],
            forall|k: int| 0 <= k < j ==> layout_error((#[trigger] rows0[k]).0@, rows0[k].1) is None,
            forall|k: Seq<char>| #[trigger] out@.contains_key(k) <==> exists|x: int| 0 <= x < j && rows0[x].0@ == k,
            forall|k: Seq<char>| #[trigger] out@.contains_key(k) ==> layout_built(out@[k], k, lay[k].0),
        decreases n - j,
    {
        let (name, entry, _src, _ov) = rows.remove(0);
        let ghost x = j as int;
        let ghost e = entry;
        proof {
            assert(rows0[x].0 == name && rows0[x].1 == entry);
            assert(keys@.contains_key(name@) && keys@[name@] == x);
            assert(lay.contains_key(name@) && lay[name@].0 == entry);
        }
        match build_layout(&name, entry) {
            Err(m) => {
                return Err(m);
            },
            Ok(l) => {
                out.insert(name, l);
            },
        }
        j = j + 1;
    }
    proof {
        assert forall|k: Seq<char>| #[trigger] lay.contains_key(k) implies layout_error(k, lay[k].0) is None by {
            assert(keys@.contains_key(k));
            let x = keys@[k] as int;
            assert(rows0[x].0@ == k);
        }
        assert(out@.dom() =~= lay.dom()) by {
            assert forall|k: Seq<char>| lay.contains_key(k) implies out@.contains_key(k) by {
                assert(keys@.contains_key(k));
                let x = keys@[k] as int;
                assert(rows0[x].0@ == k);
            }
        }
    }
    Ok(out)
}

/// Check one layout and build it.
fn build_layout(name: &String, entry: LayoutEntry) -> (r: Result<Layout, String>)
    ensures
        r matches Err(m) ==> layout_error(name@, entry) == Some(m@),
        r matches Ok(l) ==> layout_error(name@, entry) is None && layout_built(l, name@, entry),
        r is Ok <==> layout_error(name@, entry) is None,
{
    let nc = chars_of(name.as_str());
    if is_reserved_flag(name.as_str()) {
        let mut msg: Vec<char> = Vec::new();
        push_str(&mut msg, "layout `");
        push_chars(&mut msg, nc.as_slice());
        push_str(&mut msg, "`: name collides with built-in --");
        push_chars(&mut msg, nc.as_slice());
        push_str(&mut msg, " flag");
        return Err(string_of(msg.as_slice()));
    }
    let ghost e = entry;
    let LayoutEntry { orientation, pane } = entry;
    let horizontal = match &orientation {
        None => false,
        Some(o) => {
            let oc = chars_of(o.as_str());
            if eq_lit(oc.as_slice(), "vertical") {
                false
            } else if eq_lit(oc.as_slice(), "horizontal") {
                true
            } else {
                let mut msg: Vec<char> = Vec::new();
                push_str(&mut msg, "layout `");
                push_chars(&mut msg, nc.as_slice());
                push_str(&mut msg, "`: bad orientation `");
                push_chars(&mut msg, oc.as_slice());
                push_str(&mut msg, "` (expected vertical or horizontal)");
                return Err(string_of(msg.as_slice()));
            }
        },
    };
    assert(orientation_of(e.orientation) == Some(horizontal));
    if pane.len() == 0 {
        let mut msg: Vec<char> = Vec::new();
        push_str(&mut msg, "layout `");
        push_chars(&mut msg, nc.as_slice());
        push_str(&mut msg, "`: needs at least one pane");
        return Err(string_of(msg.as_slice()));
    }
    let ghost all = pane@;
    let mut rest = pane;
    let mut panes: Vec<Group> = Vec::new();
    let count = rest.len();
    let mut i: usize = 0;
    proof {
        assert(all.take(0) =~= Seq::<GroupEntry>::empty());
    }
    while i < count
        invariant
            i <= count,
            count == all.len(),
            all == e.pane@,
            rest@.len() == count - i,
            forall|k: int| 0 <= k < count - i ==> #[trigger] rest@[k] == all[i + k],
            first_paneless(all.take(i as int)) is None,
            panes@.len() == i,
            forall|k: int| 0 <= k < i ==> promoted(#[trigger] panes@[k], pane_name(name@, k), all[k]),
            nc@ == name@,
            !reserved_flag(name@),
            e == entry,
            orientation_of(e.orientation) is Some,
            all.len() > 0,
        decreases count - i,
    {
        let p = rest.remove(0);
        assert(all.take(i + 1).drop_last() =~= all.take(i as int));
        assert(all.take(i + 1).last() == all[i as int]);
        if p.file.is_none() {
            let mut msg: Vec<char> = Vec::new();
            push_str(&mut msg, "layout `");
            push_chars(&mut msg, nc.as_slice());
            push_str(&mut msg, "` pane ");
            let d = decimal_chars(i as u64);
            push_chars(&mut msg, d.as_slice());
            push_str(&mut msg, ": missing `file`");
            proof {
                assert(first_paneless(all.take(i + 1)) == Some(i as int));
                lemma_first_paneless_prefix(all, i as int + 1, all.len() as int);
                assert(all.take(all.len() as int) =~= all);
                assert(first_paneless(e.pane@) == Some(i as int));
                assert(d@ == decimal_of(i as nat));
                assert(msg@ == "layout `"@ + name@ + "` pane "@ + decimal_of(i as nat) + ": missing `file`"@);
                assert(layout_error(name@, e) == Some(msg@));
            }
            return Err(string_of(msg.as_slice()));
        }
        let mut pn: Vec<char> = Vec::new();
        push_chars(&mut pn, nc.as_slice());
        push_str(&mut pn, ".pane");
        let d = decimal_chars(i as u64);
        push_chars(&mut pn, d.as_slice());
        let g = promote_group(string_of(pn.as_slice()), p);
        panes.push(g);
        i = i + 1;
    }
    proof {
        assert(all.take(count as int) =~= all);
    }
    Ok(Layout { name: name.clone(), horizontal, panes })
}

/// A pane without a file in a prefix stays the first one in any longer
/// prefix.
proof fn lemma_first_paneless_prefix(panes: Seq<GroupEntry>, n: int, m: int)
    requires
        0 <= n <= m <= panes.len(),
        first_paneless(panes.take(n)) is Some,
    ensures
        first_paneless(panes.take(m)) == first_paneless(panes.take(n)),
    decreases m - n,
{
    if m > n {
        lemma_first_paneless_prefix(panes, n, m - 1);
        assert(panes.take(m).drop_last() =~= panes.take(m - 1));
    }
}

/// The last entry named `k` in a layer, if any.
pub open spec fn last_with<T>(entries: Seq<(String, T)>, k: Seq<char>) -> Option<T>
    decreases entries.len(),
{
    if entries.len() == 0 {
        None
    } else if entries.last().0@ == k {
        Some(entries.last().1)
    } else {
        last_with(entries.drop_last(), k)
    }
}

/// Staging a layer keeps what it does not name and sets what it names to
/// its last entry of that name, marked with the layer.
proof fn lemma_stage_lookup<T>(m: Map<Seq<char>, Staged<T>>, entries: Seq<(String, T)>, src: ConfigSource, k: Seq<char>)
    ensures
        stage(m, entries, src).contains_key(k) <==> (m.contains_key(k) || last_with(entries, k) is Some),
        (last_with(entries, k) is None && m.contains_key(k)) ==> stage(m, entries, src)[k] == m[k],
        last_with(entries, k) matches Some(e) ==> stage(m, entries, src)[k].0 == e && stage(m, entries, src)[k].1 == src,
        (src == ConfigSource::Global && last_with(entries, k) is Some) ==> stage(m, entries, src)[k].2 is None,
    decreases entries.len(),
{
    if entries.len() > 0 {
        lemma_stage_lookup(m, entries.drop_last(), src, k);
    }
}

/// The local layer wins per name: a name the local layer defines maps to
/// its last local entry, marked local, and (when the global layer defines
/// it too and the local layer names it once) marked as replacing the
/// global one; a name only the global layer defines keeps its global entry
/// unmarked. No other names appear.
pub proof fn lemma_local_overrides_global<T>(global: Seq<(String, T)>, local: Seq<(String, T)>, k: Seq<char>)
    ensures
        layered(global, local).contains_key(k) <==> (last_with(global, k) is Some || last_with(local, k) is Some),
        last_with(local, k) matches Some(e) ==> layered(global, local)[k].0 == e
            && layered(global, local)[k].1 == ConfigSource::Local,
        last_with(local, k) is None ==> (last_with(global, k) matches Some(e) ==> layered(global, local)[k] == (e, ConfigSource::Global, None::<ConfigSource>)),
        last_with(global, k) is Some && last_with(local, k) is Some && names_once(local, k)
            ==> layered(global, local)[k].2 == Some(ConfigSource::Global),
{
    let m0 = Map::<Seq<char>, Staged<T>>::empty();
    lemma_stage_lookup(m0, global, ConfigSource::Global, k);
    let m1 = stage(m0, global, ConfigSource::Global);
    lemma_stage_lookup(m1, local, ConfigSource::Local, k);
    if last_with(global, k) is Some && last_with(local, k) is Some && names_once(local, k) {
        lemma_single_override(m1, local, k);
    }
}

/// `k` names exactly one entry of the layer.
pub open spec fn names_once<T>(entries: Seq<(String, T)>, k: Seq<char>) -> bool {
    exists|i: int| 0 <= i < entries.len() && (#[trigger] entries[i]).0@ == k
        && forall|j: int| 0 <= j < entries.len() && j != i ==> (#[trigger] entries[j]).0@ != k
}

/// A name staged once from the local layer records the layer it replaced.
proof fn lemma_single_override<T>(m: Map<Seq<char>, Staged<T>>, entries: Seq<(String, T)>, k: Seq<char>)
    requires
        m.contains_key(k),
        names_once(entries, k),
    ensures
        stage(m, entries, ConfigSource::Local)[k].2 == Some(m[k].1),
    decreases entries.len(),
{
    let i = choose|i: int| 0 <= i < entries.len() && (#[trigger] entries[i]).0@ == k
        && forall|j: int| 0 <= j < entries.len() && j != i ==> (#[trigger] entries[j]).0@ != k;
    let w = entries.drop_last();
    if i == entries.len() - 1 {
        assert(last_with(w, k) is None) by {
            lemma_last_with_absent(w, k);
            assert forall|j: int| 0 <= j < w.len() implies (#[trigger] w[j]).0@ != k by {
                assert(w[j] == entries[j]);
            }
        }
        lemma_stage_lookup(m, w, ConfigSource::Local, k);
    } else {
        assert(names_once(w, k)) by {
            assert(w[i] == entries[i]);
            assert forall|j: int| 0 <= j < w.len() && j != i implies (#[trigger] w[j]).0@ != k by {
                assert(w[j] == entries[j]);
            }
        }
        lemma_single_override(m, w, k);
        assert(entries.last().0@ != k) by {
            assert(entries[entries.len() - 1] == entries.last());
        }
    }
}

/// A name no entry has has no last entry.
proof fn lemma_last_with_absent<T>(entries: Seq<(String, T)>, k: Seq<char>)
    requires
        forall|j: int| 0 <= j < entries.len() ==> (#[trigger] entries[j]).0@ != k,
    ensures
        last_with(entries, k) is None,
    decreases entries.len(),
{
    if entries.len() > 0 {
        let w = entries.drop_last();
        assert(entries[entries.len() - 1] == entries.last());
        assert forall|j: int| 0 <= j < w.len() implies (#[trigger] w[j]).0@ != k by {
            assert(w[j] == entries[j]);
        }
        lemma_last_with_absent(w, k);
    }
}

} // verus!
