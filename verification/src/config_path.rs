//! Where configuration lives, and which layer a piece of configuration came
//! from. Reading the environment and probing the file system is the
//! caller's part; these functions decide from what it found.

use vstd::prelude::*;
use crate::app::path_push;
use crate::text::{chars_of, push_chars, push_str, string_of};

verus! {

/// Source layer a piece of config came from: compiled in, the global
/// config directory, or the user's own.
#[derive(Debug, Clone, Copy, PartialEq, Eq, Structural)]
pub enum ConfigSource {
    Builtin,
    Global,
    Local,
}

impl Default for ConfigSource {
    fn default() -> (s: Self)
        ensures
            s == ConfigSource::Builtin,
    {
        ConfigSource::Builtin
    }
}

/// The global config directory, by priority: `$TESS_GLOBAL_CONFIG_DIR`
/// when set (as it is, not checked for existence), else `/etc/tess` when
/// it is a directory, else none. `env_dir` is the variable's value and
/// `etc_is_dir` whether `/etc/tess` is a directory.
pub fn global_config_dir(env_dir: Option<&str>, etc_is_dir: bool) -> (r: Option<String>)
    ensures
        env_dir matches Some(d) ==> (r matches Some(p) && p@ == d@),
        (env_dir is None && etc_is_dir) ==> (r matches Some(p) && p@ == "/etc/tess"@),
        env_dir is None && !etc_is_dir ==> r is None,
{
    match env_dir {
        Some(d) => {
            let c = chars_of(d);
            Some(string_of(c.as_slice()))
        },
        None => {
            if etc_is_dir {
                let c = chars_of("/etc/tess");
                Some(string_of(c.as_slice()))
            } else {
                None
            }
        },
    }
}

/// Append a relative path segment the way `PathBuf::push` does: with a
/// separator unless the path is empty or already ends in one.
fn push_segment(out: &mut Vec<char>, seg: &str)
    requires
        seg@.len() > 0,
        seg@[0] != '/',
    ensures
        final(out)@ == path_push(old(out)@, seg@),
{
    if out.len() > 0 && out[out.len() - 1] != '/' {
        out.push('/');
    }
    push_str(out, seg);
}

/// The per-user config directory, `$HOME/.config/tess`; none without
/// `$HOME`.
pub fn user_config_dir(home: Option<&str>) -> (r: Option<String>)
    ensures
        home is None ==> r is None,
        home matches Some(h) ==> (r matches Some(p) && p@ == path_push(path_push(h@, ".config"@), "tess"@)),
{
    match home {
        None => None,
        Some(h) => {
            let mut out: Vec<char> = Vec::new();
            push_str(&mut out, h);
            proof {
                reveal_strlit(".config");
                reveal_strlit("tess");
            }
            push_segment(&mut out, ".config");
            push_segment(&mut out, "tess");
            Some(string_of(out.as_slice()))
        },
    }
}

} // verus!
