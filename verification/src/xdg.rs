//! Where nu-sidecar keeps its files, following the XDG base directories.
//! The environment is read outside the library and handed in as `XdgEnv`.
use vstd::prelude::*;
use crate::text::{chars_of, push_all, push_str, string_from_chars};

verus! {

/// The environment the directories depend on: `$XDG_CONFIG_HOME`,
/// `$XDG_STATE_HOME` and the home directory, where set.
pub struct XdgEnv {
    pub config_home: Option<String>,
    pub state_home: Option<String>,
    pub home: Option<String>,
}

/// `PathBuf::join` of a relative segment on Unix: a `/` goes in between
/// unless `base` is empty or already ends in one.
pub open spec fn path_join(base: Seq<char>, seg: Seq<char>) -> Seq<char> {
    if base.len() == 0 {
        seg
    } else if base.last() == '/' {
        base + seg
    } else {
        base + seq!['/'] + seg
    }
}

pub fn join_path(base: &Vec<char>, seg: &str) -> (r: Vec<char>)
    ensures
        r@ == path_join(base@, seg@),
{
    let mut out: Vec<char> = Vec::new();
    push_all(&mut out, base);
    if base.len() > 0 && base[base.len() - 1] != '/' {
        out.push('/');
    }
    push_str(&mut out, seg);
    out
}

/// The home directory, or `.` when it is unknown.
pub open spec fn home_dir(env: XdgEnv) -> Seq<char> {
    match env.home {
        Some(h) => h@,
        None => "."@,
    }
}

fn home_chars(env: &XdgEnv) -> (r: Vec<char>)
    ensures
        r@ == home_dir(*env),
{
    match &env.home {
        Some(h) => chars_of(h.as_str()),
        None => chars_of("."),
    }
}

/// `$XDG_CONFIG_HOME/nu-sidecar`, by default `~/.config/nu-sidecar`.
pub open spec fn spec_config_dir(env: XdgEnv) -> Seq<char> {
    let base = match env.config_home {
        Some(c) => c@,
        None => path_join(home_dir(env), ".config"@),
    };
    path_join(base, "nu-sidecar"@)
}

/// `$XDG_STATE_HOME/nu-sidecar`, by default `~/.local/state/nu-sidecar`.
pub open spec fn spec_state_dir(env: XdgEnv) -> Seq<char> {
    let base = match env.state_home {
        Some(s) => s@,
        None => path_join(path_join(home_dir(env), ".local"@), "state"@),
    };
    path_join(base, "nu-sidecar"@)
}

pub open spec fn spec_config_file(env: XdgEnv) -> Seq<char> {
    path_join(spec_config_dir(env), "config.toml"@)
}

pub open spec fn spec_sessions_dir(env: XdgEnv) -> Seq<char> {
    path_join(spec_state_dir(env), "sessions"@)
}

fn config_dir_chars(env: &XdgEnv) -> (r: Vec<char>)
    ensures
        r@ == spec_config_dir(*env),
{
    let base = match &env.config_home {
        Some(c) => chars_of(c.as_str()),
        None => join_path(&home_chars(env), ".config"),
    };
    join_path(&base, "nu-sidecar")
}

fn state_dir_chars(env: &XdgEnv) -> (r: Vec<char>)
    ensures
        r@ == spec_state_dir(*env),
{
    let base = match &env.state_home {
        Some(s) => chars_of(s.as_str()),
        None => join_path(&join_path(&home_chars(env), ".local"), "state"),
    };
    join_path(&base, "nu-sidecar")
}

pub fn config_dir(env: &XdgEnv) -> (r: String)
    ensures
        r@ == spec_config_dir(*env),
{
    string_from_chars(&config_dir_chars(env))
}

pub fn state_dir(env: &XdgEnv) -> (r: String)
    ensures
        r@ == spec_state_dir(*env),
{
    string_from_chars(&state_dir_chars(env))
}

pub fn config_file(env: &XdgEnv) -> (r: String)
    ensures
        r@ == spec_config_file(*env),
{
    string_from_chars(&join_path(&config_dir_chars(env), "config.toml"))
}

pub fn sessions_dir(env: &XdgEnv) -> (r: String)
    ensures
        r@ == spec_sessions_dir(*env),
{
    string_from_chars(&join_path(&state_dir_chars(env), "sessions"))
}

} // verus!
