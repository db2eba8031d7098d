//! Where the database and the configuration live: under the XDG base
//! directories, or under the home directory when those are not set.

use vstd::prelude::*;
use crate::text::push_char;

verus! {

/// `base` joined with the relative path `relative` the way
/// `std::path::PathBuf::push` joins them on Unix: a separator is put between
/// them unless `base` is empty or already ends with one.
pub open spec fn path_join(base: Seq<char>, relative: Seq<char>) -> Seq<char> {
    if base.len() == 0 {
        relative
    } else if base.last() == '/' {
        base + relative
    } else {
        base + seq!['/'] + relative
    }
}

/// Joins a relative path onto a base path (see `path_join`).
pub fn join_path(base: &str, relative: &str) -> (joined: String)
    ensures
        joined@ == path_join(base@, relative@),
{
    let mut joined = base.to_owned();
    let n = base.unicode_len();
    if n > 0 && base.get_char(n - 1) != '/' {
        push_char(&mut joined, '/');
    }
    joined.append(relative);
    assert(joined@ =~= path_join(base@, relative@));
    joined
}

/// Why a default path cannot be found.
#[derive(Debug, Clone, Copy, PartialEq, Eq, Structural)]
pub enum PathError {
    /// Neither `XDG_STATE_HOME` nor `HOME` is set.
    StateHomeUnset,
    /// Neither `XDG_CONFIG_HOME` nor `HOME` is set.
    ConfigHomeUnset,
}

/// The message shown for a path error.
pub open spec fn path_message(error: PathError) -> Seq<char> {
    match error {
        PathError::StateHomeUnset => "cannot determine state directory: HOME is unset"@,
        PathError::ConfigHomeUnset => "HOME is unset"@,
    }
}

impl PathError {
    /// The message shown for the error.
    pub fn message(&self) -> (text: String)
        ensures
            text@ == path_message(*self),
    {
        match self {
            PathError::StateHomeUnset => "cannot determine state directory: HOME is unset".to_owned(),
            PathError::ConfigHomeUnset => "HOME is unset".to_owned(),
        }
    }
}

/// The value of an optional text.
pub open spec fn opt_str(o: Option<&str>) -> Option<Seq<char>> {
    match o {
        Some(s) => Some(s@),
        None => None,
    }
}

/// A file below an XDG base directory: `xdg` when it is set and not empty,
/// else `home_dir` below the home directory; nothing when neither is set.
pub open spec fn xdg_file(
    xdg: Option<Seq<char>>,
    home: Option<Seq<char>>,
    home_dir: Seq<char>,
    file: Seq<char>,
) -> Option<Seq<char>> {
    match xdg {
        Some(x) if x.len() > 0 => Some(path_join(x, file)),
        _ => match home {
            Some(h) => Some(path_join(path_join(h, home_dir), file)),
            None => None,
        },
    }
}

fn xdg_path(xdg: Option<&str>, home: Option<&str>, home_dir: &str, file: &str) -> (path: Option<String>)
    ensures
        match path {
            Some(p) => xdg_file(opt_str(xdg), opt_str(home), home_dir@, file@) == Some(p@),
            None => xdg_file(opt_str(xdg), opt_str(home), home_dir@, file@) is None,
        },
{
    match xdg {
        Some(x) if x.unicode_len() > 0 => Some(join_path(x, file)),
        _ => match home {
            Some(h) => {
                let dir = join_path(h, home_dir);
                Some(join_path(dir.as_str(), file))
            },
            None => None,
        },
    }
}

/// The default database path: `rxtt/activity.sqlite3` below
/// `XDG_STATE_HOME`, or below `~/.local/state`.
pub open spec fn state_database_file(xdg_state_home: Option<Seq<char>>, home: Option<Seq<char>>) -> Option<Seq<char>> {
    xdg_file(xdg_state_home, home, ".local/state"@, "rxtt/activity.sqlite3"@)
}

/// Finds the default database path from the two environment values.
pub fn state_database_path(xdg_state_home: Option<&str>, home: Option<&str>) -> (path: Result<String, PathError>)
    ensures
        match path {
            Ok(p) => state_database_file(opt_str(xdg_state_home), opt_str(home)) == Some(p@),
            Err(e) => e == PathError::StateHomeUnset && state_database_file(
                opt_str(xdg_state_home),
                opt_str(home),
            ) is None,
        },
{
    match xdg_path(xdg_state_home, home, ".local/state", "rxtt/activity.sqlite3") {
        Some(p) => Ok(p),
        None => Err(PathError::StateHomeUnset),
    }
}

/// The default configuration path: `rxtt/config.toml` below
/// `XDG_CONFIG_HOME`, or below `~/.config`.
pub open spec fn config_file(xdg_config_home: Option<Seq<char>>, home: Option<Seq<char>>) -> Option<Seq<char>> {
    xdg_file(xdg_config_home, home, ".config"@, "rxtt/config.toml"@)
}

/// Finds the default configuration path from the two environment values.
pub fn config_path(xdg_config_home: Option<&str>, home: Option<&str>) -> (path: Result<String, PathError>)
    ensures
        match path {
            Ok(p) => config_file(opt_str(xdg_config_home), opt_str(home)) == Some(p@),
            Err(e) => e == PathError::ConfigHomeUnset && config_file(
                opt_str(xdg_config_home),
                opt_str(home),
            ) is None,
        },
{
    match xdg_path(xdg_config_home, home, ".config", "rxtt/config.toml") {
        Some(p) => Ok(p),
        None => Err(PathError::ConfigHomeUnset),
    }
}

} // verus!
