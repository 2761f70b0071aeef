use vstd::prelude::*;

use crate::path::{join, join_spec};

verus! {

/// Why a directory of the layout cannot be found.
pub enum PathsError {
    /// `HOME` is not set (or not Unicode) and was needed.
    HomeNotFound,
}

impl PathsError {
    /// The message of the error.
    pub fn message(&self) -> (m: String)
        ensures
            m@ == "Home not found."@,
    {
        "Home not found.".to_owned()
    }
}

/// The directory an XDG variable names: its value when it is set and not empty,
/// otherwise `fallback` under `HOME`.
pub open spec fn xdg_spec(var: Option<Seq<char>>, home: Option<Seq<char>>, fallback: Seq<char>) -> Option<Seq<char>> {
    match var {
        Some(v) if v.len() > 0 => Some(v),
        _ => match home {
            Some(h) => Some(join_spec(h, fallback)),
            None => None,
        },
    }
}

pub open spec fn opt_str(o: Option<&str>) -> Option<Seq<char>> {
    match o {
        Some(s) => Some(s@),
        None => None,
    }
}

/// The directory an XDG variable names, from the variable's value and `HOME` (each `None`
/// when unset or not Unicode).
pub fn xdg_or(var: Option<&str>, home: Option<&str>, fallback: &str) -> (r: Result<String, PathsError>)
    ensures
        match xdg_spec(opt_str(var), opt_str(home), fallback@) {
            Some(d) => r matches Ok(p) && p@ == d,
            None => r is Err,
        },
{
    match var {
        Some(v) => {
            if !v.is_empty() {
                return Ok(v.to_owned());
            }
        },
        None => {},
    }
    match home {
        Some(h) => Ok(join(h, fallback)),
        None => Err(PathsError::HomeNotFound),
    }
}

/// `<dir>/<name>` for a found directory, the error otherwise.
pub open spec fn under(d: Option<Seq<char>>, name: Seq<char>) -> Option<Seq<char>> {
    match d {
        Some(d) => Some(join_spec(d, name)),
        None => None,
    }
}

fn join_found(d: Result<String, PathsError>, name: &str) -> (r: Result<String, PathsError>)
    ensures
        match d {
            Ok(p) => r matches Ok(q) && q@ == join_spec(p@, name@),
            Err(_) => r is Err,
        },
{
    match d {
        Ok(p) => Ok(join(p.as_str(), name)),
        Err(e) => Err(e),
    }
}

/// The app containers' directory: `appto` under `$XDG_DATA_HOME`, or under
/// `~/.local/share` when that is unset or empty.
pub fn appto_data(xdg_data_home: Option<&str>, home: Option<&str>) -> (r: Result<String, PathsError>)
    ensures
        match under(xdg_spec(opt_str(xdg_data_home), opt_str(home), ".local/share"@), "appto"@) {
            Some(d) => r matches Ok(p) && p@ == d,
            None => r is Err,
        },
{
    join_found(xdg_or(xdg_data_home, home, ".local/share"), "appto")
}

/// The cache directory: `appto` under `$XDG_CACHE_HOME`, or under `~/.cache` when that
/// is unset or empty.
pub fn appto_cache(xdg_cache_home: Option<&str>, home: Option<&str>) -> (r: Result<String, PathsError>)
    ensures
        match under(xdg_spec(opt_str(xdg_cache_home), opt_str(home), ".cache"@), "appto"@) {
            Some(d) => r matches Ok(p) && p@ == d,
            None => r is Err,
        },
{
    join_found(xdg_or(xdg_cache_home, home, ".cache"), "appto")
}

/// Where desktop entries are linked: `applications` under `$XDG_DATA_HOME`, or under
/// `~/.local/share` when that is unset or empty.
pub fn application_dir(xdg_data_home: Option<&str>, home: Option<&str>) -> (r: Result<String, PathsError>)
    ensures
        match under(xdg_spec(opt_str(xdg_data_home), opt_str(home), ".local/share"@), "applications"@) {
            Some(d) => r matches Ok(p) && p@ == d,
            None => r is Err,
        },
{
    join_found(xdg_or(xdg_data_home, home, ".local/share"), "applications")
}

/// Where AppImages are linked: `~/.local/bin` (no XDG variable applies).
pub fn bin_dir(home: Option<&str>) -> (r: Result<String, PathsError>)
    ensures
        match home {
            Some(h) => r matches Ok(p) && p@ == join_spec(h@, ".local/bin"@),
            None => r is Err,
        },
{
    match home {
        Some(h) => Ok(join(h, ".local/bin")),
        None => Err(PathsError::HomeNotFound),
    }
}

} // verus!
