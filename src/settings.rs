//! The user settings: local repository, servers and mirrors.
use vstd::prelude::*;

mod mirrors;
mod servers;

pub use mirrors::Mirror;
pub use servers::Server;

use crate::editor::utils::optional_view;

verus! {

/// The user settings. Paths are kept as text.
#[derive(Debug, Clone, Default)]
pub struct Settings {
    pub local_repository: Option<String>,
    pub interactive_mode: Option<bool>,
    pub offline: Option<bool>,
    pub servers: Servers,
    pub mirrors: Mirrors,
}

#[derive(Debug, Clone, Default)]
pub struct Servers {
    pub servers: Vec<Server>,
}

#[derive(Debug, Clone, Default)]
pub struct Mirrors {
    pub mirrors: Vec<Mirror>,
}

/// `dir/name`, with exactly one separator.
pub open spec fn joined_path(dir: Seq<char>, name: Seq<char>) -> Seq<char> {
    if dir.len() == 0 || dir.last() == '/' {
        dir + name
    } else {
        dir + "/"@ + name
    }
}

/// Joins a directory and a relative name.
pub fn join_path(dir: &str, name: &str) -> (r: String)
    ensures
        r@ == joined_path(dir@, name@),
{
    let n = dir.unicode_len();
    let mut s = String::from_str(dir);
    if n > 0 && dir.get_char(n - 1) != '/' {
        s.append("/");
    }
    s.append(name);
    s
}

/// The settings directory `.m2` under the home directory, when the home directory is known.
pub fn get_settings_directory(home: Option<&str>) -> (r: Option<String>)
    ensures
        match home {
            Some(h) => r matches Some(d) && d@ == joined_path(h@, ".m2"@),
            None => r is None,
        },
{
    match home {
        Some(h) => Some(join_path(h, ".m2")),
        None => None,
    }
}

/// The settings file `settings.xml` in the settings directory.
pub fn get_settings_path(home: Option<&str>) -> (r: Option<String>)
    ensures
        match home {
            Some(h) => r matches Some(p) && p@ == joined_path(joined_path(h@, ".m2"@), "settings.xml"@),
            None => r is None,
        },
{
    match get_settings_directory(home) {
        Some(d) => Some(join_path(d.as_str(), "settings.xml")),
        None => None,
    }
}

impl Settings {
    pub fn get_local_repository(&self) -> (r: Option<String>)
        ensures
            r == self.local_repository,
    {
        match &self.local_repository {
            Some(l) => Some(l.clone()),
            None => None,
        }
    }

    /// The local repository, or `repository` in the settings directory under `home`.
    pub fn get_local_repository_or_default(&self, home: Option<&str>) -> (r: Option<String>)
        ensures
            match self.local_repository {
                Some(l) => r == Some(l),
                None => match home {
                    Some(h) => r matches Some(p) && p@ == joined_path(joined_path(h@, ".m2"@), "repository"@),
                    None => r is None,
                },
            },
    {
        if let Some(local_repository) = &self.local_repository {
            return Some(local_repository.clone());
        }
        match get_settings_directory(home) {
            Some(d) => Some(join_path(d.as_str(), "repository")),
            None => None,
        }
    }
}

} // verus!
