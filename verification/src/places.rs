//! Where things are kept on the local machine.

use crate::config::Config;
use crate::error::{Fault, SyncError};
use crate::text::{begins_with, concat2, concat3, option_view, starts_with_char};
use vstd::prelude::*;

verus! {

/// `path` seen from `base`: an absolute path stands for itself, any other is put below the base.
pub open spec fn path_joined(base: Seq<char>, path: Seq<char>) -> Seq<char> {
    if begins_with(path, '/') || base.len() == 0 {
        path
    } else if base.last() == '/' {
        base + path
    } else {
        base + "/"@ + path
    }
}

/// `path` seen from `base`.
pub fn join_path(base: &str, path: &str) -> (r: String)
    ensures
        r@ == path_joined(base@, path@),
{
    if starts_with_char(path, '/') || base.is_empty() {
        return path.to_owned();
    }
    let last = base.get_char(base.unicode_len() - 1);
    if last == '/' {
        concat2(base, path)
    } else {
        concat3(base, "/", path)
    }
}

/// A directory of the user: the one that `named` gives, else `below` under the home directory.
pub open spec fn user_place(
    named: Option<Seq<char>>,
    home: Option<Seq<char>>,
    below: Seq<char>,
) -> Result<Seq<char>, Fault<Seq<char>>> {
    match (named, home) {
        (Some(place), _) => Ok(place),
        (None, Some(home)) => Ok(path_joined(home, below)),
        (None, None) => Err(Fault::NoHome),
    }
}

/// The view of a place that was looked up.
pub open spec fn place_view(r: Result<String, SyncError>) -> Result<Seq<char>, Fault<Seq<char>>> {
    match r {
        Ok(place) => Ok(place@),
        Err(error) => Err(error@),
    }
}

fn place_under(
    named: Option<String>,
    home: Option<String>,
    below: &str,
) -> (r: Result<String, SyncError>)
    ensures
        place_view(r) == user_place(option_view(named), option_view(home), below@),
{
    match named {
        Some(place) => Ok(place),
        None => match home {
            Some(home) => Ok(join_path(home.as_str(), below)),
            None => Err(Fault::NoHome),
        },
    }
}

fn place_below(base: Option<String>, below: &str) -> (r: Option<String>)
    ensures
        option_view(r) == (match base {
            Some(base) => Some(path_joined(base@, below@)),
            None => None,
        }),
{
    match base {
        Some(base) => Some(join_path(base.as_str(), below)),
        None => None,
    }
}

/// The directory of the state database, from `XDG_STATE_HOME` and `HOME`.
pub open spec fn state_dir(xdg_state_home: Option<Seq<char>>, home: Option<Seq<char>>) -> Result<
    Seq<char>,
    Fault<Seq<char>>,
> {
    user_place(
        match xdg_state_home {
            Some(base) => Some(path_joined(base, "pdrive-sync"@)),
            None => None,
        },
        home,
        ".local/state/pdrive-sync"@,
    )
}

/// The directory of the state database, from `XDG_STATE_HOME` and `HOME`.
pub fn default_state_dir(xdg_state_home: Option<String>, home: Option<String>) -> (r: Result<
    String,
    SyncError,
>)
    ensures
        place_view(r) == state_dir(option_view(xdg_state_home), option_view(home)),
{
    place_under(place_below(xdg_state_home, "pdrive-sync"), home, ".local/state/pdrive-sync")
}

/// The configuration file, from `PDRIVE_SYNC_CONFIG` and `HOME`.
pub fn default_config_path(pdrive_sync_config: Option<String>, home: Option<String>) -> (r: Result<
    String,
    SyncError,
>)
    ensures
        place_view(r) == user_place(
            option_view(pdrive_sync_config),
            option_view(home),
            ".config/pdrive-sync/config.toml"@,
        ),
{
    place_under(pdrive_sync_config, home, ".config/pdrive-sync/config.toml")
}

/// The directory of user configuration, from `XDG_CONFIG_HOME` and `HOME`.
pub fn user_config_dir(xdg_config_home: Option<String>, home: Option<String>) -> (r: Result<
    String,
    SyncError,
>)
    ensures
        place_view(r) == user_place(option_view(xdg_config_home), option_view(home), ".config"@),
{
    place_under(xdg_config_home, home, ".config")
}

/// The cache directory of the command line client, from `PROTON_DRIVE_CACHE_DIR`,
/// `XDG_CACHE_HOME` and `HOME`.
pub open spec fn cli_cache_dir(
    proton_drive_cache_dir: Option<Seq<char>>,
    xdg_cache_home: Option<Seq<char>>,
    home: Option<Seq<char>>,
) -> Result<Seq<char>, Fault<Seq<char>>> {
    user_place(
        match (proton_drive_cache_dir, xdg_cache_home) {
            (Some(named), _) => Some(named),
            (None, Some(base)) => Some(path_joined(base, "proton-drive-cli"@)),
            (None, None) => None,
        },
        home,
        ".cache/proton-drive-cli"@,
    )
}

/// The cache directory of the command line client.
pub fn proton_cli_cache_dir(
    proton_drive_cache_dir: Option<String>,
    xdg_cache_home: Option<String>,
    home: Option<String>,
) -> (r: Result<String, SyncError>)
    ensures
        place_view(r) == cli_cache_dir(
            option_view(proton_drive_cache_dir),
            option_view(xdg_cache_home),
            option_view(home),
        ),
{
    let named = match proton_drive_cache_dir {
        Some(named) => Some(named),
        None => place_below(xdg_cache_home, "proton-drive-cli"),
    };
    place_under(named, home, ".cache/proton-drive-cli")
}

/// The state database and the success file of a configuration: those that it names, else files in
/// the state directory.
pub fn resolved_state_paths(config: &Config, state_dir: &str) -> (r: (String, String))
    ensures
        r.0@ == (match config@.state_db {
            Some(path) => path,
            None => path_joined(state_dir@, "state.sqlite3"@),
        }),
        r.1@ == (match config@.success_file {
            Some(path) => path,
            None => path_joined(state_dir@, "last-success"@),
        }),
{
    let database = match &config.state_db {
        Some(path) => path.clone(),
        None => join_path(state_dir, "state.sqlite3"),
    };
    let success = match &config.success_file {
        Some(path) => path.clone(),
        None => join_path(state_dir, "last-success"),
    };
    (database, success)
}

} // verus!
