//! The configuration and its rules.

use crate::error::{Fault, SyncError};
use crate::excludes::{build_excludes, excludes_fault};
use crate::text::{begins_with, blank, clone_text, clone_texts, is_blank, option_view};
use crate::text::{starts_with_char, text_eq, views};
use vstd::prelude::*;

verus! {

/// Which side an entry follows.
#[derive(Clone, Copy, Debug, PartialEq, Eq, Structural)]
pub enum SyncMode {
    /// Local is authoritative.
    Push,
    /// Remote is authoritative.
    Pull,
    /// Changes travel both ways.
    TwoWay,
}

impl Default for SyncMode {
    fn default() -> (r: Self)
        ensures
            r == SyncMode::Push,
    {
        SyncMode::Push
    }
}

/// What becomes of a file that the other side no longer has.
#[derive(Clone, Copy, Debug, PartialEq, Eq, Structural)]
pub enum DeletePolicy {
    /// It stays.
    Keep,
    /// It moves to the trash of its side.
    Trash,
}

impl Default for DeletePolicy {
    fn default() -> (r: Self)
        ensures
            r == DeletePolicy::Keep,
    {
        DeletePolicy::Keep
    }
}

/// What happens to a path that changed on both sides.
#[derive(Clone, Copy, Debug, PartialEq, Eq, Structural)]
pub enum ConflictPolicy {
    /// The run stops before it changes anything.
    Fail,
    /// The local side is kept.
    LocalWins,
    /// The remote side is kept.
    RemoteWins,
}

impl Default for ConflictPolicy {
    fn default() -> (r: Self)
        ensures
            r == ConflictPolicy::Fail,
    {
        ConflictPolicy::Fail
    }
}

/// One entry of the configuration: a local folder and the remote folder that it is synced with.
#[derive(Debug)]
pub struct SyncConfig {
    pub name: String,
    pub mode: SyncMode,
    pub local: String,
    pub remote: String,
    pub ready_marker: Option<String>,
    pub delete: DeletePolicy,
    pub conflict: ConflictPolicy,
    pub exclude: Vec<String>,
}

/// The view of an entry.
#[verifier::ext_equal]
pub struct SyncConfigView {
    pub name: Seq<char>,
    pub mode: SyncMode,
    pub local: Seq<char>,
    pub remote: Seq<char>,
    pub ready_marker: Option<Seq<char>>,
    pub delete: DeletePolicy,
    pub conflict: ConflictPolicy,
    pub exclude: Seq<Seq<char>>,
}

impl View for SyncConfig {
    type V = SyncConfigView;

    open spec fn view(&self) -> SyncConfigView {
        SyncConfigView {
            name: self.name@,
            mode: self.mode,
            local: self.local@,
            remote: self.remote@,
            ready_marker: option_view(self.ready_marker),
            delete: self.delete,
            conflict: self.conflict,
            exclude: views(self.exclude@),
        }
    }
}

impl Clone for SyncConfig {
    fn clone(&self) -> (r: Self)
        ensures
            r@ == self@,
    {
        SyncConfig {
            name: self.name.clone(),
            mode: self.mode,
            local: self.local.clone(),
            remote: self.remote.clone(),
            ready_marker: clone_text(&self.ready_marker),
            delete: self.delete,
            conflict: self.conflict,
            exclude: clone_texts(&self.exclude),
        }
    }
}

/// The configuration.
#[derive(Clone, Debug)]
pub struct Config {
    pub proton_drive_bin: String,
    pub optimize_cli_cache: bool,
    pub notifications: bool,
    pub state_db: Option<String>,
    pub success_file: Option<String>,
    pub syncs: Vec<SyncConfig>,
}

/// The view of a configuration.
#[verifier::ext_equal]
pub struct ConfigView {
    pub proton_drive_bin: Seq<char>,
    pub optimize_cli_cache: bool,
    pub notifications: bool,
    pub state_db: Option<Seq<char>>,
    pub success_file: Option<Seq<char>>,
    pub syncs: Seq<SyncConfigView>,
}

impl View for Config {
    type V = ConfigView;

    open spec fn view(&self) -> ConfigView {
        ConfigView {
            proton_drive_bin: self.proton_drive_bin@,
            optimize_cli_cache: self.optimize_cli_cache,
            notifications: self.notifications,
            state_db: option_view(self.state_db),
            success_file: option_view(self.success_file),
            syncs: views(self.syncs@),
        }
    }
}

/// The executable that is run when the configuration names none.
pub fn default_proton_drive_bin() -> (r: String)
    ensures
        r@ == "proton-drive"@,
{
    "proton-drive".to_owned()
}

/// Cache databases are switched to write-ahead mode unless the configuration says otherwise.
pub fn default_optimize_cli_cache() -> (r: bool)
    ensures
        r,
{
    true
}

/// Notifications are sent unless the configuration says otherwise.
pub fn default_notifications() -> (r: bool)
    ensures
        r,
{
    true
}

/// An absolute path other than the root.
pub open spec fn valid_remote(remote: Seq<char>) -> bool {
    begins_with(remote, '/') && remote != "/"@
}

/// What is wrong with the entry at `i`, given the entries before it.
pub open spec fn sync_fault(syncs: Seq<SyncConfigView>, i: int) -> Option<Fault<Seq<char>>> {
    let sync = syncs[i];
    if is_blank(sync.name) {
        Some(Fault::EmptyName)
    } else if exists|j: int| 0 <= j < i && #[trigger] syncs[j].name == sync.name {
        Some(Fault::DuplicateName { name: sync.name })
    } else if !valid_remote(sync.remote) {
        Some(Fault::BadRemote { name: sync.name })
    } else if sync.ready_marker is Some && begins_with(sync.ready_marker->0, '/') {
        Some(Fault::AbsoluteMarker { name: sync.name })
    } else {
        excludes_fault(sync.name, sync.exclude)
    }
}

/// What is wrong with the first faulty entry from `from` on.
pub open spec fn first_sync_fault(syncs: Seq<SyncConfigView>, from: int) -> Option<Fault<Seq<char>>>
    decreases syncs.len() - from,
{
    if from < 0 || from >= syncs.len() {
        None
    } else {
        match sync_fault(syncs, from) {
            Some(fault) => Some(fault),
            None => first_sync_fault(syncs, from + 1),
        }
    }
}

/// What is wrong with a configuration, if anything is.
pub open spec fn config_fault(config: ConfigView) -> Option<Fault<Seq<char>>> {
    if config.syncs.len() == 0 {
        Some(Fault::NoSyncs)
    } else {
        first_sync_fault(config.syncs, 0)
    }
}

fn name_taken(syncs: &Vec<SyncConfig>, index: usize) -> (r: bool)
    requires
        index < syncs.len(),
    ensures
        r == exists|j: int|
            0 <= j < index && #[trigger] views(syncs@)[j].name == views(syncs@)[index as int].name,
{
    let mut j: usize = 0;
    while j < index
        invariant
            j <= index < syncs.len(),
            forall|k: int| 0 <= k < j ==> syncs@[k].name@ != syncs@[index as int].name@,
        decreases index - j,
    {
        if syncs[j].name == syncs[index].name {
            assert(views(syncs@)[j as int].name == views(syncs@)[index as int].name);
            return true;
        }
        j += 1;
    }
    false
}

/// Checks the rules that every configuration must meet.
pub fn validate_config(config: &Config) -> (r: Result<(), SyncError>)
    ensures
        match r {
            Ok(_) => config_fault(config@) is None,
            Err(error) => config_fault(config@) == Some(error@),
        },
{
    if config.syncs.len() == 0 {
        return Err(Fault::NoSyncs);
    }
    let mut i: usize = 0;
    while i < config.syncs.len()
        invariant
            i <= config.syncs.len(),
            config@.syncs.len() > 0,
            config_fault(config@) == first_sync_fault(config@.syncs, i as int),
        decreases config.syncs.len() - i,
    {
        let sync = &config.syncs[i];
        assert(config@.syncs[i as int] == sync@);
        if blank(sync.name.as_str()) {
            return Err(Fault::EmptyName);
        }
        if name_taken(&config.syncs, i) {
            return Err(Fault::DuplicateName { name: sync.name.clone() });
        }
        if !starts_with_char(sync.remote.as_str(), '/') || text_eq(sync.remote.as_str(), "/") {
            return Err(Fault::BadRemote { name: sync.name.clone() });
        }
        if let Some(marker) = &sync.ready_marker {
            if starts_with_char(marker.as_str(), '/') {
                return Err(Fault::AbsoluteMarker { name: sync.name.clone() });
            }
        }
        match build_excludes(sync) {
            Ok(_) => {},
            Err(error) => {
                return Err(error);
            },
        }
        i += 1;
    }
    Ok(())
}

} // verus!
