//! Which entries are run, and the entries that are made on the way.

use crate::config::{config_fault, validate_config, Config, ConfigView, ConflictPolicy};
use crate::config::{DeletePolicy, SyncConfig, SyncConfigView, SyncMode};
use crate::digest::{hex, one_off_input, one_off_name, sha1_of, SHA1_INPUT_LIMIT};
use crate::error::{Fault, SyncError};
use crate::path_map::PathMap;
use crate::summary::{SummaryView, SyncSummary};
use crate::text::{decimal, decimal_text, holds, in_order, join_texts, joined, text_eq, views};
use crate::text::views_push;
use vstd::prelude::*;
use vstd::string::*;
use vstd::utf8::encode_utf8;

verus! {

/// The names asked for that no entry has, in order.
pub open spec fn unknown_names(
    syncs: Seq<SyncConfigView>,
    names: Seq<Seq<char>>,
) -> Set<Seq<char>> {
    Set::new(
        |name: Seq<char>|
            names.contains(name) && !(exists|i: int|
                0 <= i < syncs.len() && (#[trigger] syncs[i]).name == name),
    )
}

/// The entries whose names are asked for, in their order.
pub open spec fn named_entries(
    syncs: Seq<SyncConfigView>,
    names: Seq<Seq<char>>,
) -> Seq<SyncConfigView>
    decreases syncs.len(),
{
    if syncs.len() == 0 {
        Seq::empty()
    } else {
        let rest = named_entries(syncs.drop_last(), names);
        if names.contains(syncs.last().name) {
            rest.push(syncs.last())
        } else {
            rest
        }
    }
}

/// The configuration with the entries that are asked for: all of them if none is named.
pub open spec fn selection(config: ConfigView, names: Seq<Seq<char>>) -> Result<
    ConfigView,
    Fault<Seq<char>>,
> {
    if names.len() == 0 {
        Ok(config)
    } else if unknown_names(config.syncs, names).len() > 0 {
        Err(
            Fault::UnknownSyncs {
                names: joined(in_order(unknown_names(config.syncs, names)), ", "@),
            },
        )
    } else {
        Ok(ConfigView { syncs: named_entries(config.syncs, names), ..config })
    }
}

fn has_entry(syncs: &Vec<SyncConfig>, name: &str) -> (r: bool)
    ensures
        r == (exists|i: int| 0 <= i < syncs@.len() && (#[trigger] views(syncs@)[i]).name == name@),
{
    let mut i: usize = 0;
    while i < syncs.len()
        invariant
            i <= syncs.len(),
            forall|k: int| 0 <= k < i ==> (#[trigger] views(syncs@)[k]).name != name@,
        decreases syncs.len() - i,
    {
        assert(views(syncs@)[i as int].name == syncs@[i as int].name@);
        if text_eq(syncs[i].name.as_str(), name) {
            return true;
        }
        i += 1;
    }
    false
}

fn unknown(syncs: &Vec<SyncConfig>, names: &Vec<String>) -> (r: PathMap<()>)
    ensures
        r@.dom() == unknown_names(views(syncs@), views(names@)),
{
    let ghost entries = views(syncs@);
    let ghost all = views(names@);
    let mut missing: PathMap<()> = PathMap::new();
    let mut i: usize = 0;
    assert(missing@.dom() =~= unknown_names(entries, all.take(0)));
    while i < names.len()
        invariant
            i <= names.len(),
            entries == views(syncs@),
            all == views(names@),
            missing@.dom() == unknown_names(entries, all.take(i as int)),
        decreases names.len() - i,
    {
        let ghost name = names@[i as int]@;
        let ghost done = all.take(i as int);
        let ghost next = all.take(i + 1);
        proof {
            assert(next =~= done.push(name));
            assert forall|other: Seq<char>| next.contains(other) <==> (done.contains(other)
                || other == name) by {
                if done.contains(other) {
                    let k = choose|k: int| 0 <= k < done.len() && done[k] == other;
                    assert(next[k] == other);
                }
                assert(next[i as int] == name);
            }
        }
        if !has_entry(syncs, names[i].as_str()) {
            missing.insert(names[i].clone(), ());
        }
        assert(missing@.dom() =~= unknown_names(entries, next));
        i += 1;
    }
    assert(all.take(i as int) =~= all);
    missing
}

/// The view of a selection.
pub open spec fn selected(r: Result<Config, SyncError>) -> Result<ConfigView, Fault<Seq<char>>> {
    match r {
        Ok(config) => Ok(config@),
        Err(error) => Err(error@),
    }
}

/// Keeps the entries that are asked for by name; all if no name is given. A name that no entry has
/// is refused.
pub fn select_syncs(config: Config, names: &Vec<String>) -> (r: Result<Config, SyncError>)
    ensures
        selected(r) == selection(config@, views(names@)),
{
    if names.len() == 0 {
        return Ok(config);
    }
    let missing = unknown(&config.syncs, names);
    if missing.len() > 0 {
        let keys = missing.keys();
        return Err(Fault::UnknownSyncs { names: join_texts(&keys, ", ") });
    }
    let ghost all = views(config.syncs@);
    let ghost wanted = views(names@);
    let mut syncs: Vec<SyncConfig> = Vec::new();
    assert(views(syncs@) =~= named_entries(all.take(0), wanted));
    for sync in it: config.syncs
        invariant
            it.seq() == config.syncs@,
            all == views(config.syncs@),
            wanted == views(names@),
            views(syncs@) == named_entries(all.take(it.index()), wanted),
    {
        assert(all.take(it.index() + 1).drop_last() =~= all.take(it.index()));
        assert(all[it.index()] == sync@);
        if holds(names, sync.name.as_str()) {
            proof {
                views_push(syncs@, sync);
            }
            syncs.push(sync);
        }
    }
    assert(all.take(all.len() as int) =~= all);
    let kept = Config {
        proton_drive_bin: config.proton_drive_bin,
        optimize_cli_cache: config.optimize_cli_cache,
        notifications: config.notifications,
        state_db: config.state_db,
        success_file: config.success_file,
        syncs,
    };
    Ok(kept)
}

/// A configuration of one entry, and else of what is usual.
pub open spec fn single_entry(proton_drive_bin: Seq<char>, sync: SyncConfigView) -> ConfigView {
    ConfigView {
        proton_drive_bin,
        optimize_cli_cache: true,
        notifications: true,
        state_db: None,
        success_file: None,
        syncs: seq![sync],
    }
}

fn config_of(proton_drive_bin: String, sync: SyncConfig) -> (r: Config)
    ensures
        r@ == single_entry(proton_drive_bin@, sync@),
{
    let mut syncs: Vec<SyncConfig> = Vec::new();
    syncs.push(sync);
    let config = Config {
        proton_drive_bin,
        optimize_cli_cache: true,
        notifications: true,
        state_db: None,
        success_file: None,
        syncs,
    };
    assert(config@.syncs =~= seq![sync@]);
    config
}

/// A one-off sync, as it is asked for.
#[derive(Debug)]
pub struct OneOff {
    pub local: String,
    pub remote: String,
    pub mode: SyncMode,
    pub delete: DeletePolicy,
    pub conflict: ConflictPolicy,
    pub proton_drive: String,
}

/// The configuration of a one-off sync. Its name is made of its places and its mode, so that a
/// further one finds its state again.
pub fn one_off_config(request: OneOff) -> (r: Config)
    requires
        encode_utf8(request.local@).len() + encode_utf8(request.remote@).len() + 3 < SHA1_INPUT_LIMIT,
    ensures
        r@ == single_entry(
            request.proton_drive@,
            SyncConfigView {
                name: "one-off-"@ + hex(
                    sha1_of(
                        one_off_input(
                            encode_utf8(request.local@),
                            encode_utf8(request.remote@),
                            request.mode,
                        ),
                    ),
                ),
                mode: request.mode,
                local: request.local@,
                remote: request.remote@,
                ready_marker: None,
                delete: request.delete,
                conflict: request.conflict,
                exclude: Seq::empty(),
            },
        ),
{
    let name = one_off_name(request.local.as_str(), request.remote.as_str(), request.mode);
    let sync = SyncConfig {
        name,
        mode: request.mode,
        local: request.local,
        remote: request.remote,
        ready_marker: None,
        delete: request.delete,
        conflict: request.conflict,
        exclude: Vec::new(),
    };
    assert(sync@.exclude =~= Seq::<Seq<char>>::empty());
    config_of(request.proton_drive, sync)
}

/// What the interactive setup asks.
#[derive(Debug)]
pub struct SetupAnswers {
    pub proton_drive_bin: String,
    pub name: String,
    /// Which of the three directions: push, pull or two-way.
    pub direction: usize,
    pub local: String,
    pub remote: String,
    /// Whether deletions are carried over.
    pub exact: bool,
    /// Which of the three conflict policies: fail, local wins or remote wins.
    pub resolution: usize,
    /// The readiness marker; empty for none.
    pub marker: String,
}

/// The mode that an answer stands for.
pub open spec fn chosen_mode(direction: usize) -> SyncMode {
    if direction == 0 {
        SyncMode::Push
    } else if direction == 1 {
        SyncMode::Pull
    } else {
        SyncMode::TwoWay
    }
}

/// The conflict policy that an answer stands for. Only a two-way sync can have conflicts.
pub open spec fn chosen_policy(mode: SyncMode, resolution: usize) -> ConflictPolicy {
    if mode != SyncMode::TwoWay || resolution == 0 {
        ConflictPolicy::Fail
    } else if resolution == 1 {
        ConflictPolicy::LocalWins
    } else {
        ConflictPolicy::RemoteWins
    }
}

/// The mode that an answer stands for.
pub fn setup_mode(direction: usize) -> (r: SyncMode)
    requires
        direction < 3,
    ensures
        r == chosen_mode(direction),
{
    if direction == 0 {
        SyncMode::Push
    } else if direction == 1 {
        SyncMode::Pull
    } else {
        SyncMode::TwoWay
    }
}

/// The configuration that the answers of the interactive setup ask for.
pub open spec fn answered_config(answers: SetupAnswers) -> ConfigView {
    single_entry(
        answers.proton_drive_bin@,
        SyncConfigView {
            name: answers.name@,
            mode: chosen_mode(answers.direction),
            local: answers.local@,
            remote: answers.remote@,
            ready_marker: if answers.marker@.len() == 0 {
                None
            } else {
                Some(answers.marker@)
            },
            delete: if answers.exact {
                DeletePolicy::Trash
            } else {
                DeletePolicy::Keep
            },
            conflict: chosen_policy(chosen_mode(answers.direction), answers.resolution),
            exclude: Seq::empty(),
        },
    )
}

/// The configuration that the answers of the interactive setup ask for.
pub fn setup_config(answers: SetupAnswers) -> (r: Config)
    requires
        answers.direction < 3,
        answers.resolution < 3,
    ensures
        r@ == answered_config(answers),
{
    let mode = setup_mode(answers.direction);
    let conflict = if !matches!(mode, SyncMode::TwoWay) || answers.resolution == 0 {
        ConflictPolicy::Fail
    } else if answers.resolution == 1 {
        ConflictPolicy::LocalWins
    } else {
        ConflictPolicy::RemoteWins
    };
    let ready_marker = if answers.marker.as_str().is_empty() {
        None
    } else {
        Some(answers.marker)
    };
    let delete = if answers.exact {
        DeletePolicy::Trash
    } else {
        DeletePolicy::Keep
    };
    let sync = SyncConfig {
        name: answers.name,
        mode,
        local: answers.local,
        remote: answers.remote,
        ready_marker,
        delete,
        conflict,
        exclude: Vec::new(),
    };
    assert(sync@.exclude =~= Seq::<Seq<char>>::empty());
    config_of(answers.proton_drive_bin, sync)
}

/// What the interactive setup does next.
#[derive(Clone, Copy, Debug, PartialEq, Eq, Structural)]
pub enum SetupStep {
    /// Asks whether the configuration that is there is to be replaced.
    Confirm,
    /// Asks for what the configuration is to hold, and writes it if it is valid.
    Ask,
    /// Leaves the configuration that is there.
    Leave,
}

/// What the interactive setup does next: a configuration that is there is replaced only if that is
/// confirmed. `replace` is the answer to that, once it was given.
pub fn setup_step(exists: bool, replace: Option<bool>) -> (r: SetupStep)
    ensures
        r == (if !exists {
            SetupStep::Ask
        } else {
            match replace {
                None => SetupStep::Confirm,
                Some(true) => SetupStep::Ask,
                Some(false) => SetupStep::Leave,
            }
        }),
{
    if !exists {
        return SetupStep::Ask;
    }
    match replace {
        None => SetupStep::Confirm,
        Some(true) => SetupStep::Ask,
        Some(false) => SetupStep::Leave,
    }
}

/// The configuration that the interactive setup writes: that of the answers, if it is valid.
pub fn setup(answers: SetupAnswers) -> (r: Result<Config, SyncError>)
    requires
        answers.direction < 3,
        answers.resolution < 3,
    ensures
        match r {
            Ok(config) => {
                &&& config_fault(answered_config(answers)) is None
                &&& config@ == answered_config(answers)
            },
            Err(error) => config_fault(answered_config(answers)) == Some(error@),
        },
{
    let config = setup_config(answers);
    match validate_config(&config) {
        Ok(_) => Ok(config),
        Err(error) => Err(error),
    }
}

/// How a summary is shown.
pub open spec fn summary_wording(name: Seq<char>, summary: SummaryView) -> Seq<char> {
    "[pdrive-sync] "@ + name + ": scanned="@ + decimal(summary.scanned) + " unchanged="@ + decimal(
        summary.unchanged,
    ) + " matched_remote="@ + decimal(summary.matched_remote) + " uploaded="@ + decimal(
        summary.uploaded,
    ) + " downloaded="@ + decimal(summary.downloaded) + " trashed_remote="@ + decimal(
        summary.trashed,
    ) + " trashed_local="@ + decimal(summary.trashed_local) + " skipped_symlinks="@ + decimal(
        summary.skipped_symlinks,
    )
}

/// How a summary is shown.
pub fn summary_line(name: &str, summary: &SyncSummary) -> (r: String)
    ensures
        r@ == summary_wording(name@, summary@),
{
    let mut line = "[pdrive-sync] ".to_owned();
    line.append(name);
    line.append(": scanned=");
    line.append(decimal_text(summary.scanned as u64).as_str());
    line.append(" unchanged=");
    line.append(decimal_text(summary.unchanged as u64).as_str());
    line.append(" matched_remote=");
    line.append(decimal_text(summary.matched_remote as u64).as_str());
    line.append(" uploaded=");
    line.append(decimal_text(summary.uploaded as u64).as_str());
    line.append(" downloaded=");
    line.append(decimal_text(summary.downloaded as u64).as_str());
    line.append(" trashed_remote=");
    line.append(decimal_text(summary.trashed as u64).as_str());
    line.append(" trashed_local=");
    line.append(decimal_text(summary.trashed_local as u64).as_str());
    line.append(" skipped_symlinks=");
    line.append(decimal_text(summary.skipped_symlinks as u64).as_str());
    line
}

/// How a valid configuration is reported.
pub fn validation_line(path: &str, config: &Config) -> (r: String)
    ensures
        r@ == path@ + ": valid ("@ + decimal(config.syncs@.len()) + " sync"@ + (
        if config.syncs@.len() == 1 {
            ""@
        } else {
            "s"@
        }) + ")"@,
{
    let mut line = path.to_owned();
    line.append(": valid (");
    line.append(decimal_text(config.syncs.len() as u64).as_str());
    line.append(" sync");
    line.append(
        if config.syncs.len() == 1 {
            ""
        } else {
            "s"
        },
    );
    line.append(")");
    line
}

} // verus!
