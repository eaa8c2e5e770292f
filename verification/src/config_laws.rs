//! Which configurations are valid, and which entries are run.

use crate::config::{config_fault, first_sync_fault, sync_fault, ConfigView, ConflictPolicy};
use crate::config::{DeletePolicy, SyncConfigView, SyncMode};
use crate::digest::{mode_number, one_off_input};
use crate::entries::{answered_config, named_entries, selection, unknown_names, SetupAnswers};
use crate::error::Fault;
use crate::excludes::{excludes_fault, first_bad_pattern, glob_error, set_builds};
use vstd::prelude::*;

verus! {

/// White space, as Unicode has it.
pub open spec fn is_space(c: char) -> bool {
    ||| 0x9 <= c as int <= 0xd
    ||| c == ' '
    ||| c as int == 0x85
    ||| c as int == 0xa0
    ||| c as int == 0x1680
    ||| 0x2000 <= c as int <= 0x200a
    ||| c as int == 0x2028
    ||| c as int == 0x2029
    ||| c as int == 0x202f
    ||| c as int == 0x205f
    ||| c as int == 0x3000
}

/// A name with something in it that is not white space.
pub open spec fn says_something(name: Seq<char>) -> bool {
    exists|i: int| 0 <= i < name.len() && !is_space(#[trigger] name[i])
}

/// No entry before the one at `i` has its name.
pub open spec fn name_is_new(syncs: Seq<SyncConfigView>, i: int) -> bool {
    forall|j: int| 0 <= j < i ==> #[trigger] syncs[j].name != syncs[i].name
}

/// A remote folder that is named by its whole path, and that is not the root of the drive.
pub open spec fn remote_is_below_the_root(sync: SyncConfigView) -> bool {
    sync.remote.len() > 1 && sync.remote[0] == '/'
}

/// A readiness marker, if there is one, that is below the local folder.
pub open spec fn marker_is_relative(sync: SyncConfigView) -> bool {
    sync.ready_marker matches Some(marker) ==> !(marker.len() > 0 && marker[0] == '/')
}

/// Exclude patterns that can be read, one by one and together.
pub open spec fn patterns_are_readable(sync: SyncConfigView) -> bool {
    &&& forall|k: int|
        0 <= k < sync.exclude.len() ==> glob_error(#[trigger] sync.exclude[k]) is None
    &&& set_builds(sync.exclude)
}

/// An entry that is as it should be.
pub open spec fn entry_is_valid(syncs: Seq<SyncConfigView>, i: int) -> bool {
    &&& says_something(syncs[i].name)
    &&& name_is_new(syncs, i)
    &&& remote_is_below_the_root(syncs[i])
    &&& marker_is_relative(syncs[i])
    &&& patterns_are_readable(syncs[i])
}

proof fn bad_pattern_is_first(patterns: Seq<Seq<char>>, from: int)
    requires
        0 <= from <= patterns.len(),
    ensures
        match first_bad_pattern(patterns, from) {
            None => forall|k: int|
                from <= k < patterns.len() ==> glob_error(#[trigger] patterns[k]) is None,
            Some(pattern) => exists|k: int|
                {
                    &&& from <= k < patterns.len()
                    &&& #[trigger] patterns[k] == pattern
                    &&& glob_error(pattern) is Some
                    &&& forall|m: int|
                        from <= m < k ==> glob_error(#[trigger] patterns[m]) is None
                },
        },
    decreases patterns.len() - from,
{
    if from < patterns.len() {
        bad_pattern_is_first(patterns, from + 1);
        if glob_error(patterns[from]) is Some {
            assert(patterns[from] == patterns[from]);
        } else if let Some(pattern) = first_bad_pattern(patterns, from + 1) {
            let k = choose|k: int|
                {
                    &&& from + 1 <= k < patterns.len()
                    &&& #[trigger] patterns[k] == pattern
                    &&& glob_error(pattern) is Some
                    &&& forall|m: int|
                        from + 1 <= m < k ==> glob_error(#[trigger] patterns[m]) is None
                };
            assert(from <= k < patterns.len() && patterns[k] == pattern);
        }
    }
}

/// What is wrong with an entry is the first of these that holds: its name says nothing, its name was
/// taken before, its remote folder is not below the root, its marker is not relative, one of its
/// patterns cannot be read, or the patterns cannot be read together. Nothing is wrong with any other
/// entry.
pub proof fn what_is_wrong_with_an_entry(syncs: Seq<SyncConfigView>, i: int)
    requires
        0 <= i < syncs.len(),
    ensures
        sync_fault(syncs, i) is None <==> entry_is_valid(syncs, i),
        !says_something(syncs[i].name) ==> sync_fault(syncs, i) == Some(
            Fault::<Seq<char>>::EmptyName,
        ),
        says_something(syncs[i].name) && !name_is_new(syncs, i) ==> sync_fault(syncs, i) == Some(
            Fault::<Seq<char>>::DuplicateName { name: syncs[i].name },
        ),
        says_something(syncs[i].name) && name_is_new(syncs, i) && !remote_is_below_the_root(
            syncs[i],
        ) ==> sync_fault(syncs, i) == Some(Fault::<Seq<char>>::BadRemote { name: syncs[i].name }),
        says_something(syncs[i].name) && name_is_new(syncs, i) && remote_is_below_the_root(syncs[i])
            && !marker_is_relative(syncs[i]) ==> sync_fault(syncs, i) == Some(
            Fault::<Seq<char>>::AbsoluteMarker { name: syncs[i].name },
        ),
        says_something(syncs[i].name) && name_is_new(syncs, i) && remote_is_below_the_root(syncs[i])
            && marker_is_relative(syncs[i]) ==> forall|k: int|
            #![trigger syncs[i].exclude[k]]
            0 <= k < syncs[i].exclude.len() && glob_error(syncs[i].exclude[k]) is Some && (forall|
                m: int,
            |
                0 <= m < k ==> glob_error(#[trigger] syncs[i].exclude[m]) is None) ==> sync_fault(
                syncs,
                i,
            ) == Some(
                Fault::<Seq<char>>::BadPattern {
                    name: syncs[i].name,
                    pattern: syncs[i].exclude[k],
                    error: glob_error(syncs[i].exclude[k])->Some_0,
                },
            ),
{
    let sync = syncs[i];
    bad_pattern_is_first(sync.exclude, 0);
    reveal_strlit("/");
    if sync.remote.len() == 1 && sync.remote[0] == '/' {
        assert(sync.remote =~= "/"@);
    }
    assert(name_is_new(syncs, i) == !(exists|j: int|
        0 <= j < i && #[trigger] syncs[j].name == sync.name));
    assert forall|k: int|
        #![trigger sync.exclude[k]]
        0 <= k < sync.exclude.len() && glob_error(sync.exclude[k]) is Some && (forall|m: int|
            0 <= m < k ==> glob_error(#[trigger] sync.exclude[m]) is None) implies excludes_fault(
        sync.name,
        sync.exclude,
    ) == Some(
        Fault::<Seq<char>>::BadPattern {
            name: sync.name,
            pattern: sync.exclude[k],
            error: glob_error(sync.exclude[k])->Some_0,
        },
    ) by {
        let pattern = first_bad_pattern(sync.exclude, 0)->Some_0;
        let j = choose|j: int|
            {
                &&& 0 <= j < sync.exclude.len()
                &&& #[trigger] sync.exclude[j] == pattern
                &&& glob_error(pattern) is Some
                &&& forall|m: int|
                    0 <= m < j ==> glob_error(#[trigger] sync.exclude[m]) is None
            };
        if j < k {
            assert(glob_error(sync.exclude[j]) is None);
        }
        if k < j {
            assert(glob_error(sync.exclude[k]) is None);
        }
    }
}

proof fn first_fault_is_first(syncs: Seq<SyncConfigView>, from: int)
    requires
        0 <= from <= syncs.len(),
    ensures
        match first_sync_fault(syncs, from) {
            None => forall|i: int|
                from <= i < syncs.len() ==> #[trigger] sync_fault(syncs, i) is None,
            Some(fault) => exists|i: int|
                {
                    &&& from <= i < syncs.len()
                    &&& #[trigger] sync_fault(syncs, i) == Some(fault)
                    &&& forall|j: int| from <= j < i ==> #[trigger] sync_fault(syncs, j) is None
                },
        },
    decreases syncs.len() - from,
{
    if from < syncs.len() {
        first_fault_is_first(syncs, from + 1);
        if sync_fault(syncs, from) is None {
            if let Some(fault) = first_sync_fault(syncs, from + 1) {
                let i = choose|i: int|
                    {
                        &&& from + 1 <= i < syncs.len()
                        &&& #[trigger] sync_fault(syncs, i) == Some(fault)
                        &&& forall|j: int|
                            from + 1 <= j < i ==> #[trigger] sync_fault(syncs, j) is None
                    };
                assert(from <= i < syncs.len() && sync_fault(syncs, i) == Some(fault));
            }
        }
    }
}

/// A configuration is valid exactly if it has an entry and every entry is as it should be. One that
/// is not valid for another reason than that it is empty is refused for what is wrong with the first
/// entry that is not as it should be.
pub proof fn which_configurations_are_valid(config: ConfigView)
    ensures
        config_fault(config) is None <==> config.syncs.len() > 0 && forall|i: int|
            0 <= i < config.syncs.len() ==> #[trigger] entry_is_valid(config.syncs, i),
        config.syncs.len() == 0 ==> config_fault(config) == Some(Fault::<Seq<char>>::NoSyncs),
        config.syncs.len() > 0 ==> forall|i: int|
            0 <= i < config.syncs.len() && !#[trigger] entry_is_valid(config.syncs, i) && (forall|
                j: int,
            |
                0 <= j < i ==> #[trigger] entry_is_valid(config.syncs, j)) ==> config_fault(config)
                == sync_fault(config.syncs, i),
{
    let syncs = config.syncs;
    first_fault_is_first(syncs, 0);
    assert forall|i: int| 0 <= i < syncs.len() implies (#[trigger] sync_fault(syncs, i) is None)
        == entry_is_valid(syncs, i) by {
        what_is_wrong_with_an_entry(syncs, i);
    }
    if config_fault(config) is None && syncs.len() > 0 {
        assert forall|i: int| 0 <= i < syncs.len() implies #[trigger] entry_is_valid(syncs, i) by {
            assert(sync_fault(syncs, i) is None);
        }
    }
    if syncs.len() > 0 {
        assert forall|i: int|
            0 <= i < syncs.len() && !#[trigger] entry_is_valid(syncs, i) && (forall|j: int|
                0 <= j < i ==> #[trigger] entry_is_valid(syncs, j)) implies config_fault(config)
            == sync_fault(syncs, i) by {
            assert(sync_fault(syncs, i) is Some);
            let fault = first_sync_fault(syncs, 0)->Some_0;
            let k = choose|k: int|
                {
                    &&& 0 <= k < syncs.len()
                    &&& #[trigger] sync_fault(syncs, k) == Some(fault)
                    &&& forall|j: int| 0 <= j < k ==> #[trigger] sync_fault(syncs, j) is None
                };
            assert(!entry_is_valid(syncs, k));
            if i < k {
                assert(sync_fault(syncs, i) is None);
            }
            if k < i {
                assert(entry_is_valid(syncs, k));
            }
        }
    }
}

proof fn named_entries_are_filtered(syncs: Seq<SyncConfigView>, names: Seq<Seq<char>>)
    ensures
        named_entries(syncs, names) == syncs.filter(
            |sync: SyncConfigView| names.contains(sync.name),
        ),
    decreases syncs.len(),
{
    reveal(Seq::filter);
    if syncs.len() > 0 {
        named_entries_are_filtered(syncs.drop_last(), names);
    }
}

/// With no name given every entry is run. With names given those entries are run whose names are
/// among them, in their order, and nothing else about the configuration changes. A name that no entry
/// has is refused.
pub proof fn which_entries_are_run(config: ConfigView, names: Seq<Seq<char>>)
    ensures
        names.len() == 0 ==> selection(config, names) == Ok::<ConfigView, Fault<Seq<char>>>(config),
        names.len() > 0 && (forall|k: int|
            0 <= k < names.len() ==> exists|i: int|
                0 <= i < config.syncs.len() && (#[trigger] config.syncs[i]).name
                    == #[trigger] names[k]) ==> selection(config, names) == Ok::<
            ConfigView,
            Fault<Seq<char>>,
        >(
            (ConfigView {
                syncs: config.syncs.filter(|sync: SyncConfigView| names.contains(sync.name)),
                ..config
            }),
        ),
        (exists|k: int|
            0 <= k < names.len() && forall|i: int|
                0 <= i < config.syncs.len() ==> (#[trigger] config.syncs[i]).name
                    != #[trigger] names[k]) ==> (selection(config, names) matches Err(fault)
            && fault is UnknownSyncs),
{
    let unknown = unknown_names(config.syncs, names);
    named_entries_are_filtered(config.syncs, names);
    assert(unknown.subset_of(names.to_set()));
    vstd::seq_lib::seq_to_set_is_finite(names);
    vstd::set_lib::lemma_set_subset_finite(names.to_set(), unknown);
    if names.len() > 0 && (forall|k: int|
        0 <= k < names.len() ==> exists|i: int|
            0 <= i < config.syncs.len() && (#[trigger] config.syncs[i]).name
                == #[trigger] names[k]) {
        assert forall|name: Seq<char>| !#[trigger] unknown.contains(name) by {
            if names.contains(name) {
                let k = choose|k: int| 0 <= k < names.len() && names[k] == name;
                assert(names[k] == name);
            }
        }
        assert(unknown =~= Set::<Seq<char>>::empty());
    }
    if exists|k: int|
        0 <= k < names.len() && forall|i: int|
            0 <= i < config.syncs.len() ==> (#[trigger] config.syncs[i]).name
                != #[trigger] names[k] {
        let k = choose|k: int|
            0 <= k < names.len() && forall|i: int|
                0 <= i < config.syncs.len() ==> (#[trigger] config.syncs[i]).name
                    != #[trigger] names[k];
        assert(unknown.contains(names[k]));
        if unknown.len() == 0 {
            assert(unknown =~= Set::<Seq<char>>::empty());
        }
    }
}

/// What the answers of the interactive setup ask for: one entry, with the name and the places that were
/// given; a push, a pull or a two-way sync by the first, second or third direction; deletions carried
/// over if the folders are to be exact; a marker unless none was named; a conflict policy by the first,
/// second or third choice if the sync is two-way, and the failing one if not; and nothing excluded.
pub proof fn what_the_answers_ask_for(answers: SetupAnswers)
    requires
        answers.direction < 3,
        answers.resolution < 3,
    ensures
        ({
            let config = answered_config(answers);
            let sync = config.syncs[0];
            &&& config.syncs.len() == 1
            &&& config.proton_drive_bin == answers.proton_drive_bin@
            &&& config.optimize_cli_cache
            &&& config.notifications
            &&& config.state_db is None
            &&& config.success_file is None
            &&& sync.name == answers.name@
            &&& sync.local == answers.local@
            &&& sync.remote == answers.remote@
            &&& sync.exclude.len() == 0
            &&& sync.mode == SyncMode::Push <==> answers.direction == 0
            &&& sync.mode == SyncMode::Pull <==> answers.direction == 1
            &&& sync.mode == SyncMode::TwoWay <==> answers.direction == 2
            &&& sync.delete == DeletePolicy::Trash <==> answers.exact
            &&& answers.marker@.len() == 0 <==> sync.ready_marker is None
            &&& sync.ready_marker matches Some(marker) ==> marker == answers.marker@
            &&& sync.conflict == ConflictPolicy::LocalWins <==> answers.direction == 2
                && answers.resolution == 1
            &&& sync.conflict == ConflictPolicy::RemoteWins <==> answers.direction == 2
                && answers.resolution == 2
        }),
{
}

proof fn split_at_zero(a: Seq<u8>, b: Seq<u8>, rest: Seq<u8>, other: Seq<u8>)
    requires
        a + seq![0u8] + rest == b + seq![0u8] + other,
        forall|i: int| 0 <= i < a.len() ==> #[trigger] a[i] != 0,
        forall|i: int| 0 <= i < b.len() ==> #[trigger] b[i] != 0,
    ensures
        a == b,
        rest == other,
{
    let whole = a + seq![0u8] + rest;
    let same = b + seq![0u8] + other;
    assert(whole[a.len() as int] == 0);
    assert(same[b.len() as int] == 0);
    if a.len() < b.len() {
        assert(same[a.len() as int] == b[a.len() as int]);
    }
    if b.len() < a.len() {
        assert(whole[b.len() as int] == a[b.len() as int]);
    }
    assert(a =~= whole.take(a.len() as int));
    assert(b =~= same.take(b.len() as int));
    assert(rest =~= whole.skip(a.len() as int + 1));
    assert(other =~= same.skip(b.len() as int + 1));
}

/// One-off syncs with other places or another mode are named after something else. A place cannot have
/// a zero in it.
pub proof fn one_off_names_tell_syncs_apart(
    local: Seq<u8>,
    remote: Seq<u8>,
    mode: SyncMode,
    other_local: Seq<u8>,
    other_remote: Seq<u8>,
    other_mode: SyncMode,
)
    requires
        forall|i: int| 0 <= i < local.len() ==> #[trigger] local[i] != 0,
        forall|i: int| 0 <= i < remote.len() ==> #[trigger] remote[i] != 0,
        forall|i: int| 0 <= i < other_local.len() ==> #[trigger] other_local[i] != 0,
        forall|i: int| 0 <= i < other_remote.len() ==> #[trigger] other_remote[i] != 0,
        one_off_input(local, remote, mode) == one_off_input(other_local, other_remote, other_mode),
    ensures
        local == other_local,
        remote == other_remote,
        mode == other_mode,
{
    let tail = seq![0u8, mode_number(mode)];
    let other_tail = seq![0u8, mode_number(other_mode)];
    let (end, other_end) = (seq![mode_number(mode)], seq![mode_number(other_mode)]);
    assert(tail =~= seq![0u8] + end);
    assert(other_tail =~= seq![0u8] + other_end);
    assert(local + seq![0u8] + remote + tail =~= local + seq![0u8] + (remote + seq![0u8] + end));
    assert(other_local + seq![0u8] + other_remote + other_tail =~= other_local + seq![0u8] + (
    other_remote + seq![0u8] + other_end));
    split_at_zero(
        local,
        other_local,
        remote + seq![0u8] + end,
        other_remote + seq![0u8] + other_end,
    );
    split_at_zero(remote, other_remote, end, other_end);
    assert(end[0] == other_end[0]);
}

} // verus!
