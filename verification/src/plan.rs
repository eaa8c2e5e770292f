//! Deciding, path by path, what a two-way sync does.

use crate::config::{ConflictPolicy, DeletePolicy, SyncConfig, SyncConfigView};
use crate::drive::{RemoteFile, RemoteFileView};
use crate::error::{Fault, SyncError};
use crate::path_map::PathMap;
use crate::state::FileState;
use crate::text::{eq_ignore_ascii_case, in_order, in_order_is_ordered, option_view, ordered};
use crate::text::{same_ignoring_case, same_ignoring_case_symmetric, same_ignoring_case_transitive};
use crate::text::{text_lt, text_lt_asymmetric, text_lt_irreflexive, views, views_push};
use vstd::prelude::*;

verus! {

/// A local file, by its path below the local root.
#[derive(Debug)]
pub struct LocalFile<T> {
    pub relative: T,
    pub size: u64,
    pub mtime_ns: i64,
}

impl View for LocalFile<String> {
    type V = LocalFile<Seq<char>>;

    open spec fn view(&self) -> LocalFile<Seq<char>> {
        LocalFile { relative: self.relative@, size: self.size, mtime_ns: self.mtime_ns }
    }
}

impl Clone for LocalFile<String> {
    fn clone(&self) -> (r: Self)
        ensures
            r@ == self@,
    {
        LocalFile {
            relative: self.relative.clone(),
            size: self.size,
            mtime_ns: self.mtime_ns,
        }
    }
}

/// A local file and the digest of its content.
#[derive(Debug)]
pub struct LocalSnapshot<T> {
    pub file: LocalFile<T>,
    pub sha1: T,
}

impl View for LocalSnapshot<String> {
    type V = LocalSnapshot<Seq<char>>;

    open spec fn view(&self) -> LocalSnapshot<Seq<char>> {
        LocalSnapshot { file: self.file@, sha1: self.sha1@ }
    }
}

/// What a two-way sync does to one path.
#[derive(Debug, PartialEq, Eq)]
pub enum TwoWayAction<T> {
    /// Both sides agree; remember that they do.
    Checkpoint { path: T, sha1: T },
    /// The local file replaces the remote one.
    Upload { path: T, sha1: T },
    /// The remote file replaces the local one.
    Download { path: T },
    /// The remote file moves to the trash of the drive.
    TrashRemote { path: T },
    /// The local file moves to the trash of the desktop.
    TrashLocal { path: T },
}

impl View for TwoWayAction<String> {
    type V = TwoWayAction<Seq<char>>;

    open spec fn view(&self) -> TwoWayAction<Seq<char>> {
        match *self {
            TwoWayAction::Checkpoint { path, sha1 } => TwoWayAction::Checkpoint {
                path: path@,
                sha1: sha1@,
            },
            TwoWayAction::Upload { path, sha1 } => TwoWayAction::Upload {
                path: path@,
                sha1: sha1@,
            },
            TwoWayAction::Download { path } => TwoWayAction::Download { path: path@ },
            TwoWayAction::TrashRemote { path } => TwoWayAction::TrashRemote { path: path@ },
            TwoWayAction::TrashLocal { path } => TwoWayAction::TrashLocal { path: path@ },
        }
    }
}

impl<T> TwoWayAction<T> {
    /// The path that an action is about.
    pub open spec fn target(self) -> T {
        match self {
            TwoWayAction::Checkpoint { path, sha1 } => path,
            TwoWayAction::Upload { path, sha1 } => path,
            TwoWayAction::Download { path } => path,
            TwoWayAction::TrashRemote { path } => path,
            TwoWayAction::TrashLocal { path } => path,
        }
    }
}

/// The same size, and the same digest.
pub open spec fn contents_agree(local: LocalSnapshot<Seq<char>>, remote: RemoteFileView) -> bool {
    local.file.size == remote.claimed_size && same_ignoring_case(local.sha1, remote.sha1)
}

/// Whether a local file and a remote file have the same content.
pub fn same_content(local: &LocalSnapshot<String>, remote: &RemoteFile) -> (r: bool)
    ensures
        r == contents_agree(local@, remote@),
{
    local.file.size == remote.claimed_size && eq_ignore_ascii_case(
        local.sha1.as_str(),
        remote.sha1.as_str(),
    )
}

/// How a conflict at a path is resolved. The side that wins is kept; where the winner is a missing
/// file, the other side goes to trash if deletions are carried over, and is copied back if not.
pub open spec fn conflict_resolution(
    conflict: ConflictPolicy,
    delete: DeletePolicy,
    path: Seq<char>,
    local: Option<LocalSnapshot<Seq<char>>>,
    remote: Option<RemoteFileView>,
) -> Result<TwoWayAction<Seq<char>>, Fault<Seq<char>>> {
    match conflict {
        ConflictPolicy::Fail => Err(Fault::Conflict { path }),
        ConflictPolicy::LocalWins => match local {
            Some(local) => Ok(TwoWayAction::Upload { path, sha1: local.sha1 }),
            None => if delete == DeletePolicy::Trash {
                Ok(TwoWayAction::TrashRemote { path })
            } else {
                Ok(TwoWayAction::Download { path })
            },
        },
        ConflictPolicy::RemoteWins => match remote {
            Some(_) => Ok(TwoWayAction::Download { path }),
            None => if delete == DeletePolicy::Trash {
                Ok(TwoWayAction::TrashLocal { path })
            } else {
                match local {
                    Some(local) => Ok(TwoWayAction::Upload { path, sha1: local.sha1 }),
                    None => Err(Fault::NoSide),
                }
            },
        },
    }
}

/// The view of an action that was decided on.
pub open spec fn action_view(r: Result<TwoWayAction<String>, SyncError>) -> Result<
    TwoWayAction<Seq<char>>,
    Fault<Seq<char>>,
> {
    match r {
        Ok(action) => Ok(action@),
        Err(error) => Err(error@),
    }
}

/// Resolves a conflict at a path as the entry asks for.
pub fn resolve_two_way_conflict(
    sync: &SyncConfig,
    path: String,
    local: Option<&LocalSnapshot<String>>,
    remote: Option<&RemoteFile>,
) -> (r: Result<TwoWayAction<String>, SyncError>)
    ensures
        action_view(r) == conflict_resolution(
            sync.conflict,
            sync.delete,
            path@,
            option_view(local),
            option_view(remote),
        ),
{
    match sync.conflict {
        ConflictPolicy::Fail => Err(Fault::Conflict { path }),
        ConflictPolicy::LocalWins => match local {
            Some(local) => Ok(TwoWayAction::Upload { path, sha1: local.sha1.clone() }),
            None => if matches!(sync.delete, DeletePolicy::Trash) {
                Ok(TwoWayAction::TrashRemote { path })
            } else {
                Ok(TwoWayAction::Download { path })
            },
        },
        ConflictPolicy::RemoteWins => match remote {
            Some(_) => Ok(TwoWayAction::Download { path }),
            None => if matches!(sync.delete, DeletePolicy::Trash) {
                Ok(TwoWayAction::TrashLocal { path })
            } else {
                match local {
                    Some(local) => Ok(TwoWayAction::Upload { path, sha1: local.sha1.clone() }),
                    None => Err(Fault::NoSide),
                }
            },
        },
    }
}

/// What a two-way sync plans from: the two sides as they are, and the state that they last agreed
/// on.
#[verifier::ext_equal]
pub struct TwoWayView {
    pub conflict: ConflictPolicy,
    pub delete: DeletePolicy,
    pub local: Map<Seq<char>, LocalSnapshot<Seq<char>>>,
    pub remote: Map<Seq<char>, RemoteFileView>,
    pub states: Map<Seq<char>, FileState<Seq<char>>>,
}

/// The value under a key, if there is one.
pub open spec fn lookup<V>(map: Map<Seq<char>, V>, key: Seq<char>) -> Option<V> {
    if map.contains_key(key) {
        Some(map[key])
    } else {
        None
    }
}

impl TwoWayView {
    /// How a conflict at a path is resolved.
    pub open spec fn resolution(self, path: Seq<char>) -> Result<
        Option<TwoWayAction<Seq<char>>>,
        Fault<Seq<char>>,
    > {
        match conflict_resolution(
            self.conflict,
            self.delete,
            path,
            lookup(self.local, path),
            lookup(self.remote, path),
        ) {
            Ok(action) => Ok(Some(action)),
            Err(fault) => Err(fault),
        }
    }

    /// What is done to a path: nothing, one action, or a conflict that stops the sync.
    pub open spec fn decision(self, path: Seq<char>) -> Result<
        Option<TwoWayAction<Seq<char>>>,
        Fault<Seq<char>>,
    > {
        match (lookup(self.local, path), lookup(self.remote, path), lookup(self.states, path)) {
            (Some(local), Some(remote), state) => if contents_agree(local, remote) {
                Ok(Some(TwoWayAction::Checkpoint { path, sha1: local.sha1 }))
            } else {
                match state {
                    None => self.resolution(path),
                    Some(state) => {
                        let local_same = same_ignoring_case(local.sha1, state.sha1);
                        let remote_same = same_ignoring_case(remote.sha1, state.sha1);
                        if remote_same && !local_same {
                            Ok(Some(TwoWayAction::Upload { path, sha1: local.sha1 }))
                        } else if local_same && !remote_same {
                            Ok(Some(TwoWayAction::Download { path }))
                        } else {
                            self.resolution(path)
                        }
                    },
                }
            },
            (Some(local), None, state) => if state is None || self.delete == DeletePolicy::Keep {
                Ok(Some(TwoWayAction::Upload { path, sha1: local.sha1 }))
            } else if same_ignoring_case(local.sha1, state->0.sha1) {
                Ok(Some(TwoWayAction::TrashLocal { path }))
            } else {
                self.resolution(path)
            },
            (None, Some(remote), state) => if state is None || self.delete == DeletePolicy::Keep {
                Ok(Some(TwoWayAction::Download { path }))
            } else if same_ignoring_case(remote.sha1, state->0.sha1) {
                Ok(Some(TwoWayAction::TrashRemote { path }))
            } else {
                self.resolution(path)
            },
            (None, None, _) => Ok(None),
        }
    }

    /// Every path that either side or the state knows, in order.
    pub open spec fn paths(self) -> Seq<Seq<char>> {
        in_order(self.local.dom() + self.remote.dom() + self.states.dom())
    }

    /// The actions for the first `count` of a list of paths, or the first conflict among them.
    pub open spec fn actions_for(self, paths: Seq<Seq<char>>, count: nat) -> Result<
        Seq<TwoWayAction<Seq<char>>>,
        Fault<Seq<char>>,
    >
        decreases count,
    {
        if count == 0 {
            Ok(Seq::empty())
        } else {
            match self.actions_for(paths, (count - 1) as nat) {
                Err(fault) => Err(fault),
                Ok(actions) => match self.decision(paths[count - 1]) {
                    Err(fault) => Err(fault),
                    Ok(Some(action)) => Ok(actions.push(action)),
                    Ok(None) => Ok(actions),
                },
            }
        }
    }

    /// The actions for all paths in order, or the first conflict.
    pub open spec fn plan(self) -> Result<Seq<TwoWayAction<Seq<char>>>, Fault<Seq<char>>> {
        self.actions_for(self.paths(), self.paths().len())
    }
}

/// The view of what `plan_two_way` plans from.
pub open spec fn two_way_view(
    sync: SyncConfigView,
    local: Map<Seq<char>, LocalSnapshot<Seq<char>>>,
    remote: Map<Seq<char>, RemoteFileView>,
    states: Map<Seq<char>, FileState<Seq<char>>>,
) -> TwoWayView {
    TwoWayView { conflict: sync.conflict, delete: sync.delete, local, remote, states }
}

fn decide(
    sync: &SyncConfig,
    path: &String,
    local: &PathMap<LocalSnapshot<String>>,
    remote: &PathMap<RemoteFile>,
    states: &PathMap<FileState<String>>,
) -> (r: Result<Option<TwoWayAction<String>>, SyncError>)
    ensures
        match r {
            Ok(action) => two_way_view(sync@, local@, remote@, states@).decision(path@) == Ok::<
                Option<TwoWayAction<Seq<char>>>,
                Fault<Seq<char>>,
            >(option_view(action)),
            Err(error) => two_way_view(sync@, local@, remote@, states@).decision(path@) == Err::<
                Option<TwoWayAction<Seq<char>>>,
                Fault<Seq<char>>,
            >(error@),
        },
{
    let local_file = local.get(path.as_str());
    let remote_file = remote.get(path.as_str());
    let state = states.get(path.as_str());
    let conflict = match (local_file, remote_file) {
        (Some(local), Some(remote)) => {
            if same_content(local, remote) {
                return Ok(
                    Some(
                        TwoWayAction::Checkpoint { path: path.clone(), sha1: local.sha1.clone() },
                    ),
                );
            }
            if let Some(state) = state {
                let local_same = eq_ignore_ascii_case(local.sha1.as_str(), state.sha1.as_str());
                let remote_same = eq_ignore_ascii_case(remote.sha1.as_str(), state.sha1.as_str());
                if remote_same && !local_same {
                    return Ok(
                        Some(
                            TwoWayAction::Upload { path: path.clone(), sha1: local.sha1.clone() },
                        ),
                    );
                }
                if local_same && !remote_same {
                    return Ok(Some(TwoWayAction::Download { path: path.clone() }));
                }
            }
            resolve_two_way_conflict(sync, path.clone(), local_file, remote_file)
        },
        (Some(local), None) => {
            match state {
                Some(state) if matches!(sync.delete, DeletePolicy::Trash) => {
                    if eq_ignore_ascii_case(local.sha1.as_str(), state.sha1.as_str()) {
                        return Ok(Some(TwoWayAction::TrashLocal { path: path.clone() }));
                    }
                },
                _ => {
                    return Ok(
                        Some(
                            TwoWayAction::Upload { path: path.clone(), sha1: local.sha1.clone() },
                        ),
                    );
                },
            }
            resolve_two_way_conflict(sync, path.clone(), local_file, None)
        },
        (None, Some(remote)) => {
            match state {
                Some(state) if matches!(sync.delete, DeletePolicy::Trash) => {
                    if eq_ignore_ascii_case(remote.sha1.as_str(), state.sha1.as_str()) {
                        return Ok(Some(TwoWayAction::TrashRemote { path: path.clone() }));
                    }
                },
                _ => {
                    return Ok(Some(TwoWayAction::Download { path: path.clone() }));
                },
            }
            resolve_two_way_conflict(sync, path.clone(), None, remote_file)
        },
        (None, None) => {
            return Ok(None);
        },
    };
    match conflict {
        Ok(action) => Ok(Some(action)),
        Err(error) => Err(error),
    }
}

fn add_keys<V: View>(all: &mut PathMap<()>, map: &PathMap<V>)
    ensures
        final(all)@.dom() == old(all)@.dom() + map@.dom(),
{
    let keys = map.keys();
    let ghost before = all@.dom();
    let mut i: usize = 0;
    while i < keys.len()
        invariant
            i <= keys.len(),
            all@.dom() == before + views(keys@).take(i as int).to_set(),
        decreases keys.len() - i,
    {
        all.insert(keys[i].clone(), ());
        proof {
            let done = views(keys@).take(i as int);
            let next = views(keys@).take(i + 1);
            assert(next =~= done.push(keys@[i as int]@));
            assert forall|k: Seq<char>| #[trigger] next.to_set().contains(k) implies (
            done.to_set().contains(k) || k == keys@[i as int]@) by {
                let m = choose|m: int| 0 <= m < next.len() && next[m] == k;
                if m < i {
                    assert(done[m] == k);
                }
            }
            assert forall|k: Seq<char>| #[trigger] done.to_set().contains(k) implies next.to_set().contains(
                k,
            ) by {
                let m = choose|m: int| 0 <= m < done.len() && done[m] == k;
                assert(next[m] == k);
            }
            assert(next[i as int] == keys@[i as int]@);
            assert(next.to_set().contains(keys@[i as int]@));
            assert(all@.dom() =~= before + next.to_set());
        }
        i += 1;
    }
    assert(views(keys@).take(i as int) =~= views(keys@));
}

/// The view of a list of planned actions.
pub open spec fn plan_view(r: Result<Vec<TwoWayAction<String>>, SyncError>) -> Result<
    Seq<TwoWayAction<Seq<char>>>,
    Fault<Seq<char>>,
> {
    match r {
        Ok(actions) => Ok(views(actions@)),
        Err(error) => Err(error@),
    }
}

/// Plans a two-way sync: decides every path that either side or the state knows, in order, and
/// stops at the first conflict.
pub fn plan_two_way(
    sync: &SyncConfig,
    local: &PathMap<LocalSnapshot<String>>,
    remote: &PathMap<RemoteFile>,
    states: &PathMap<FileState<String>>,
) -> (r: Result<Vec<TwoWayAction<String>>, SyncError>)
    ensures
        plan_view(r) == two_way_view(sync@, local@, remote@, states@).plan(),
{
    let mut all: PathMap<()> = PathMap::new();
    add_keys(&mut all, local);
    add_keys(&mut all, remote);
    add_keys(&mut all, states);
    let ghost input = two_way_view(sync@, local@, remote@, states@);
    assert(all@.dom() =~= local@.dom() + remote@.dom() + states@.dom());
    let paths = all.keys();
    let mut actions: Vec<TwoWayAction<String>> = Vec::new();
    assert(views(actions@) =~= Seq::<TwoWayAction<Seq<char>>>::empty());
    let mut i: usize = 0;
    while i < paths.len()
        invariant
            i <= paths.len(),
            input == two_way_view(sync@, local@, remote@, states@),
            views(paths@) == input.paths(),
            input.actions_for(input.paths(), i as nat) == Ok::<
                Seq<TwoWayAction<Seq<char>>>,
                Fault<Seq<char>>,
            >(views(actions@)),
        decreases paths.len() - i,
    {
        match decide(sync, &paths[i], local, remote, states) {
            Ok(Some(action)) => {
                proof {
                    views_push(actions@, action);
                }
                actions.push(action);
            },
            Ok(None) => {},
            Err(error) => {
                proof {
                    input.fault_stays(input.paths(), (i + 1) as nat, input.paths().len());
                }
                return Err(error);
            },
        }
        i += 1;
    }
    Ok(actions)
}

impl TwoWayView {
    proof fn fault_stays(self, paths: Seq<Seq<char>>, from: nat, to: nat)
        requires
            from <= to,
            self.actions_for(paths, from) is Err,
        ensures
            self.actions_for(paths, to) == self.actions_for(paths, from),
        decreases to,
    {
        if from < to {
            self.fault_stays(paths, from, (to - 1) as nat);
        }
    }
}

impl TwoWayView {
    /// Both sides and the state hold finitely many paths.
    pub open spec fn finite(self) -> bool {
        self.local.dom().finite() && self.remote.dom().finite() && self.states.dom().finite()
    }

    proof fn actions_come_from_decisions(self, paths: Seq<Seq<char>>, count: nat)
        requires
            count <= paths.len(),
            self.actions_for(paths, count) is Ok,
        ensures
            forall|i: int|
                0 <= i < self.actions_for(paths, count)->Ok_0.len() ==> exists|k: int|
                    0 <= k < count && self.decision(#[trigger] paths[k]) == Ok::<
                        Option<TwoWayAction<Seq<char>>>,
                        Fault<Seq<char>>,
                    >(Some(#[trigger] self.actions_for(paths, count)->Ok_0[i])),
        decreases count,
    {
        if count > 0 {
            let before = self.actions_for(paths, (count - 1) as nat)->Ok_0;
            let all = self.actions_for(paths, count)->Ok_0;
            self.actions_come_from_decisions(paths, (count - 1) as nat);
            assert forall|i: int| 0 <= i < all.len() implies exists|k: int|
                0 <= k < count && self.decision(#[trigger] paths[k]) == Ok::<
                    Option<TwoWayAction<Seq<char>>>,
                    Fault<Seq<char>>,
                >(Some(#[trigger] all[i])) by {
                if i < before.len() {
                    assert(all[i] == before[i]);
                    let k = choose|k: int|
                        0 <= k < count - 1 && self.decision(#[trigger] paths[k]) == Ok::<
                            Option<TwoWayAction<Seq<char>>>,
                            Fault<Seq<char>>,
                        >(Some(before[i]));
                    assert(0 <= k < count);
                } else {
                    assert(self.decision(paths[count - 1]) == Ok::<
                        Option<TwoWayAction<Seq<char>>>,
                        Fault<Seq<char>>,
                    >(Some(all[i])));
                }
            }
        }
    }

    proof fn decisions_make_actions(self, paths: Seq<Seq<char>>, count: nat, k: int)
        requires
            0 <= k < count <= paths.len(),
            self.actions_for(paths, count) is Ok,
        ensures
            self.decision(paths[k]) is Ok,
            self.decision(paths[k])->Ok_0 matches Some(action) ==> self.actions_for(
                paths,
                count,
            )->Ok_0.contains(action),
        decreases count,
    {
        let all = self.actions_for(paths, count)->Ok_0;
        if k < count - 1 {
            self.decisions_make_actions(paths, (count - 1) as nat, k);
            let before = self.actions_for(paths, (count - 1) as nat)->Ok_0;
            if let Some(action) = self.decision(paths[k])->Ok_0 {
                let i = choose|i: int| 0 <= i < before.len() && before[i] == action;
                assert(all[i] == action);
            }
        } else if self.decision(paths[k])->Ok_0 is Some {
            assert(all[all.len() - 1] == self.decision(paths[k])->Ok_0->0);
        }
    }

    proof fn actions_are_ordered(self, paths: Seq<Seq<char>>, count: nat)
        requires
            count <= paths.len(),
            ordered(paths),
            self.actions_for(paths, count) is Ok,
        ensures
            forall|i: int, j: int|
                0 <= i < j < self.actions_for(paths, count)->Ok_0.len() ==> text_lt(
                    (#[trigger] self.actions_for(paths, count)->Ok_0[i]).target(),
                    (#[trigger] self.actions_for(paths, count)->Ok_0[j]).target(),
                ),
        decreases count,
    {
        if count > 0 {
            let before = self.actions_for(paths, (count - 1) as nat)->Ok_0;
            let all = self.actions_for(paths, count)->Ok_0;
            self.actions_are_ordered(paths, (count - 1) as nat);
            self.actions_come_from_decisions(paths, (count - 1) as nat);
            assert forall|i: int, j: int| 0 <= i < j < all.len() implies text_lt(
                (#[trigger] all[i]).target(),
                (#[trigger] all[j]).target(),
            ) by {
                assert(all[i] == before[i]);
                if j < before.len() {
                    assert(all[j] == before[j]);
                } else {
                    let k = choose|k: int|
                        0 <= k < count - 1 && self.decision(#[trigger] paths[k]) == Ok::<
                            Option<TwoWayAction<Seq<char>>>,
                            Fault<Seq<char>>,
                        >(Some(before[i]));
                    self.decision_is_about(paths[k], before[i]);
                    self.decision_is_about(paths[count - 1], all[j]);
                    assert(text_lt(paths[k], paths[count - 1]));
                }
            }
        }
    }

    /// A decision is about the path that it was made for, and copies or trashes a file that is
    /// there.
    pub proof fn decision_is_about(self, path: Seq<char>, action: TwoWayAction<Seq<char>>)
        requires
            self.decision(path) == Ok::<Option<TwoWayAction<Seq<char>>>, Fault<Seq<char>>>(
                Some(action),
            ),
        ensures
            action.target() == path,
            action is Checkpoint || action is Upload || action is TrashLocal
                ==> self.local.contains_key(path),
            action is Download || action is TrashRemote ==> self.remote.contains_key(path),
    {
    }

    /// Every action of a plan is the decision about its path.
    pub proof fn plan_has_reasons(self)
        requires
            self.plan() is Ok,
        ensures
            forall|i: int|
                0 <= i < self.plan()->Ok_0.len() ==> self.decision(
                    (#[trigger] self.plan()->Ok_0[i]).target(),
                ) == Ok::<Option<TwoWayAction<Seq<char>>>, Fault<Seq<char>>>(
                    Some(self.plan()->Ok_0[i]),
                ),
    {
        let paths = self.paths();
        self.actions_come_from_decisions(paths, paths.len());
        assert forall|i: int| 0 <= i < self.plan()->Ok_0.len() implies self.decision(
            (#[trigger] self.plan()->Ok_0[i]).target(),
        ) == Ok::<Option<TwoWayAction<Seq<char>>>, Fault<Seq<char>>>(Some(self.plan()->Ok_0[i])) by {
            let action = self.actions_for(paths, paths.len())->Ok_0[i];
            let k = choose|k: int|
                0 <= k < paths.len() && self.decision(#[trigger] paths[k]) == Ok::<
                    Option<TwoWayAction<Seq<char>>>,
                    Fault<Seq<char>>,
                >(Some(action));
            self.decision_is_about(paths[k], action);
        }
    }

    /// The plan is exactly what is decided path by path: every action of the plan is the decision
    /// about its path, every decision to act is in the plan, and the actions come in the order of
    /// their paths, none twice.
    pub proof fn plan_is_exact(self)
        requires
            self.finite(),
            self.plan() is Ok,
        ensures
            forall|i: int|
                0 <= i < self.plan()->Ok_0.len() ==> self.decision(
                    (#[trigger] self.plan()->Ok_0[i]).target(),
                ) == Ok::<Option<TwoWayAction<Seq<char>>>, Fault<Seq<char>>>(
                    Some(self.plan()->Ok_0[i]),
                ),
            forall|path: Seq<char>, action: TwoWayAction<Seq<char>>| #[trigger]
                self.decision(path) == Ok::<Option<TwoWayAction<Seq<char>>>, Fault<Seq<char>>>(
                    Some(action),
                ) ==> #[trigger] self.plan()->Ok_0.contains(action),
            forall|i: int, j: int|
                0 <= i < j < self.plan()->Ok_0.len() ==> text_lt(
                    (#[trigger] self.plan()->Ok_0[i]).target(),
                    (#[trigger] self.plan()->Ok_0[j]).target(),
                ),
    {
        let paths = self.paths();
        let all = self.local.dom() + self.remote.dom() + self.states.dom();
        in_order_is_ordered(all);
        self.plan_has_reasons();
        self.actions_are_ordered(paths, paths.len());
        assert forall|path: Seq<char>, action: TwoWayAction<Seq<char>>| #[trigger]
            self.decision(path) == Ok::<Option<TwoWayAction<Seq<char>>>, Fault<Seq<char>>>(
                Some(action),
            ) implies #[trigger] self.plan()->Ok_0.contains(action) by {
            self.decision_is_about(path, action);
            assert(all.contains(path));
            assert(paths.to_set().contains(path));
            let k = choose|k: int| 0 <= k < paths.len() && paths[k] == path;
            self.decisions_make_actions(paths, paths.len(), k);
        }
    }

    proof fn fault_comes_from_first(self, paths: Seq<Seq<char>>, count: nat)
        requires
            count <= paths.len(),
        ensures
            match self.actions_for(paths, count) {
                Ok(_) => forall|k: int| 0 <= k < count ==> self.decision(#[trigger] paths[k]) is Ok,
                Err(fault) => exists|k: int|
                    {
                        &&& 0 <= k < count
                        &&& self.decision(#[trigger] paths[k]) == Err::<
                            Option<TwoWayAction<Seq<char>>>,
                            Fault<Seq<char>>,
                        >(fault)
                        &&& forall|m: int| 0 <= m < k ==> self.decision(#[trigger] paths[m]) is Ok
                    },
            },
        decreases count,
    {
        if count > 0 {
            self.fault_comes_from_first(paths, (count - 1) as nat);
            match self.actions_for(paths, (count - 1) as nat) {
                Ok(_) => {
                    assert(self.actions_for(paths, count) is Err ==> self.decision(
                        paths[count - 1],
                    ) is Err);
                },
                Err(fault) => {
                    let k = choose|k: int|
                        {
                            &&& 0 <= k < count - 1
                            &&& self.decision(#[trigger] paths[k]) == Err::<
                                Option<TwoWayAction<Seq<char>>>,
                                Fault<Seq<char>>,
                            >(fault)
                            &&& forall|m: int|
                                0 <= m < k ==> self.decision(#[trigger] paths[m]) is Ok
                        };
                    assert(0 <= k < count);
                },
            }
        }
    }

    /// There is no plan exactly when some path is in conflict, and the conflict that is reported
    /// is the one at the first such path.
    pub proof fn no_plan_with_a_conflict(self)
        requires
            self.finite(),
        ensures
            self.plan() is Err <==> exists|path: Seq<char>| (#[trigger] self.decision(path)) is Err,
            self.plan() matches Err(fault) ==> exists|path: Seq<char>|
                {
                    &&& fault == Fault::<Seq<char>>::Conflict { path }
                    &&& (#[trigger] self.decision(path)) is Err
                    &&& forall|other: Seq<char>|
                        text_lt(other, path) ==> (#[trigger] self.decision(other)) is Ok
                },
    {
        let paths = self.paths();
        let all = self.local.dom() + self.remote.dom() + self.states.dom();
        in_order_is_ordered(all);
        self.fault_comes_from_first(paths, paths.len());
        assert forall|path: Seq<char>| (#[trigger] self.decision(path)) is Err implies (exists|k: int|
            0 <= k < paths.len() && #[trigger] paths[k] == path) by {
            assert(all.contains(path));
            assert(paths.to_set().contains(path));
        }
        if let Err(fault) = self.plan() {
            let k = choose|k: int|
                {
                    &&& 0 <= k < paths.len()
                    &&& self.decision(#[trigger] paths[k]) == Err::<
                        Option<TwoWayAction<Seq<char>>>,
                        Fault<Seq<char>>,
                    >(fault)
                    &&& forall|m: int| 0 <= m < k ==> self.decision(#[trigger] paths[m]) is Ok
                };
            let path = paths[k];
            assert(fault == Fault::<Seq<char>>::Conflict { path });
            assert forall|other: Seq<char>| text_lt(other, path) implies (
            #[trigger] self.decision(other)) is Ok by {
                if self.decision(other) is Err {
                    let m = choose|m: int| 0 <= m < paths.len() && #[trigger] paths[m] == other;
                    if m > k {
                        assert(text_lt(paths[k], paths[m]));
                        text_lt_asymmetric(path, other);
                    } else if m == k {
                        text_lt_irreflexive(path);
                    }
                }
            }
        }
    }

    /// A policy that names a winner leaves no conflict.
    pub proof fn a_winner_always_has_a_plan(self)
        requires
            self.finite(),
            self.conflict != ConflictPolicy::Fail,
        ensures
            self.plan() is Ok,
    {
        self.no_plan_with_a_conflict();
    }

    /// Unless deletions are carried over, nothing is trashed: what one side misses is copied back.
    pub proof fn keep_never_trashes(self, path: Seq<char>)
        requires
            self.delete == DeletePolicy::Keep,
        ensures
            !(self.decision(path) matches Ok(Some(action)) && (action is TrashLocal
                || action is TrashRemote)),
            self.local.contains_key(path) && !self.remote.contains_key(path) ==> self.decision(path)
                == Ok::<Option<TwoWayAction<Seq<char>>>, Fault<Seq<char>>>(
                Some(TwoWayAction::Upload { path, sha1: self.local[path].sha1 }),
            ),
            !self.local.contains_key(path) && self.remote.contains_key(path) ==> self.decision(path)
                == Ok::<Option<TwoWayAction<Seq<char>>>, Fault<Seq<char>>>(
                Some(TwoWayAction::Download { path }),
            ),
    {
    }

    /// A deletion is carried over only when deletions are to be, the file was there on both sides
    /// before, and the other side has not changed it or loses by the conflict policy.
    pub proof fn deletion_needs_an_unchanged_side(self, path: Seq<char>)
        ensures
            self.decision(path) == Ok::<Option<TwoWayAction<Seq<char>>>, Fault<Seq<char>>>(
                Some(TwoWayAction::TrashRemote { path }),
            ) ==> {
                &&& self.delete == DeletePolicy::Trash
                &&& !self.local.contains_key(path)
                &&& self.remote.contains_key(path)
                &&& self.states.contains_key(path)
                &&& same_ignoring_case(self.remote[path].sha1, self.states[path].sha1)
                    || self.conflict == ConflictPolicy::LocalWins
            },
            self.decision(path) == Ok::<Option<TwoWayAction<Seq<char>>>, Fault<Seq<char>>>(
                Some(TwoWayAction::TrashLocal { path }),
            ) ==> {
                &&& self.delete == DeletePolicy::Trash
                &&& self.local.contains_key(path)
                &&& !self.remote.contains_key(path)
                &&& self.states.contains_key(path)
                &&& same_ignoring_case(self.local[path].sha1, self.states[path].sha1)
                    || self.conflict == ConflictPolicy::RemoteWins
            },
    {
    }

    /// Where both sides have the same content, that is remembered and nothing is transferred.
    pub proof fn agreement_is_only_remembered(self, path: Seq<char>)
        requires
            self.local.contains_key(path),
            self.remote.contains_key(path),
            contents_agree(self.local[path], self.remote[path]),
        ensures
            self.decision(path) == Ok::<Option<TwoWayAction<Seq<char>>>, Fault<Seq<char>>>(
                Some(TwoWayAction::Checkpoint { path, sha1: self.local[path].sha1 }),
            ),
    {
    }

    /// A change on one side is copied to the side that did not change, whatever the policies.
    pub proof fn one_sided_change_is_copied(self, path: Seq<char>)
        requires
            self.local.contains_key(path),
            self.remote.contains_key(path),
            self.states.contains_key(path),
        ensures
            !same_ignoring_case(self.local[path].sha1, self.states[path].sha1)
                && same_ignoring_case(self.remote[path].sha1, self.states[path].sha1)
                ==> self.decision(path) == Ok::<
                Option<TwoWayAction<Seq<char>>>,
                Fault<Seq<char>>,
            >(Some(TwoWayAction::Upload { path, sha1: self.local[path].sha1 })),
            same_ignoring_case(self.local[path].sha1, self.states[path].sha1)
                && !same_ignoring_case(self.remote[path].sha1, self.states[path].sha1)
                ==> self.decision(path) == Ok::<
                Option<TwoWayAction<Seq<char>>>,
                Fault<Seq<char>>,
            >(Some(TwoWayAction::Download { path })),
    {
        let (local, remote) = (self.local[path].sha1, self.remote[path].sha1);
        let state = self.states[path].sha1;
        if same_ignoring_case(local, remote) {
            same_ignoring_case_symmetric(local, remote);
            if same_ignoring_case(remote, state) {
                same_ignoring_case_transitive(local, remote, state);
            }
            if same_ignoring_case(local, state) {
                same_ignoring_case_transitive(remote, local, state);
            }
        }
    }

    /// How the two sides stand at a path once an action was carried out there.
    pub open spec fn done_at(
        self,
        path: Seq<char>,
        action: TwoWayAction<Seq<char>>,
        after: TwoWayView,
    ) -> bool {
        match action {
            TwoWayAction::Checkpoint { .. } => {
                &&& lookup(after.local, path) == lookup(self.local, path)
                &&& lookup(after.remote, path) == lookup(self.remote, path)
            },
            TwoWayAction::Upload { .. } => {
                &&& lookup(after.local, path) == lookup(self.local, path)
                &&& after.remote.contains_key(path)
                &&& after.remote[path].sha1 == self.local[path].sha1
                &&& after.remote[path].claimed_size == self.local[path].file.size
            },
            TwoWayAction::Download { .. } => {
                &&& lookup(after.remote, path) == lookup(self.remote, path)
                &&& after.local.contains_key(path)
                &&& contents_agree(after.local[path], self.remote[path])
            },
            TwoWayAction::TrashRemote { .. } | TwoWayAction::TrashLocal { .. } => {
                &&& !after.local.contains_key(path)
                &&& !after.remote.contains_key(path)
            },
        }
    }

    /// An action settles its path: once it was carried out, a further sync finds both sides the
    /// same or both without the file, whatever is remembered and whatever the policies.
    pub proof fn action_settles_its_path(
        self,
        path: Seq<char>,
        action: TwoWayAction<Seq<char>>,
        after: TwoWayView,
    )
        requires
            self.decision(path) == Ok::<Option<TwoWayAction<Seq<char>>>, Fault<Seq<char>>>(
                Some(action),
            ),
            self.done_at(path, action, after),
        ensures
            after.decision(path) matches Ok(further) && (further matches Some(again)
                ==> again is Checkpoint),
    {
    }

    /// A plan leaves nothing to do: once every action of it was carried out, a further plan only
    /// remembers that both sides agree.
    pub proof fn plan_leaves_nothing_to_do(self, after: TwoWayView)
        requires
            self.finite(),
            after.finite(),
            self.plan() is Ok,
            forall|i: int|
                0 <= i < self.plan()->Ok_0.len() ==> self.done_at(
                    (#[trigger] self.plan()->Ok_0[i]).target(),
                    self.plan()->Ok_0[i],
                    after,
                ),
            forall|path: Seq<char>|
                !self.local.contains_key(path) && !self.remote.contains_key(path)
                    ==> !after.local.contains_key(path) && !#[trigger] after.remote.contains_key(
                    path,
                ),
        ensures
            after.plan() matches Ok(actions) && forall|i: int|
                0 <= i < actions.len() ==> (#[trigger] actions[i]) is Checkpoint,
    {
        self.plan_is_exact();
        self.no_plan_with_a_conflict();
        assert forall|path: Seq<char>| #[trigger] after.decision(path) matches Ok(further) && (
        further matches Some(again) ==> again is Checkpoint) by {
            assert(self.decision(path) is Ok);
            if let Some(action) = self.decision(path)->Ok_0 {
                let actions = self.plan()->Ok_0;
                assert(actions.contains(action));
                let i = choose|i: int| 0 <= i < actions.len() && actions[i] == action;
                self.decision_is_about(path, action);
                assert(self.done_at(self.plan()->Ok_0[i].target(), self.plan()->Ok_0[i], after));
                self.action_settles_its_path(path, action, after);
            } else {
                assert(!after.remote.contains_key(path));
            }
        }
        after.no_plan_with_a_conflict();
        after.plan_has_reasons();
        let actions = after.plan()->Ok_0;
        assert forall|i: int| 0 <= i < actions.len() implies (#[trigger] actions[i]) is Checkpoint by {
            assert(after.decision(after.plan()->Ok_0[i].target()) is Ok);
        }
    }
}

} // verus!
