//! What a two-way sync plans at a path.

use crate::config::{ConflictPolicy, DeletePolicy, SyncConfigView};
use crate::drive::RemoteFileView;
use crate::error::Fault;
use crate::plan::{conflict_resolution, two_way_view, LocalSnapshot, TwoWayAction};
use crate::state::FileState;
use crate::text::text_lt;
use crate::world::{digests_ignore_case, same_digest};
use vstd::prelude::*;

verus! {

/// The one action of a plan at a path.
pub open spec fn only_action(
    actions: Seq<TwoWayAction<Seq<char>>>,
    path: Seq<char>,
    action: TwoWayAction<Seq<char>>,
) -> bool {
    &&& actions.contains(action)
    &&& forall|i: int|
        0 <= i < actions.len() && (#[trigger] actions[i]).target() == path ==> actions[i] == action
}

/// The local files, the remote files and what is remembered, by their paths.
pub struct Sides {
    pub local: Map<Seq<char>, LocalSnapshot<Seq<char>>>,
    pub remote: Map<Seq<char>, RemoteFileView>,
    pub states: Map<Seq<char>, FileState<Seq<char>>>,
}

impl Sides {
    /// All three are finite.
    pub open spec fn finite(self) -> bool {
        self.local.dom().finite() && self.remote.dom().finite() && self.states.dom().finite()
    }

    /// What is planned.
    pub open spec fn plan(self, sync: SyncConfigView) -> Result<
        Seq<TwoWayAction<Seq<char>>>,
        Fault<Seq<char>>,
    > {
        two_way_view(sync, self.local, self.remote, self.states).plan()
    }

    /// The path is on both sides, with the same size and the same digest.
    pub open spec fn agree(self, path: Seq<char>) -> bool {
        &&& self.local.contains_key(path)
        &&& self.remote.contains_key(path)
        &&& self.local[path].file.size == self.remote[path].claimed_size
        &&& same_digest(self.local[path].sha1, self.remote[path].sha1)
    }

    /// The path is on both sides, and they do not agree.
    pub open spec fn disagree(self, path: Seq<char>) -> bool {
        self.local.contains_key(path) && self.remote.contains_key(path) && !self.agree(path)
    }

    /// The path is on the local side alone.
    pub open spec fn only_local(self, path: Seq<char>) -> bool {
        self.local.contains_key(path) && !self.remote.contains_key(path)
    }

    /// The path is on the remote side alone.
    pub open spec fn only_remote(self, path: Seq<char>) -> bool {
        !self.local.contains_key(path) && self.remote.contains_key(path)
    }

    /// The local file has the digest that is remembered.
    pub open spec fn local_kept(self, path: Seq<char>) -> bool {
        self.states.contains_key(path) && same_digest(
            self.local[path].sha1,
            self.states[path].sha1,
        )
    }

    /// The remote file has the digest that is remembered.
    pub open spec fn remote_kept(self, path: Seq<char>) -> bool {
        self.states.contains_key(path) && same_digest(
            self.remote[path].sha1,
            self.states[path].sha1,
        )
    }

    /// Neither side can be told to be the newer one.
    pub open spec fn contested(self, sync: SyncConfigView, path: Seq<char>) -> bool {
        ||| self.disagree(path) && self.local_kept(path) == self.remote_kept(path)
        ||| self.only_local(path) && self.deleted_once(sync, path) && !self.local_kept(path)
        ||| self.only_remote(path) && self.deleted_once(sync, path) && !self.remote_kept(path)
    }

    /// A side that misses the path had it once, and deletions are carried over.
    pub open spec fn deleted_once(self, sync: SyncConfigView, path: Seq<char>) -> bool {
        self.states.contains_key(path) && sync.delete == DeletePolicy::Trash
    }

    /// The one action of a plan at a path is to send the local file.
    pub open spec fn sent(self, actions: Seq<TwoWayAction<Seq<char>>>, path: Seq<char>) -> bool {
        only_action(
            actions,
            path,
            TwoWayAction::Upload { path, sha1: self.local[path].sha1 },
        )
    }
}

proof fn decided_is_planned(
    sync: SyncConfigView,
    sides: Sides,
    path: Seq<char>,
    action: TwoWayAction<Seq<char>>,
)
    requires
        sides.finite(),
        sides.plan(sync) is Ok,
        two_way_view(sync, sides.local, sides.remote, sides.states).decision(path) == Ok::<
            Option<TwoWayAction<Seq<char>>>,
            Fault<Seq<char>>,
        >(Some(action)),
    ensures
        only_action(sides.plan(sync)->Ok_0, path, action),
{
    two_way_view(sync, sides.local, sides.remote, sides.states).plan_is_exact();
}

/// Where both sides have a path with the same size and the same digest, that is put on record and
/// nothing is transferred or trashed.
pub proof fn agreement_is_put_on_record(sync: SyncConfigView, sides: Sides, path: Seq<char>)
    requires
        sides.finite(),
        sides.agree(path),
    ensures
        sides.plan(sync) matches Ok(actions) ==> only_action(
            actions,
            path,
            TwoWayAction::Checkpoint { path, sha1: sides.local[path].sha1 },
        ),
{
    digests_ignore_case(sides.local[path].sha1, sides.remote[path].sha1);
    if sides.plan(sync) is Ok {
        decided_is_planned(
            sync,
            sides,
            path,
            TwoWayAction::Checkpoint { path, sha1: sides.local[path].sha1 },
        );
    }
}

/// Where both sides have a path and only one of them has the digest that is remembered, the other
/// side is copied over it, whatever the policies are.
pub proof fn the_changed_side_is_copied(sync: SyncConfigView, sides: Sides, path: Seq<char>)
    requires
        sides.finite(),
        sides.disagree(path),
    ensures
        sides.plan(sync) matches Ok(actions) ==> {
            &&& sides.remote_kept(path) && !sides.local_kept(path) ==> sides.sent(actions, path)
            &&& sides.local_kept(path) && !sides.remote_kept(path) ==> only_action(
                actions,
                path,
                TwoWayAction::Download { path },
            )
        },
{
    let (local, remote) = (sides.local[path].sha1, sides.remote[path].sha1);
    digests_ignore_case(local, remote);
    digests_ignore_case(local, sides.states[path].sha1);
    digests_ignore_case(remote, sides.states[path].sha1);
    if sides.plan(sync) is Ok {
        if sides.remote_kept(path) && !sides.local_kept(path) {
            decided_is_planned(sync, sides, path, TwoWayAction::Upload { path, sha1: local });
        }
        if sides.local_kept(path) && !sides.remote_kept(path) {
            decided_is_planned(sync, sides, path, TwoWayAction::Download { path });
        }
    }
}

/// Where both sides have a path, do not agree, and what is remembered does not tell which of them
/// changed, the conflict policy alone decides: there is no plan if it is to fail, the local file is
/// sent if the local side wins, and the remote file is fetched if the remote side wins.
pub proof fn a_conflict_is_settled_by_the_policy(
    sync: SyncConfigView,
    sides: Sides,
    path: Seq<char>,
)
    requires
        sides.finite(),
        sides.disagree(path),
        sides.local_kept(path) == sides.remote_kept(path),
    ensures
        sync.conflict == ConflictPolicy::Fail ==> sides.plan(sync) is Err,
        sync.conflict == ConflictPolicy::LocalWins ==> (sides.plan(sync) matches Ok(actions)
            && sides.sent(actions, path)),
        sync.conflict == ConflictPolicy::RemoteWins ==> (sides.plan(sync) matches Ok(actions)
            && only_action(actions, path, TwoWayAction::Download { path })),
{
    let view = two_way_view(sync, sides.local, sides.remote, sides.states);
    let (local, remote) = (sides.local[path].sha1, sides.remote[path].sha1);
    digests_ignore_case(local, remote);
    digests_ignore_case(local, sides.states[path].sha1);
    digests_ignore_case(remote, sides.states[path].sha1);
    view.no_plan_with_a_conflict();
    match sync.conflict {
        ConflictPolicy::Fail => {
            assert(view.decision(path) is Err);
        },
        ConflictPolicy::LocalWins => {
            decided_is_planned(sync, sides, path, TwoWayAction::Upload { path, sha1: local });
        },
        ConflictPolicy::RemoteWins => {
            decided_is_planned(sync, sides, path, TwoWayAction::Download { path });
        },
    }
}

/// A local file that the remote side misses is sent, unless it was there once and deletions are
/// carried over. Then it goes to the trash if it has the digest that is remembered; if it does not,
/// the conflict policy decides: no plan, sent if the local side wins, trashed if the remote side does.
pub proof fn what_only_the_local_side_has(sync: SyncConfigView, sides: Sides, path: Seq<char>)
    requires
        sides.finite(),
        sides.only_local(path),
    ensures
        !sides.states.contains_key(path) || sync.delete == DeletePolicy::Keep ==> (sides.plan(
            sync,
        ) matches Ok(actions) ==> sides.sent(actions, path)),
        sides.deleted_once(sync, path) && sides.local_kept(path) ==> (sides.plan(sync) matches Ok(
            actions,
        ) ==> only_action(actions, path, TwoWayAction::TrashLocal { path })),
        sides.deleted_once(sync, path) && !sides.local_kept(path) ==> {
            &&& sync.conflict == ConflictPolicy::Fail ==> sides.plan(sync) is Err
            &&& sync.conflict == ConflictPolicy::LocalWins ==> (sides.plan(sync) matches Ok(actions)
                && sides.sent(actions, path))
            &&& sync.conflict == ConflictPolicy::RemoteWins ==> (sides.plan(sync) matches Ok(actions)
                && only_action(actions, path, TwoWayAction::TrashLocal { path }))
        },
{
    let view = two_way_view(sync, sides.local, sides.remote, sides.states);
    let local = sides.local[path].sha1;
    digests_ignore_case(local, sides.states[path].sha1);
    view.no_plan_with_a_conflict();
    if sides.plan(sync) is Err {
        assert(sync.conflict == ConflictPolicy::Fail);
    } else if view.decision(path) == Ok::<Option<TwoWayAction<Seq<char>>>, Fault<Seq<char>>>(
        Some(TwoWayAction::TrashLocal { path }),
    ) {
        decided_is_planned(sync, sides, path, TwoWayAction::TrashLocal { path });
    } else if view.decision(path) is Ok {
        decided_is_planned(sync, sides, path, TwoWayAction::Upload { path, sha1: local });
    }
    if sides.contested(sync, path) && sync.conflict == ConflictPolicy::Fail {
        assert(view.decision(path) is Err);
    }
}

/// A remote file that the local side misses is fetched, unless it was there once and deletions are
/// carried over. Then it goes to the trash if it has the digest that is remembered; if it does not,
/// the conflict policy decides: no plan, trashed if the local side wins, fetched if the remote side
/// does.
pub proof fn what_only_the_remote_side_has(sync: SyncConfigView, sides: Sides, path: Seq<char>)
    requires
        sides.finite(),
        sides.only_remote(path),
    ensures
        !sides.states.contains_key(path) || sync.delete == DeletePolicy::Keep ==> (sides.plan(
            sync,
        ) matches Ok(actions) ==> only_action(actions, path, TwoWayAction::Download { path })),
        sides.deleted_once(sync, path) && sides.remote_kept(path) ==> (sides.plan(sync) matches Ok(
            actions,
        ) ==> only_action(actions, path, TwoWayAction::TrashRemote { path })),
        sides.deleted_once(sync, path) && !sides.remote_kept(path) ==> {
            &&& sync.conflict == ConflictPolicy::Fail ==> sides.plan(sync) is Err
            &&& sync.conflict == ConflictPolicy::LocalWins ==> (sides.plan(sync) matches Ok(actions)
                && only_action(actions, path, TwoWayAction::TrashRemote { path }))
            &&& sync.conflict == ConflictPolicy::RemoteWins ==> (sides.plan(sync) matches Ok(actions)
                && only_action(actions, path, TwoWayAction::Download { path }))
        },
{
    let view = two_way_view(sync, sides.local, sides.remote, sides.states);
    digests_ignore_case(sides.remote[path].sha1, sides.states[path].sha1);
    view.no_plan_with_a_conflict();
    if sides.plan(sync) is Err {
        assert(sync.conflict == ConflictPolicy::Fail);
    } else if view.decision(path) == Ok::<Option<TwoWayAction<Seq<char>>>, Fault<Seq<char>>>(
        Some(TwoWayAction::TrashRemote { path }),
    ) {
        decided_is_planned(sync, sides, path, TwoWayAction::TrashRemote { path });
    } else if view.decision(path) is Ok {
        decided_is_planned(sync, sides, path, TwoWayAction::Download { path });
    }
    if sides.contested(sync, path) && sync.conflict == ConflictPolicy::Fail {
        assert(view.decision(path) is Err);
    }
}

/// Nothing is done to a path that neither side has, and every action is about a path that one of
/// them has.
pub proof fn nothing_is_done_to_a_missing_path(
    sync: SyncConfigView,
    sides: Sides,
    path: Seq<char>,
)
    requires
        sides.finite(),
        !sides.local.contains_key(path),
        !sides.remote.contains_key(path),
    ensures
        sides.plan(sync) matches Ok(actions) ==> forall|i: int|
            0 <= i < actions.len() ==> (#[trigger] actions[i]).target() != path,
{
    let view = two_way_view(sync, sides.local, sides.remote, sides.states);
    if sides.plan(sync) is Ok {
        view.plan_is_exact();
    }
}

/// There is no plan exactly if a path is contested and the policy is to fail. What is reported then is
/// a conflict at the first contested path.
pub proof fn a_conflict_is_reported_at_the_first_path(sync: SyncConfigView, sides: Sides)
    requires
        sides.finite(),
    ensures
        sides.plan(sync) is Err <==> sync.conflict == ConflictPolicy::Fail && exists|
            path: Seq<char>,
        | #[trigger] sides.contested(sync, path),
        sides.plan(sync) matches Err(fault) ==> exists|path: Seq<char>|
            {
                &&& fault == Fault::<Seq<char>>::Conflict { path }
                &&& #[trigger] sides.contested(sync, path)
                &&& forall|other: Seq<char>|
                    text_lt(other, path) ==> !#[trigger] sides.contested(sync, other)
            },
{
    let view = two_way_view(sync, sides.local, sides.remote, sides.states);
    view.no_plan_with_a_conflict();
    assert forall|path: Seq<char>| view.decision(path) is Err == (sync.conflict
        == ConflictPolicy::Fail && #[trigger] sides.contested(sync, path)) by {
        let state = sides.states[path].sha1;
        digests_ignore_case(sides.local[path].sha1, sides.remote[path].sha1);
        digests_ignore_case(sides.local[path].sha1, state);
        digests_ignore_case(sides.remote[path].sha1, state);
    }
    if let Err(fault) = sides.plan(sync) {
        let path = choose|path: Seq<char>|
            {
                &&& fault == Fault::<Seq<char>>::Conflict { path }
                &&& (#[trigger] view.decision(path)) is Err
                &&& forall|other: Seq<char>|
                    text_lt(other, path) ==> (#[trigger] view.decision(other)) is Ok
            };
        assert(sides.contested(sync, path));
        assert forall|other: Seq<char>| text_lt(other, path) implies !#[trigger] sides.contested(
            sync,
            other,
        ) by {
            assert(view.decision(other) is Ok);
        }
    } else if sync.conflict == ConflictPolicy::Fail {
        assert forall|path: Seq<char>| !#[trigger] sides.contested(sync, path) by {
            assert(view.decision(path) is Ok);
        }
    }
}

/// How a conflict is resolved. If it is to fail, that is what it does, at the path in question. The
/// side that wins is copied to the other. If the side that wins misses the file, the file of the other
/// side goes to the trash if deletions are carried over, and is copied back if not.
pub proof fn how_a_conflict_is_resolved(
    delete: DeletePolicy,
    path: Seq<char>,
    local: Option<LocalSnapshot<Seq<char>>>,
    remote: Option<RemoteFileView>,
)
    ensures
        conflict_resolution(ConflictPolicy::Fail, delete, path, local, remote) == Err::<
            TwoWayAction<Seq<char>>,
            Fault<Seq<char>>,
        >(Fault::Conflict { path }),
        local matches Some(file) ==> conflict_resolution(
            ConflictPolicy::LocalWins,
            delete,
            path,
            local,
            remote,
        ) == Ok::<TwoWayAction<Seq<char>>, Fault<Seq<char>>>(
            TwoWayAction::Upload { path, sha1: file.sha1 },
        ),
        local is None && delete == DeletePolicy::Trash ==> conflict_resolution(
            ConflictPolicy::LocalWins,
            delete,
            path,
            local,
            remote,
        ) == Ok::<TwoWayAction<Seq<char>>, Fault<Seq<char>>>(TwoWayAction::TrashRemote { path }),
        local is None && delete == DeletePolicy::Keep ==> conflict_resolution(
            ConflictPolicy::LocalWins,
            delete,
            path,
            local,
            remote,
        ) == Ok::<TwoWayAction<Seq<char>>, Fault<Seq<char>>>(TwoWayAction::Download { path }),
        remote is Some ==> conflict_resolution(
            ConflictPolicy::RemoteWins,
            delete,
            path,
            local,
            remote,
        ) == Ok::<TwoWayAction<Seq<char>>, Fault<Seq<char>>>(TwoWayAction::Download { path }),
        remote is None && delete == DeletePolicy::Trash ==> conflict_resolution(
            ConflictPolicy::RemoteWins,
            delete,
            path,
            local,
            remote,
        ) == Ok::<TwoWayAction<Seq<char>>, Fault<Seq<char>>>(TwoWayAction::TrashLocal { path }),
        remote is None && delete == DeletePolicy::Keep ==> (local matches Some(file)
            ==> conflict_resolution(ConflictPolicy::RemoteWins, delete, path, local, remote)
            == Ok::<TwoWayAction<Seq<char>>, Fault<Seq<char>>>(
            TwoWayAction::Upload { path, sha1: file.sha1 },
        )),
{
}

} // verus!
