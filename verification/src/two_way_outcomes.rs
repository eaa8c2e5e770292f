//! What a two-way sync does, told the world as it is when it looks.

use crate::batches::chunked;
use crate::cleanup::{cleanup_prepared, TrashItemView};
use crate::commits::commits_begun;
use crate::completeness::{carries_out, every_action_is_carried_out};
use crate::config::SyncConfigView;
use crate::drive::RemoteFileView;
use crate::exchange::{Progress, ReplyView, RequestView};
use crate::fetch::{fetch_prepared, FetchItemView, FetchedView};
use crate::inventory::RemoteTreeView;
use crate::inventory_laws::{inventory_starts_told, inventory_stays_told, inventory_told, tree_told};
use crate::plan::{two_way_view, LocalSnapshot, TwoWayAction};
use crate::plan_laws::{agreement_is_put_on_record, Sides};
use crate::pull_outcomes::to_be_brought;
use crate::push_outcomes::{excluded_is_left_alone, local_paths};
use crate::removal::removal_prepared;
use crate::scan::{local_path_of, ScannedView};
use crate::scan_laws::{scan_starts_told, scan_stays_told, scan_told, scanned_told};
use crate::soundness::{chunks_come_from, inventory_asks, scan_asks};
use crate::state::{FileCheckpoint, CHECKPOINT_BATCH_SIZE};
use crate::summary::{scan_summary, SummaryView};
use crate::text::{in_order, in_order_is_ordered, in_order_keeps_count, text_lt};
use crate::text::text_lt_irreflexive;
use crate::trace::{ending, goes_on_at, kept_by_steps, kept_to_the_end, looks_until, requests};
use crate::trace::told_while;
use crate::two_way::{remembered_digest, two_way_started, unexcluded, work_for, TwoWayOutcome};
use crate::two_way::{TwoWayRun, TwoWayStageView, WorkView};
use crate::two_way_laws::two_way_step;
use crate::uploads::{uploads_prepared, PendingUpload, UploadTallyView};
use crate::work_laws::{cleanup_starts_doomed, doomed_cleanup, doomed_cleanup_begins};
use crate::work_laws::{doomed_cleanup_goes_on, fetches_only, gone_removal, gone_removal_begins};
use crate::work_laws::{gone_removal_goes_on, removes_only_gone, trashes_only_doomed, uploads_only};
use crate::work_laws::{uploads_start_wanted, wanted_fetch, wanted_fetch_begins};
use crate::work_laws::{wanted_fetch_goes_on, wanted_uploads, wanted_uploads_begin};
use crate::work_laws::wanted_uploads_go_on;
use crate::world::{described, digest_at, digests_ignore_case, local_file_at, one_place_each};
use crate::world::{stat_at, told, World};
use vstd::prelude::*;

verus! {

/// What a two-way sync asks before it changes anything.
pub open spec fn two_way_looks(request: RequestView) -> bool {
    match request {
        RequestView::IsDirectory { .. } => true,
        RequestView::IsFile { .. } => true,
        RequestView::LoadStates { .. } => true,
        RequestView::ListDirectory { .. } => true,
        RequestView::Stat { .. } => true,
        RequestView::Hash { .. } => true,
        RequestView::List { .. } => true,
        RequestView::ReplaceDirectories { .. } => true,
        RequestView::ReleaseSession => true,
        _ => false,
    }
}

/// The world is told as it is as long as a two-way sync looks.
pub open spec fn two_way_is_told(
    world: World,
    sync: SyncConfigView,
    replies: Seq<ReplyView>,
) -> bool {
    told_while(
        |request: RequestView, reply: ReplyView| told(world, request, reply),
        |request: RequestView| two_way_looks(request),
        requests(two_way_step(), two_way_started(sync), replies),
        replies,
    )
}

/// The digest that a local file is taken to have: the one that is remembered, if there is one and the
/// file has the size and the modification time that are remembered with it, and else the one that it
/// has.
pub open spec fn taken_digest(
    world: World,
    sync: SyncConfigView,
    path: Seq<char>,
    sha1: Seq<char>,
) -> bool {
    let stat = stat_at(world, sync, path);
    if {
        &&& world.states.contains_key(path)
        &&& world.states[path].sha1.len() > 0
        &&& world.states[path].size == stat.size
        &&& stat.modified matches Some((seconds, nanos))
        &&& world.states[path].mtime_ns == seconds * 1_000_000_000 + nanos
    } {
        sha1 == world.states[path].sha1
    } else {
        sha1 == digest_at(world, sync, path)
    }
}

/// Both sides as they are: the local files that there are, each with the digest that it is taken to
/// have, the remote files that there are and that are not left alone, and what is remembered.
pub open spec fn sides_told(world: World, sync: SyncConfigView, sides: Sides) -> bool {
    &&& sides.states == world.states
    &&& sides.local.dom().finite()
    &&& sides.remote.dom().finite()
    &&& forall|path: Seq<char>| #[trigger]
        sides.local.contains_key(path) <==> local_file_at(world, sync, path)
    &&& forall|path: Seq<char>| #[trigger]
        sides.local.contains_key(path) ==> {
            &&& described(world, sync, path, sides.local[path].file)
            &&& taken_digest(world, sync, path, sides.local[path].sha1)
        }
    &&& forall|path: Seq<char>| #[trigger]
        sides.remote.contains_key(path) ==> to_be_brought(world, sync, path, sides.remote[path])
    &&& one_place_each(world, sync) ==> forall|path: Seq<char>, file: RemoteFileView| #[trigger]
        to_be_brought(world, sync, path, file) ==> sides.remote.contains_key(path)
}

/// An upload that is planned: the local file as it is, and its digest.
pub open spec fn planned_upload(sides: Sides, actions: Seq<TwoWayAction<Seq<char>>>) -> spec_fn(
    PendingUpload<Seq<char>>,
) -> bool {
    |upload: PendingUpload<Seq<char>>|
        {
            let path = upload.file.relative;
            &&& sides.local.contains_key(path)
            &&& upload.file == sides.local[path].file
            &&& upload.checkpoint_sha1 matches Some(sha1)
            &&& actions.contains(TwoWayAction::Upload { path, sha1 })
        }
}

/// A download that is planned.
pub open spec fn planned_download(sides: Sides, actions: Seq<TwoWayAction<Seq<char>>>) -> spec_fn(
    FetchItemView,
) -> bool {
    |item: FetchItemView|
        {
            &&& sides.remote.contains_key(item.path)
            &&& item.file == sides.remote[item.path]
            &&& actions.contains(TwoWayAction::Download { path: item.path })
        }
}

/// A remote file that is planned to go to the trash.
pub open spec fn planned_trash(sides: Sides, actions: Seq<TwoWayAction<Seq<char>>>) -> spec_fn(
    TrashItemView,
) -> bool {
    |item: TrashItemView|
        {
            &&& sides.remote.contains_key(item.path)
            &&& item.file == sides.remote[item.path]
            &&& actions.contains(TwoWayAction::TrashRemote { path: item.path })
        }
}

/// A local file that is planned to go to the trash.
pub open spec fn planned_removal(actions: Seq<TwoWayAction<Seq<char>>>) -> spec_fn(
    Seq<char>,
) -> bool {
    |path: Seq<char>| actions.contains(TwoWayAction::TrashLocal { path })
}

/// Something that is planned to be put on record: the local file as it is, with its digest.
pub open spec fn planned_record(
    sync: SyncConfigView,
    sides: Sides,
    actions: Seq<TwoWayAction<Seq<char>>>,
    checkpoint: FileCheckpoint<Seq<char>>,
) -> bool {
    let path = checkpoint.path;
    &&& checkpoint.mirror == sync.name
    &&& sides.local.contains_key(path)
    &&& checkpoint.size == sides.local[path].file.size
    &&& checkpoint.mtime_ns == sides.local[path].file.mtime_ns
    &&& actions.contains(TwoWayAction::Checkpoint { path, sha1: checkpoint.sha1 })
}

spec fn planned_records(
    sync: SyncConfigView,
    sides: Sides,
    actions: Seq<TwoWayAction<Seq<char>>>,
    batches: Seq<Seq<FileCheckpoint<Seq<char>>>>,
) -> bool {
    forall|b: int, i: int|
        #![trigger batches[b][i]]
        0 <= b < batches.len() && 0 <= i < batches[b].len() ==> planned_record(
            sync,
            sides,
            actions,
            batches[b][i],
        )
}

/// What a two-way sync may ask for: to look, and what is planned.
pub open spec fn two_way_asks(
    sync: SyncConfigView,
    sides: Sides,
    actions: Seq<TwoWayAction<Seq<char>>>,
    request: RequestView,
) -> bool {
    ||| two_way_looks(request)
    ||| uploads_only(sync, request, planned_upload(sides, actions))
    ||| fetches_only(sync, request, planned_download(sides, actions))
    ||| trashes_only_doomed(sync, request, planned_trash(sides, actions))
    ||| removes_only_gone(sync, request, planned_removal(actions))
    ||| {
        &&& request matches RequestView::Commit { checkpoints }
        &&& forall|k: int|
            0 <= k < checkpoints.len() ==> planned_record(
                sync,
                sides,
                actions,
                #[trigger] checkpoints[k],
            )
    }
}

spec fn known_at(
    world: World,
    sync: SyncConfigView,
    sides: Sides,
    scanned: ScannedView,
    tree: RemoteTreeView,
    at: Progress<TwoWayRun, RequestView, SummaryView>,
) -> bool {
    &&& sides_told(world, sync, sides)
    &&& sides.remote == unexcluded(scanned.patterns, tree.files)
    &&& TwoWayRun::listed(sync, sides.states, scanned, sides.local, tree) matches Ok(start) && start
        == at
}

spec fn partly_hashed(
    world: World,
    sync: SyncConfigView,
    scanned: ScannedView,
    local: Map<Seq<char>, LocalSnapshot<Seq<char>>>,
    at: nat,
) -> bool {
    let paths = in_order(scanned.files.dom());
    &&& scanned_told(world, sync, scanned)
    &&& at <= paths.len()
    &&& local.dom().finite()
    &&& forall|path: Seq<char>| #[trigger]
        local.contains_key(path) <==> paths.take(at as int).contains(path)
    &&& forall|path: Seq<char>| #[trigger]
        local.contains_key(path) ==> local[path].file == scanned.files[path] && taken_digest(
            world,
            sync,
            path,
            local[path].sha1,
        )
}

spec fn fully_hashed(
    world: World,
    sync: SyncConfigView,
    scanned: ScannedView,
    local: Map<Seq<char>, LocalSnapshot<Seq<char>>>,
) -> bool {
    &&& scanned_told(world, sync, scanned)
    &&& local.dom().finite()
    &&& forall|path: Seq<char>| #[trigger]
        local.contains_key(path) <==> local_file_at(world, sync, path)
    &&& forall|path: Seq<char>| #[trigger]
        local.contains_key(path) ==> {
            &&& described(world, sync, path, local[path].file)
            &&& taken_digest(world, sync, path, local[path].sha1)
        }
}

spec fn looking(world: World, sync: SyncConfigView, run: TwoWayRun, request: RequestView) -> bool {
    &&& run.sync == sync
    &&& two_way_looks(request)
    &&& match run.stage {
        TwoWayStageView::Checking(_) => true,
        TwoWayStageView::LoadingStates => request is LoadStates,
        TwoWayStageView::Scanning { states, scan } => states == world.states && scan_told(
            world,
            sync,
            scan,
            request,
        ),
        TwoWayStageView::Hashing { states, scanned, local, at } => {
            let paths = in_order(scanned.files.dom());
            &&& states == world.states
            &&& at < paths.len()
            &&& partly_hashed(world, sync, scanned, local, at)
            &&& remembered_digest(states, scanned.files[paths[at as int]]) is None
            &&& request == RequestView::Hash {
                path: local_path_of(sync.local, paths[at as int]),
            }
        },
        TwoWayStageView::Listing { states, scanned, local, inventory } => {
            &&& states == world.states
            &&& fully_hashed(world, sync, scanned, local)
            &&& inventory_told(world, sync, inventory, request)
        },
        _ => false,
    }
}

proof fn one_more_hashed(
    world: World,
    sync: SyncConfigView,
    scanned: ScannedView,
    local: Map<Seq<char>, LocalSnapshot<Seq<char>>>,
    at: nat,
    sha1: Seq<char>,
)
    requires
        partly_hashed(world, sync, scanned, local, at),
        at < in_order(scanned.files.dom()).len(),
        taken_digest(world, sync, in_order(scanned.files.dom())[at as int], sha1),
    ensures
        ({
            let path = in_order(scanned.files.dom())[at as int];
            partly_hashed(
                world,
                sync,
                scanned,
                local.insert(path, LocalSnapshot { file: scanned.files[path], sha1 }),
                at + 1,
            )
        }),
{
    let paths = in_order(scanned.files.dom());
    let path = paths[at as int];
    let more = local.insert(path, LocalSnapshot { file: scanned.files[path], sha1 });
    let (some, next) = (paths.take(at as int), paths.take(at as int + 1));
    assert forall|other: Seq<char>| #[trigger] more.contains_key(other) == next.contains(other) by {
        if some.contains(other) {
            let k = choose|k: int| 0 <= k < some.len() && some[k] == other;
            assert(next[k] == other);
        }
        if next.contains(other) && other != path {
            let k = choose|k: int| 0 <= k < next.len() && next[k] == other;
            assert(some[k] == other);
        }
        assert(next[at as int] == path);
        assert(local.contains_key(other) == some.contains(other));
    }
}

proof fn paths_are_files(scanned: ScannedView, k: int)
    requires
        scanned.files.dom().finite(),
        0 <= k < in_order(scanned.files.dom()).len(),
    ensures
        scanned.files.contains_key(in_order(scanned.files.dom())[k]),
{
    let paths = in_order(scanned.files.dom());
    in_order_is_ordered(scanned.files.dom());
    assert(paths.to_set().contains(paths[k]));
}

proof fn hashes_on(
    world: World,
    sync: SyncConfigView,
    scanned: ScannedView,
    local: Map<Seq<char>, LocalSnapshot<Seq<char>>>,
    at: nat,
)
    requires
        partly_hashed(world, sync, scanned, local, at),
    ensures
        TwoWayRun::hashing(sync, world.states, scanned, local, at) matches Ok(
            Progress::Ask(next, asked),
        ) && looking(world, sync, next, asked),
    decreases in_order(scanned.files.dom()).len() - at,
{
    let paths = in_order(scanned.files.dom());
    if at >= paths.len() {
        inventory_starts_told(world, sync, sync.name);
        in_order_is_ordered(scanned.files.dom());
        assert(paths.take(at as int) =~= paths);
        assert forall|path: Seq<char>| #[trigger] local.contains_key(path) == local_file_at(
            world,
            sync,
            path,
        ) by {
            assert(paths.contains(path) == paths.to_set().contains(path));
            assert(paths.to_set().contains(path) == scanned.files.contains_key(path));
        }
        assert forall|path: Seq<char>| #[trigger] local.contains_key(path) implies described(
            world,
            sync,
            path,
            local[path].file,
        ) by {
            assert(local_file_at(world, sync, path));
            assert(scanned.files.contains_key(path));
        }
        assert(fully_hashed(world, sync, scanned, local));
    } else {
        let path = paths[at as int];
        paths_are_files(scanned, at as int);
        assert(described(world, sync, path, scanned.files[path]));
        if let Some(sha1) = remembered_digest(world.states, scanned.files[path]) {
            one_more_hashed(world, sync, scanned, local, at, sha1);
            hashes_on(
                world,
                sync,
                scanned,
                local.insert(path, LocalSnapshot { file: scanned.files[path], sha1 }),
                at + 1,
            );
        }
    }
}

proof fn sides_are_told(
    world: World,
    sync: SyncConfigView,
    scanned: ScannedView,
    local: Map<Seq<char>, LocalSnapshot<Seq<char>>>,
    tree: RemoteTreeView,
)
    requires
        fully_hashed(world, sync, scanned, local),
        tree_told(world, sync, tree),
    ensures
        sides_told(
            world,
            sync,
            (Sides {
                local,
                remote: unexcluded(scanned.patterns, tree.files),
                states: world.states,
            }),
        ),
{
    let remote = unexcluded(scanned.patterns, tree.files);
    assert(remote.dom().subset_of(tree.files.dom()));
    vstd::set_lib::lemma_set_subset_finite(tree.files.dom(), remote.dom());
    assert forall|path: Seq<char>| #[trigger]
        remote.contains_key(path) implies to_be_brought(world, sync, path, remote[path]) by {
        excluded_is_left_alone(sync, path);
        assert(tree.files.contains_key(path));
    }
    if one_place_each(world, sync) {
        assert forall|path: Seq<char>, file: RemoteFileView| #[trigger]
            to_be_brought(world, sync, path, file) implies remote.contains_key(path) by {
            excluded_is_left_alone(sync, path);
            assert(tree.files.contains_key(path));
        }
    }
}

proof fn looks_on(
    world: World,
    sync: SyncConfigView,
    run: TwoWayRun,
    request: RequestView,
    reply: ReplyView,
)
    requires
        looking(world, sync, run, request),
        told(world, request, reply),
    ensures
        match run.stepped(reply) {
            Err(_) => true,
            Ok(next) => (exists|sides: Sides, scanned: ScannedView, tree: RemoteTreeView| #[trigger]
                known_at(world, sync, sides, scanned, tree, next)) || (next matches Progress::Ask(
                run,
                request,
            ) && looking(world, sync, run, request)),
        },
{
    match run.stage {
        TwoWayStageView::LoadingStates => {
            scan_starts_told(world, sync);
        },
        TwoWayStageView::Scanning { scan, .. } => {
            scan_asks(scan, reply);
            scan_stays_told(world, sync, scan, request, reply);
            if let Ok(Progress::Done(scanned)) = scan.stepped(reply) {
                let none = Map::<Seq<char>, LocalSnapshot<Seq<char>>>::empty();
                assert(in_order(scanned.files.dom()).take(0) =~= Seq::<Seq<char>>::empty());
                assert(partly_hashed(world, sync, scanned, none, 0));
                hashes_on(world, sync, scanned, none, 0);
            }
        },
        TwoWayStageView::Hashing { scanned, local, at, .. } => {
            if let ReplyView::Digest(sha1) = reply {
                let path = in_order(scanned.files.dom())[at as int];
                paths_are_files(scanned, at as int);
                assert(described(world, sync, path, scanned.files[path]));
                one_more_hashed(world, sync, scanned, local, at, sha1);
                hashes_on(
                    world,
                    sync,
                    scanned,
                    local.insert(path, LocalSnapshot { file: scanned.files[path], sha1 }),
                    at + 1,
                );
            }
        },
        TwoWayStageView::Listing { scanned, local, inventory, .. } => {
            inventory_asks(inventory, reply);
            inventory_stays_told(world, sync, inventory, request, reply);
            if let Ok(Progress::Done(tree)) = inventory.stepped(reply) {
                let sides = Sides {
                    local,
                    remote: unexcluded(scanned.patterns, tree.files),
                    states: world.states,
                };
                sides_are_told(world, sync, scanned, local, tree);
                if let Ok(next) = run.stepped(reply) {
                    assert(known_at(world, sync, sides, scanned, tree, next));
                }
            }
        },
        _ => {},
    }
}

proof fn two_way_gets_to_know(world: World, sync: SyncConfigView, replies: Seq<ReplyView>) -> (found:
    Option<(int, Sides, ScannedView, RemoteTreeView)>)
    requires
        two_way_is_told(world, sync, replies),
    ensures
        ({
            let asked = requests(two_way_step(), two_way_started(sync), replies);
            match found {
                None => {
                    &&& !(ending(two_way_step(), two_way_started(sync), replies) matches Some(
                        Ok(_),
                    ))
                    &&& forall|i: int| 0 <= i < asked.len() ==> two_way_looks(#[trigger] asked[i])
                },
                Some((count, sides, scanned, tree)) => {
                    &&& sides_told(world, sync, sides)
                    &&& sides.remote == unexcluded(scanned.patterns, tree.files)
                    &&& TwoWayRun::listed(sync, sides.states, scanned, sides.local, tree) is Ok
                    &&& goes_on_at(
                        two_way_step(),
                        two_way_started(sync),
                        replies,
                        count,
                        TwoWayRun::listed(sync, sides.states, scanned, sides.local, tree)->Ok_0,
                    )
                    &&& forall|i: int| 0 <= i < count ==> two_way_looks(#[trigger] asked[i])
                },
            }
        }),
{
    let answered = |request: RequestView, reply: ReplyView| told(world, request, reply);
    let looks = |request: RequestView| two_way_looks(request);
    let before = |run: TwoWayRun, request: RequestView| looking(world, sync, run, request);
    let mark = |at: Progress<TwoWayRun, RequestView, SummaryView>|
        exists|sides: Sides, scanned: ScannedView, tree: RemoteTreeView| #[trigger]
            known_at(world, sync, sides, scanned, tree, at);
    assert forall|run: TwoWayRun, request: RequestView, reply: ReplyView|
        #![trigger before(run, request), two_way_step()(run, reply)]
        before(run, request) && answered(request, reply) implies match two_way_step()(run, reply) {
        Err(_) => true,
        Ok(next) => mark(next) || (next matches Progress::Ask(run, request) && before(
            run,
            request,
        )),
    } by {
        looks_on(world, sync, run, request, reply);
    }
    let asked = requests(two_way_step(), two_way_started(sync), replies);
    let reached = looks_until(
        two_way_step(),
        answered,
        looks,
        before,
        mark,
        two_way_started(sync),
        replies,
    );
    match reached {
        None => {
            assert forall|i: int| 0 <= i < asked.len() implies two_way_looks(
                #[trigger] asked[i],
            ) by {
                assert(looks(asked[i]));
            }
            None
        },
        Some((count, at)) => {
            assert(mark(at));
            let (sides, scanned, tree) = choose|
                sides: Sides,
                scanned: ScannedView,
                tree: RemoteTreeView,
            | #[trigger] known_at(world, sync, sides, scanned, tree, at);
            assert forall|i: int| 0 <= i < count implies two_way_looks(#[trigger] asked[i]) by {
                assert(looks(asked[i]));
            }
            Some((count, sides, scanned, tree))
        },
    }
}

spec fn planned_work(
    sync: SyncConfigView,
    sides: Sides,
    actions: Seq<TwoWayAction<Seq<char>>>,
    work: WorkView,
) -> bool {
    &&& forall|k: int|
        0 <= k < work.checkpoints.len() ==> planned_record(
            sync,
            sides,
            actions,
            #[trigger] work.checkpoints[k],
        )
    &&& all_uploads_planned(sides, actions, work.uploads)
    &&& all_downloads_planned(sides, actions, work.downloads)
    &&& all_trash_planned(sides, actions, work.remote_trash)
    &&& all_removals_planned(actions, work.local_trash)
}

spec fn all_uploads_planned(
    sides: Sides,
    actions: Seq<TwoWayAction<Seq<char>>>,
    uploads: Seq<PendingUpload<Seq<char>>>,
) -> bool {
    forall|k: int|
        0 <= k < uploads.len() ==> planned_upload(sides, actions)(#[trigger] uploads[k])
}

spec fn all_downloads_planned(
    sides: Sides,
    actions: Seq<TwoWayAction<Seq<char>>>,
    downloads: Seq<FetchItemView>,
) -> bool {
    forall|k: int|
        0 <= k < downloads.len() ==> planned_download(sides, actions)(#[trigger] downloads[k])
}

spec fn all_trash_planned(
    sides: Sides,
    actions: Seq<TwoWayAction<Seq<char>>>,
    items: Seq<TrashItemView>,
) -> bool {
    forall|k: int| 0 <= k < items.len() ==> planned_trash(sides, actions)(#[trigger] items[k])
}

spec fn all_removals_planned(
    actions: Seq<TwoWayAction<Seq<char>>>,
    paths: Seq<Seq<char>>,
) -> bool {
    forall|k: int| 0 <= k < paths.len() ==> planned_removal(actions)(#[trigger] paths[k])
}

proof fn work_is_planned(
    world: World,
    sync: SyncConfigView,
    sides: Sides,
    all: Seq<TwoWayAction<Seq<char>>>,
    actions: Seq<TwoWayAction<Seq<char>>>,
)
    requires
        sides_told(world, sync, sides),
        forall|i: int|
            0 <= i < actions.len() ==> all.contains(#[trigger] actions[i]) && match actions[i] {
                TwoWayAction::Checkpoint { path, .. } => sides.local.contains_key(path),
                TwoWayAction::Upload { path, .. } => sides.local.contains_key(path),
                TwoWayAction::TrashLocal { path } => sides.local.contains_key(path),
                TwoWayAction::Download { path } => sides.remote.contains_key(path),
                TwoWayAction::TrashRemote { path } => sides.remote.contains_key(path),
            },
    ensures
        planned_work(sync, sides, all, work_for(sync.name, sides.local, sides.remote, actions)),
    decreases actions.len(),
{
    if actions.len() > 0 {
        let before = actions.drop_last();
        assert forall|i: int| 0 <= i < before.len() implies all.contains(#[trigger] before[i])
            && match before[i] {
            TwoWayAction::Checkpoint { path, .. } => sides.local.contains_key(path),
            TwoWayAction::Upload { path, .. } => sides.local.contains_key(path),
            TwoWayAction::TrashLocal { path } => sides.local.contains_key(path),
            TwoWayAction::Download { path } => sides.remote.contains_key(path),
            TwoWayAction::TrashRemote { path } => sides.remote.contains_key(path),
        } by {
            assert(before[i] == actions[i]);
        }
        work_is_planned(world, sync, sides, all, before);
        let action = actions[actions.len() - 1];
        assert(action == actions.last());
        match action {
            TwoWayAction::Checkpoint { path, .. } => {
                assert(described(world, sync, path, sides.local[path].file));
            },
            TwoWayAction::Upload { path, .. } => {
                assert(described(world, sync, path, sides.local[path].file));
            },
            _ => {},
        }
    }
}

spec fn working(
    sync: SyncConfigView,
    sides: Sides,
    actions: Seq<TwoWayAction<Seq<char>>>,
    run: TwoWayRun,
) -> bool {
    &&& run.sync == sync
    &&& match run.stage {
        TwoWayStageView::Committing {
            pending,
            downloads,
            remote_trash,
            local_trash,
            commits,
            ..
        } => {
            &&& planned_records(sync, sides, actions, commits)
            &&& all_uploads_planned(sides, actions, pending)
            &&& all_downloads_planned(sides, actions, downloads)
            &&& all_trash_planned(sides, actions, remote_trash)
            &&& all_removals_planned(actions, local_trash)
        },
        TwoWayStageView::Uploading { downloads, remote_trash, local_trash, uploads, .. } => {
            &&& wanted_uploads(sync, uploads, planned_upload(sides, actions))
            &&& all_downloads_planned(sides, actions, downloads)
            &&& all_trash_planned(sides, actions, remote_trash)
            &&& all_removals_planned(actions, local_trash)
        },
        TwoWayStageView::Fetching { remote_trash, local_trash, fetch, .. } => {
            &&& wanted_fetch(sync, fetch, planned_download(sides, actions))
            &&& all_trash_planned(sides, actions, remote_trash)
            &&& all_removals_planned(actions, local_trash)
        },
        TwoWayStageView::Trashing { local_trash, cleanup, .. } => {
            &&& doomed_cleanup(sync, cleanup, planned_trash(sides, actions))
            &&& all_removals_planned(actions, local_trash)
        },
        TwoWayStageView::Removing { removal, .. } => gone_removal(
            sync,
            removal,
            planned_removal(actions),
        ),
        _ => false,
    }
}

spec fn works_on(
    sync: SyncConfigView,
    sides: Sides,
    actions: Seq<TwoWayAction<Seq<char>>>,
    outcome: TwoWayOutcome,
) -> bool {
    outcome matches Ok(Progress::Ask(next, asked)) ==> working(sync, sides, actions, next)
        && two_way_asks(sync, sides, actions, asked)
}

proof fn cleaned_works_on(
    sync: SyncConfigView,
    sides: Sides,
    actions: Seq<TwoWayAction<Seq<char>>>,
    summary: SummaryView,
    local_trash: Seq<Seq<char>>,
    trashed: Seq<Seq<char>>,
)
    requires
        all_removals_planned(actions, local_trash),
    ensures
        works_on(sync, sides, actions, TwoWayRun::cleaned(sync, summary, local_trash, trashed)),
{
    gone_removal_begins(sync, removal_prepared(sync, local_trash), planned_removal(actions));
}

proof fn fetched_works_on(
    sync: SyncConfigView,
    sides: Sides,
    actions: Seq<TwoWayAction<Seq<char>>>,
    summary: SummaryView,
    remote_trash: Seq<TrashItemView>,
    local_trash: Seq<Seq<char>>,
    fetched: FetchedView,
)
    requires
        all_trash_planned(sides, actions, remote_trash),
        all_removals_planned(actions, local_trash),
    ensures
        works_on(
            sync,
            sides,
            actions,
            TwoWayRun::fetched(sync, summary, remote_trash, local_trash, fetched),
        ),
{
    let summary = SummaryView { downloaded: fetched.downloaded.len(), ..summary };
    cleanup_starts_doomed(sync, remote_trash, planned_trash(sides, actions));
    doomed_cleanup_begins(
        sync,
        cleanup_prepared(sync, remote_trash),
        planned_trash(sides, actions),
    );
    if let Ok(Progress::Done(paths)) = cleanup_prepared(sync, remote_trash).begun() {
        cleaned_works_on(sync, sides, actions, summary, local_trash, paths);
    }
}

proof fn uploaded_works_on(
    sync: SyncConfigView,
    sides: Sides,
    actions: Seq<TwoWayAction<Seq<char>>>,
    summary: SummaryView,
    downloads: Seq<FetchItemView>,
    remote_trash: Seq<TrashItemView>,
    local_trash: Seq<Seq<char>>,
    tally: UploadTallyView,
)
    requires
        all_downloads_planned(sides, actions, downloads),
        all_trash_planned(sides, actions, remote_trash),
        all_removals_planned(actions, local_trash),
    ensures
        works_on(
            sync,
            sides,
            actions,
            TwoWayRun::uploaded(sync, summary, downloads, remote_trash, local_trash, tally),
        ),
{
    let summary = SummaryView {
        uploaded: tally.uploaded,
        matched_remote: tally.matched_remote,
        ..summary
    };
    wanted_fetch_begins(
        sync,
        fetch_prepared(sync, downloads),
        planned_download(sides, actions),
    );
    if let Ok(Progress::Done(fetched)) = fetch_prepared(sync, downloads).advanced() {
        fetched_works_on(sync, sides, actions, summary, remote_trash, local_trash, fetched);
    }
}

proof fn committed_works_on(
    sync: SyncConfigView,
    sides: Sides,
    actions: Seq<TwoWayAction<Seq<char>>>,
    summary: SummaryView,
    pending: Seq<PendingUpload<Seq<char>>>,
    downloads: Seq<FetchItemView>,
    remote_trash: Seq<TrashItemView>,
    local_trash: Seq<Seq<char>>,
)
    requires
        all_uploads_planned(sides, actions, pending),
        all_downloads_planned(sides, actions, downloads),
        all_trash_planned(sides, actions, remote_trash),
        all_removals_planned(actions, local_trash),
    ensures
        works_on(
            sync,
            sides,
            actions,
            TwoWayRun::committed(sync, summary, pending, downloads, remote_trash, local_trash),
        ),
{
    let wanted = planned_upload(sides, actions);
    uploads_start_wanted(sync, pending, wanted);
    wanted_uploads_begin(sync, uploads_prepared(sync, pending), wanted);
    if let Ok(Progress::Done(tally)) = uploads_prepared(sync, pending).begun() {
        uploaded_works_on(
            sync,
            sides,
            actions,
            summary,
            downloads,
            remote_trash,
            local_trash,
            tally,
        );
    }
}

proof fn commits_work_on(
    sync: SyncConfigView,
    sides: Sides,
    actions: Seq<TwoWayAction<Seq<char>>>,
    batches: Seq<Seq<FileCheckpoint<Seq<char>>>>,
)
    requires
        planned_records(sync, sides, actions, batches),
    ensures
        commits_begun(batches) matches Progress::Ask(next, asked) ==> planned_records(
            sync,
            sides,
            actions,
            next,
        ) && two_way_asks(sync, sides, actions, asked),
{
    if batches.len() > 0 {
        let rest = batches.drop_first();
        assert forall|b: int, i: int|
            #![trigger rest[b][i]]
            0 <= b < rest.len() && 0 <= i < rest[b].len() implies planned_record(
            sync,
            sides,
            actions,
            rest[b][i],
        ) by {
            assert(rest[b] == batches[b + 1]);
            assert(planned_record(sync, sides, actions, batches[b + 1][i]));
        }
        let checkpoints = batches[0];
        assert forall|k: int| 0 <= k < checkpoints.len() implies planned_record(
            sync,
            sides,
            actions,
            #[trigger] checkpoints[k],
        ) by {
            assert(planned_record(sync, sides, actions, batches[0][k]));
        }
    }
}

proof fn planned_works_on(
    sync: SyncConfigView,
    sides: Sides,
    actions: Seq<TwoWayAction<Seq<char>>>,
    summary: SummaryView,
    work: WorkView,
)
    requires
        planned_work(sync, sides, actions, work),
    ensures
        works_on(sync, sides, actions, TwoWayRun::planned(sync, summary, work)),
{
    let size = CHECKPOINT_BATCH_SIZE as int;
    let batches = chunked(work.checkpoints, size);
    chunks_come_from(work.checkpoints, size);
    assert forall|b: int, i: int|
        #![trigger batches[b][i]]
        0 <= b < batches.len() && 0 <= i < batches[b].len() implies planned_record(
        sync,
        sides,
        actions,
        batches[b][i],
    ) by {
        assert(work.checkpoints.contains(chunked(work.checkpoints, size)[b][i]));
        let k = choose|k: int|
            0 <= k < work.checkpoints.len() && work.checkpoints[k] == batches[b][i];
        assert(planned_record(sync, sides, actions, work.checkpoints[k]));
    }
    commits_work_on(sync, sides, actions, batches);
    committed_works_on(
        sync,
        sides,
        actions,
        SummaryView { unchanged: work.checkpoints.len(), ..summary },
        work.uploads,
        work.downloads,
        work.remote_trash,
        work.local_trash,
    );
}

proof fn two_way_works_on(
    sync: SyncConfigView,
    sides: Sides,
    actions: Seq<TwoWayAction<Seq<char>>>,
    run: TwoWayRun,
    reply: ReplyView,
)
    requires
        working(sync, sides, actions, run),
    ensures
        works_on(sync, sides, actions, run.stepped(reply)),
{
    match run.stage {
        TwoWayStageView::Committing {
            summary,
            pending,
            downloads,
            remote_trash,
            local_trash,
            commits,
        } => {
            commits_work_on(sync, sides, actions, commits);
            committed_works_on(
                sync,
                sides,
                actions,
                summary,
                pending,
                downloads,
                remote_trash,
                local_trash,
            );
        },
        TwoWayStageView::Uploading {
            summary,
            downloads,
            remote_trash,
            local_trash,
            uploads,
        } => {
            wanted_uploads_go_on(sync, uploads, planned_upload(sides, actions), reply);
            if let Ok(Progress::Done(tally)) = uploads.stepped(reply) {
                uploaded_works_on(
                    sync,
                    sides,
                    actions,
                    summary,
                    downloads,
                    remote_trash,
                    local_trash,
                    tally,
                );
            }
        },
        TwoWayStageView::Fetching { summary, remote_trash, local_trash, fetch } => {
            wanted_fetch_goes_on(sync, fetch, planned_download(sides, actions), reply);
            if let Ok(Progress::Done(fetched)) = fetch.stepped(reply) {
                fetched_works_on(
                    sync,
                    sides,
                    actions,
                    summary,
                    remote_trash,
                    local_trash,
                    fetched,
                );
            }
        },
        TwoWayStageView::Trashing { summary, local_trash, cleanup } => {
            doomed_cleanup_goes_on(sync, cleanup, planned_trash(sides, actions), reply);
            if let Ok(Progress::Done(paths)) = cleanup.stepped(reply) {
                cleaned_works_on(sync, sides, actions, summary, local_trash, paths);
            }
        },
        TwoWayStageView::Removing { removal, .. } => {
            gone_removal_goes_on(sync, removal, planned_removal(actions), reply);
        },
        _ => {},
    }
}

/// Everything that a run asks is to look or is planned.
pub open spec fn keeps_to_the_plan(
    sync: SyncConfigView,
    sides: Sides,
    actions: Seq<TwoWayAction<Seq<char>>>,
    asked: Seq<RequestView>,
) -> bool {
    forall|i: int|
        0 <= i < asked.len() ==> two_way_asks(sync, sides, actions, #[trigger] asked[i])
}

/// Everything that is planned is done by some request of a run.
pub open spec fn does_the_plan(
    sync: SyncConfigView,
    sides: Sides,
    actions: Seq<TwoWayAction<Seq<char>>>,
    asked: Seq<RequestView>,
) -> bool {
    forall|action: TwoWayAction<Seq<char>>| #[trigger]
        actions.contains(action) ==> is_done(sync, sides, action, asked)
}

/// An action is done by some request of a run.
pub open spec fn is_done(
    sync: SyncConfigView,
    sides: Sides,
    action: TwoWayAction<Seq<char>>,
    asked: Seq<RequestView>,
) -> bool {
    exists|i: int|
        0 <= i < asked.len() && carries_out(
            #[trigger] asked[i],
            sync,
            sides.local,
            sides.remote,
            action,
        )
}

/// A two-way sync that is told the world as it is either only looks, or plans from both sides as they
/// are and then does nothing but what is planned. If it comes to a good end, it has done all of it.
pub proof fn a_two_way_sync_does_what_is_planned(
    world: World,
    sync: SyncConfigView,
    replies: Seq<ReplyView>,
)
    requires
        world.states.dom().finite(),
        two_way_is_told(world, sync, replies),
    ensures
        ({
            let asked = requests(two_way_step(), two_way_started(sync), replies);
            let good = ending(two_way_step(), two_way_started(sync), replies) matches Some(Ok(_));
            ||| !good && forall|i: int|
                0 <= i < asked.len() ==> two_way_looks(#[trigger] asked[i])
            ||| exists|sides: Sides|
                {
                    &&& #[trigger] sides_told(world, sync, sides)
                    &&& sides.plan(sync) matches Ok(actions)
                    &&& keeps_to_the_plan(sync, sides, actions, asked)
                    &&& good ==> does_the_plan(sync, sides, actions, asked)
                }
        }),
{
    let asked = requests(two_way_step(), two_way_started(sync), replies);
    let good = ending(two_way_step(), two_way_started(sync), replies) matches Some(Ok(_));
    if let Some((count, sides, scanned, tree)) = two_way_gets_to_know(world, sync, replies) {
        let start = TwoWayRun::listed(sync, sides.states, scanned, sides.local, tree)->Ok_0;
        let left = replies.skip(count);
        let later = requests(two_way_step(), start, left);
        let actions = sides.plan(sync)->Ok_0;
        let work = work_for(sync.name, sides.local, sides.remote, actions);
        let view = two_way_view(sync, sides.local, sides.remote, sides.states);
        view.plan_is_exact();
        assert forall|i: int| 0 <= i < actions.len() implies actions.contains(#[trigger] actions[i])
            && match actions[i] {
            TwoWayAction::Checkpoint { path, .. } => sides.local.contains_key(path),
            TwoWayAction::Upload { path, .. } => sides.local.contains_key(path),
            TwoWayAction::TrashLocal { path } => sides.local.contains_key(path),
            TwoWayAction::Download { path } => sides.remote.contains_key(path),
            TwoWayAction::TrashRemote { path } => sides.remote.contains_key(path),
        } by {
            view.decision_is_about(actions[i].target(), actions[i]);
        }
        work_is_planned(world, sync, sides, actions, actions);
        planned_works_on(
            sync,
            sides,
            actions,
            scan_summary(in_order(sides.local.dom()).len(), scanned.symlinks.len()),
            work,
        );
        let sound = |run: TwoWayRun, request: RequestView|
            working(sync, sides, actions, run) && two_way_asks(sync, sides, actions, request);
        let fine = |request: RequestView| two_way_asks(sync, sides, actions, request);
        assert forall|run: TwoWayRun, request: RequestView, reply: ReplyView|
            #![trigger sound(run, request), two_way_step()(run, reply)]
            sound(run, request) implies (two_way_step()(run, reply) matches Ok(
            Progress::Ask(next, asked),
        ) ==> sound(next, asked)) by {
            two_way_works_on(sync, sides, actions, run, reply);
        }
        kept_by_steps(two_way_step(), sound, fine, start, left);
        assert forall|i: int| 0 <= i < asked.len() implies two_way_asks(
            sync,
            sides,
            actions,
            #[trigger] asked[i],
        ) by {
            if i >= count {
                assert(asked.skip(count)[i - count] == asked[i]);
                assert(fine(later[i - count]));
            }
        }
        if good {
            assert forall|action: TwoWayAction<Seq<char>>| #[trigger]
                actions.contains(action) implies is_done(sync, sides, action, asked) by {
                every_action_is_carried_out(
                    sync,
                    sides.states,
                    scanned,
                    sides.local,
                    tree,
                    left,
                    action,
                );
                let i = choose|i: int|
                    0 <= i < later.len() && carries_out(
                        #[trigger] later[i],
                        sync,
                        sides.local,
                        sides.remote,
                        action,
                    );
                assert(asked.skip(count)[i] == asked[i + count]);
                assert(carries_out(
                    asked[i + count],
                    sync,
                    sides.local,
                    sides.remote,
                    action,
                ));
            }
        }
        assert(sides_told(world, sync, sides));
    }
}

/// The paths at which both sides agree.
pub open spec fn agreeing_paths(sides: Sides) -> Set<Seq<char>> {
    Set::new(|path: Seq<char>| sides.agree(path))
}

spec fn recorded_among(actions: Seq<TwoWayAction<Seq<char>>>) -> Set<Seq<char>> {
    Set::new(|path: Seq<char>| is_recorded(actions, path))
}

spec fn is_recorded(actions: Seq<TwoWayAction<Seq<char>>>, path: Seq<char>) -> bool {
    exists|i: int|
        0 <= i < actions.len() && #[trigger] actions[i] is Checkpoint && actions[i].target()
            == path
}

proof fn records_are_counted(
    mirror: Seq<char>,
    sides: Sides,
    actions: Seq<TwoWayAction<Seq<char>>>,
)
    requires
        forall|i: int, j: int|
            0 <= i < j < actions.len() ==> (#[trigger] actions[i]).target() != (
            #[trigger] actions[j]).target(),
    ensures
        recorded_among(actions).finite(),
        recorded_among(actions).len() == work_for(
            mirror,
            sides.local,
            sides.remote,
            actions,
        ).checkpoints.len(),
    decreases actions.len(),
{
    let all = recorded_among(actions);
    if actions.len() == 0 {
        assert(all =~= Set::<Seq<char>>::empty());
    } else {
        let before = actions.drop_last();
        let last = actions[actions.len() - 1];
        let some = recorded_among(before);
        assert forall|i: int, j: int| 0 <= i < j < before.len() implies (
        #[trigger] before[i]).target() != (#[trigger] before[j]).target() by {
            assert(before[i] == actions[i] && before[j] == actions[j]);
        }
        records_are_counted(mirror, sides, before);
        assert forall|path: Seq<char>| is_recorded(actions, path) == (#[trigger] is_recorded(
            before,
            path,
        ) || (last is Checkpoint && last.target() == path)) by {
            if is_recorded(before, path) {
                let i = choose|i: int|
                    0 <= i < before.len() && #[trigger] before[i] is Checkpoint
                        && before[i].target() == path;
                assert(actions[i] == before[i]);
            }
            if is_recorded(actions, path) {
                let i = choose|i: int|
                    0 <= i < actions.len() && #[trigger] actions[i] is Checkpoint
                        && actions[i].target() == path;
                if i < before.len() {
                    assert(before[i] == actions[i]);
                }
            }
            assert(actions[actions.len() - 1] == last);
        }
        if last is Checkpoint {
            assert(!is_recorded(before, last.target())) by {
                if is_recorded(before, last.target()) {
                    let i = choose|i: int|
                        0 <= i < before.len() && #[trigger] before[i] is Checkpoint
                            && before[i].target() == last.target();
                    assert(actions[i] == before[i]);
                    assert(actions[i].target() == actions[actions.len() - 1].target());
                }
            }
            assert(all =~= some.insert(last.target()));
        } else {
            assert(all =~= some);
        }
    }
}

proof fn agreements_are_counted(sync: SyncConfigView, sides: Sides)
    requires
        sides.finite(),
        sides.plan(sync) is Ok,
    ensures
        work_for(
            sync.name,
            sides.local,
            sides.remote,
            sides.plan(sync)->Ok_0,
        ).checkpoints.len() == agreeing_paths(sides).len(),
{
    let actions = sides.plan(sync)->Ok_0;
    let view = two_way_view(sync, sides.local, sides.remote, sides.states);
    view.plan_is_exact();
    assert forall|i: int, j: int| 0 <= i < j < actions.len() implies (
    #[trigger] actions[i]).target() != (#[trigger] actions[j]).target() by {
        assert(text_lt(actions[i].target(), actions[j].target()));
        text_lt_irreflexive(actions[i].target());
    }
    records_are_counted(sync.name, sides, actions);
    assert(recorded_among(actions) =~= agreeing_paths(sides)) by {
        assert forall|path: Seq<char>| #[trigger] is_recorded(actions, path) == sides.agree(path) by {
            if sides.agree(path) {
                agreement_is_put_on_record(sync, sides, path);
                let action = TwoWayAction::Checkpoint { path, sha1: sides.local[path].sha1 };
                let i = choose|i: int| 0 <= i < actions.len() && actions[i] == action;
                assert(actions[i] is Checkpoint && actions[i].target() == path);
            } else if is_recorded(actions, path) {
                let i = choose|i: int|
                    0 <= i < actions.len() && #[trigger] actions[i] is Checkpoint
                        && actions[i].target() == path;
                digests_ignore_case(sides.local[path].sha1, sides.remote[path].sha1);
            }
        }
        assert forall|path: Seq<char>| recorded_among(actions).contains(path)
            == #[trigger] agreeing_paths(sides).contains(path) by {
            assert(is_recorded(actions, path) == sides.agree(path));
        }
    }
}

spec fn still_says(scanned: nat, unchanged: nat, run: TwoWayRun) -> bool {
    let summary = match run.stage {
        TwoWayStageView::Committing { summary, .. } => Some(summary),
        TwoWayStageView::Uploading { summary, .. } => Some(summary),
        TwoWayStageView::Fetching { summary, .. } => Some(summary),
        TwoWayStageView::Trashing { summary, .. } => Some(summary),
        TwoWayStageView::Removing { summary, .. } => Some(summary),
        _ => None,
    };
    summary matches Some(summary) && summary.scanned == scanned && summary.unchanged == unchanged
}

/// The summary of a two-way sync that was told the world as it is says how many local files there are,
/// and at how many paths both sides agreed.
pub proof fn what_a_two_way_sync_finds(
    world: World,
    sync: SyncConfigView,
    replies: Seq<ReplyView>,
)
    requires
        world.states.dom().finite(),
        two_way_is_told(world, sync, replies),
    ensures
        ending(two_way_step(), two_way_started(sync), replies) matches Some(Ok(summary)) ==> {
            &&& summary.scanned == local_paths(world, sync).len()
            &&& exists|sides: Sides| #[trigger]
                sides_told(world, sync, sides) && summary.unchanged == agreeing_paths(sides).len()
        },
{
    if let Some((count, sides, scanned, tree)) = two_way_gets_to_know(world, sync, replies) {
        let start = TwoWayRun::listed(sync, sides.states, scanned, sides.local, tree)->Ok_0;
        let found = local_paths(world, sync).len();
        let agreed = agreeing_paths(sides).len();
        in_order_keeps_count(sides.local.dom());
        assert(sides.local.dom() =~= local_paths(world, sync)) by {
            assert forall|path: Seq<char>| #[trigger] sides.local.dom().contains(path)
                == local_paths(world, sync).contains(path) by {
                assert(sides.local.contains_key(path) == local_file_at(world, sync, path));
            }
        }
        agreements_are_counted(sync, sides);
        let sound = |run: TwoWayRun| still_says(found, agreed, run);
        let good = |summary: SummaryView| summary.scanned == found && summary.unchanged == agreed;
        assert forall|run: TwoWayRun, reply: ReplyView| sound(run) implies match #[trigger] two_way_step()(
            run,
            reply,
        ) {
            Err(_) => true,
            Ok(Progress::Ask(next, _)) => sound(next),
            Ok(Progress::Done(summary)) => good(summary),
        } by {}
        kept_to_the_end(two_way_step(), sound, good, start, replies.skip(count));
        assert(sides_told(world, sync, sides));
    }
}

} // verus!
