//! What a pull does, told the world as it is when it looks.

use crate::completeness::{every_gone_file_is_removed, every_remote_file_is_installed, found_same};
use crate::completeness::{installs, removes};
use crate::config::{DeletePolicy, SyncConfigView};
use crate::drive::RemoteFileView;
use crate::exchange::{Progress, ReplyView, RequestView};
use crate::excludes::{managed, managed_contains};
use crate::fetch::{fetch_prepared, FetchItemView, FetchView, FetchedView};
use crate::inventory::RemoteTreeView;
use crate::inventory_laws::{inventory_starts_told, inventory_stays_told, inventory_told, tree_told};
use crate::plan::lookup;
use crate::pull::{fetch_items, local_only, pull_started, pulled_paths, PullOutcome, PullStageView};
use crate::pull::PullView;
use crate::pull_laws::{pull_step, unseen_comes_from};
use crate::push_outcomes::{excluded_is_left_alone, forgets_path, local_paths};
use crate::removal::removal_prepared;
use crate::scan::{local_path_of, ScannedView};
use crate::scan_laws::{scan_starts_told, scan_stays_told, scan_told, scanned_told};
use crate::soundness::{inventory_asks, scan_asks};
use crate::summary::{scan_summary, SummaryView};
use crate::text::{in_order, in_order_is_ordered, in_order_keeps_count, text_lt};
use crate::text::text_lt_irreflexive;
use crate::trace::{ending, goes_on_at, kept_by_steps, kept_to_the_end, looks_until, requests};
use crate::trace::{settled_by_the_end, told_while};
use crate::work_laws::{fetch_begins_owing_record, fetch_goes_on_owing_record, fetches_only};
use crate::work_laws::{gone_removal, gone_removal_begins, gone_removal_goes_on, owes_record};
use crate::work_laws::{records_item, removes_only_gone, wanted_fetch, wanted_fetch_begins};
use crate::work_laws::wanted_fetch_goes_on;
use crate::world::{described, digests_ignore_case, left_alone, local_file_at, one_place_each};
use crate::world::{remote_file_at, same_digest, stat_at, told, World};
use vstd::prelude::*;

verus! {

/// What a pull asks before it changes anything.
pub open spec fn pull_looks(request: RequestView) -> bool {
    match request {
        RequestView::IsDirectory { .. } => true,
        RequestView::IsFile { .. } => true,
        RequestView::ListDirectory { .. } => true,
        RequestView::Stat { .. } => true,
        RequestView::List { .. } => true,
        RequestView::ReplaceDirectories { .. } => true,
        RequestView::ReleaseSession => true,
        _ => false,
    }
}

/// The world is told as it is as long as a pull looks.
pub open spec fn pull_is_told(
    world: World,
    sync: SyncConfigView,
    replies: Seq<ReplyView>,
) -> bool {
    told_while(
        |request: RequestView, reply: ReplyView| told(world, request, reply),
        |request: RequestView| pull_looks(request),
        requests(pull_step(), pull_started(sync), replies),
        replies,
    )
}

/// Whether a remote file is to be brought: it is not left alone.
pub open spec fn to_be_brought(
    world: World,
    sync: SyncConfigView,
    path: Seq<char>,
    file: RemoteFileView,
) -> bool {
    remote_file_at(world, sync, path, file) && !left_alone(sync, path)
}

/// A remote file that is to be brought.
pub open spec fn is_brought(world: World, sync: SyncConfigView) -> spec_fn(FetchItemView) -> bool {
    |item: FetchItemView| to_be_brought(world, sync, item.path, item.file)
}

/// Whether a local file is gone on the drive.
pub open spec fn gone_remotely(world: World, sync: SyncConfigView, path: Seq<char>) -> bool {
    &&& local_file_at(world, sync, path)
    &&& one_place_each(world, sync) ==> forall|file: RemoteFileView|
        !#[trigger] to_be_brought(world, sync, path, file)
}

/// A path of a local file that is gone on the drive.
pub open spec fn is_gone_remotely(world: World, sync: SyncConfigView) -> spec_fn(Seq<char>) -> bool {
    |path: Seq<char>| gone_remotely(world, sync, path)
}

/// An answer by which the local file at a path is the same as a remote file: what is remembered of
/// it has exactly the size and the modification time of the local file and the size and the digest of
/// the remote file, or the digest of the local file is that of the remote file, and the sizes are the
/// same.
pub open spec fn is_the_same(
    world: World,
    sync: SyncConfigView,
    path: Seq<char>,
    file: RemoteFileView,
    request: RequestView,
    reply: ReplyView,
) -> bool {
    let stat = stat_at(world, sync, path);
    &&& local_file_at(world, sync, path)
    &&& {
        ||| {
            &&& request == RequestView::LoadState { mirror: sync.name, path }
            &&& reply matches ReplyView::State(Some(state))
            &&& state.size == stat.size
            &&& stat.modified matches Some((seconds, nanos))
            &&& state.mtime_ns == seconds * 1_000_000_000 + nanos
            &&& state.size == file.claimed_size
            &&& same_digest(state.sha1, file.sha1)
        }
        ||| {
            &&& request == RequestView::Hash { path: local_path_of(sync.local, path) }
            &&& reply matches ReplyView::Digest(digest)
            &&& same_digest(digest, file.sha1)
            &&& stat.size == file.claimed_size
        }
    }
}

/// What a pull may ask for.
pub open spec fn pull_asks(world: World, sync: SyncConfigView, request: RequestView) -> bool {
    ||| pull_looks(request)
    ||| fetches_only(sync, request, is_brought(world, sync))
    ||| request is TrashLocal && sync.delete == DeletePolicy::Trash && removes_only_gone(
        sync,
        request,
        is_gone_remotely(world, sync),
    )
    ||| request is DeleteStates && removes_only_gone(sync, request, is_gone_remotely(world, sync))
}

spec fn known_at(
    world: World,
    sync: SyncConfigView,
    scanned: ScannedView,
    tree: RemoteTreeView,
    at: Progress<PullView, RequestView, SummaryView>,
) -> bool {
    &&& scanned_told(world, sync, scanned)
    &&& tree_told(world, sync, tree)
    &&& PullView::listed(sync, scanned, tree) matches Ok(start) && start == at
}

spec fn looking(world: World, sync: SyncConfigView, run: PullView, request: RequestView) -> bool {
    &&& run.sync == sync
    &&& pull_looks(request)
    &&& match run.stage {
        PullStageView::Checking(_) => true,
        PullStageView::Scanning(scan) => scan_told(world, sync, scan, request),
        PullStageView::Listing { scanned, inventory } => scanned_told(world, sync, scanned)
            && inventory_told(world, sync, inventory, request),
        _ => false,
    }
}

proof fn looks_on(
    world: World,
    sync: SyncConfigView,
    run: PullView,
    request: RequestView,
    reply: ReplyView,
)
    requires
        looking(world, sync, run, request),
        told(world, request, reply),
    ensures
        match run.stepped(reply) {
            Err(_) => true,
            Ok(next) => (exists|scanned: ScannedView, tree: RemoteTreeView| #[trigger]
                known_at(world, sync, scanned, tree, next)) || (next matches Progress::Ask(
                run,
                request,
            ) && looking(world, sync, run, request)),
        },
{
    match run.stage {
        PullStageView::Checking(_) => {
            scan_starts_told(world, sync);
        },
        PullStageView::Scanning(scan) => {
            scan_asks(scan, reply);
            scan_stays_told(world, sync, scan, request, reply);
            inventory_starts_told(world, sync, sync.name);
        },
        PullStageView::Listing { scanned, inventory } => {
            inventory_asks(inventory, reply);
            inventory_stays_told(world, sync, inventory, request, reply);
            if let Ok(Progress::Done(tree)) = inventory.stepped(reply) {
                if let Ok(next) = run.stepped(reply) {
                    assert(known_at(world, sync, scanned, tree, next));
                }
            }
        },
        _ => {},
    }
}

proof fn pull_gets_to_know(world: World, sync: SyncConfigView, replies: Seq<ReplyView>) -> (found:
    Option<(int, ScannedView, RemoteTreeView)>)
    requires
        pull_is_told(world, sync, replies),
    ensures
        ({
            let asked = requests(pull_step(), pull_started(sync), replies);
            match found {
                None => {
                    &&& !(ending(pull_step(), pull_started(sync), replies) matches Some(Ok(_)))
                    &&& forall|i: int| 0 <= i < asked.len() ==> pull_looks(#[trigger] asked[i])
                },
                Some((count, scanned, tree)) => {
                    &&& scanned_told(world, sync, scanned)
                    &&& tree_told(world, sync, tree)
                    &&& PullView::listed(sync, scanned, tree) is Ok
                    &&& goes_on_at(
                        pull_step(),
                        pull_started(sync),
                        replies,
                        count,
                        PullView::listed(sync, scanned, tree)->Ok_0,
                    )
                    &&& forall|i: int| 0 <= i < count ==> pull_looks(#[trigger] asked[i])
                },
            }
        }),
{
    let answered = |request: RequestView, reply: ReplyView| told(world, request, reply);
    let looks = |request: RequestView| pull_looks(request);
    let before = |run: PullView, request: RequestView| looking(world, sync, run, request);
    let mark = |at: Progress<PullView, RequestView, SummaryView>|
        exists|scanned: ScannedView, tree: RemoteTreeView| #[trigger]
            known_at(world, sync, scanned, tree, at);
    assert forall|run: PullView, request: RequestView, reply: ReplyView|
        #![trigger before(run, request), pull_step()(run, reply)]
        before(run, request) && answered(request, reply) implies match pull_step()(run, reply) {
        Err(_) => true,
        Ok(next) => mark(next) || (next matches Progress::Ask(run, request) && before(
            run,
            request,
        )),
    } by {
        looks_on(world, sync, run, request, reply);
    }
    let asked = requests(pull_step(), pull_started(sync), replies);
    match looks_until(pull_step(), answered, looks, before, mark, pull_started(sync), replies) {
        None => {
            assert forall|i: int| 0 <= i < asked.len() implies pull_looks(#[trigger] asked[i]) by {
                assert(looks(asked[i]));
            }
            None
        },
        Some((count, at)) => {
            assert(mark(at));
            let (scanned, tree) = choose|scanned: ScannedView, tree: RemoteTreeView| #[trigger]
                known_at(world, sync, scanned, tree, at);
            assert forall|i: int| 0 <= i < count implies pull_looks(#[trigger] asked[i]) by {
                assert(looks(asked[i]));
            }
            Some((count, scanned, tree))
        },
    }
}

proof fn pulled_are_brought(
    world: World,
    sync: SyncConfigView,
    scanned: ScannedView,
    tree: RemoteTreeView,
)
    requires
        scanned_told(world, sync, scanned),
        tree_told(world, sync, tree),
    ensures
        ({
            let paths = pulled_paths(scanned.patterns, tree);
            let items = fetch_items(paths, tree, scanned.files);
            let lost = local_only(scanned.files, paths);
            &&& forall|k: int|
                0 <= k < items.len() ==> is_brought(world, sync)(#[trigger] items[k])
            &&& forall|path: Seq<char>| #[trigger]
                paths.contains(path) <==> tree.files.contains_key(path) && !left_alone(sync, path)
            &&& forall|path: Seq<char>| #[trigger]
                lost.contains(path) <==> local_file_at(world, sync, path) && !(
                tree.files.contains_key(path) && !left_alone(sync, path))
            &&& forall|k: int| 0 <= k < lost.len() ==> is_gone_remotely(world, sync)(
                #[trigger] lost[k],
            )
        }),
{
    let all = in_order(tree.files.dom());
    let here = in_order(scanned.files.dom());
    let paths = pulled_paths(scanned.patterns, tree);
    let items = fetch_items(paths, tree, scanned.files);
    let lost = local_only(scanned.files, paths);
    in_order_is_ordered(tree.files.dom());
    in_order_is_ordered(scanned.files.dom());
    assert forall|path: Seq<char>| #[trigger] paths.contains(path) == (tree.files.contains_key(path)
        && !left_alone(sync, path)) by {
        managed_contains(scanned.patterns, all, Set::empty(), path);
        assert(all.to_set().contains(path) == all.contains(path));
        assert(all.to_set().contains(path) == tree.files.contains_key(path));
        excluded_is_left_alone(sync, path);
    }
    assert forall|k: int| 0 <= k < items.len() implies is_brought(world, sync)(
        #[trigger] items[k],
    ) by {
        assert(paths.contains(paths[k]));
        assert(items[k].path == paths[k]);
    }
    assert forall|path: Seq<char>| #[trigger] lost.contains(path) == (local_file_at(
        world,
        sync,
        path,
    ) && !(tree.files.contains_key(path) && !left_alone(sync, path))) by {
        unseen_comes_from(here, paths.to_set(), path);
        assert(here.to_set().contains(path) == here.contains(path));
        assert(here.to_set().contains(path) == scanned.files.contains_key(path));
        assert(paths.to_set().contains(path) == paths.contains(path));
    }
    assert forall|k: int| 0 <= k < lost.len() implies is_gone_remotely(world, sync)(
        #[trigger] lost[k],
    ) by {
        let path = lost[k];
        assert(lost.contains(path));
        if one_place_each(world, sync) {
            assert forall|file: RemoteFileView| !#[trigger] to_be_brought(
                world,
                sync,
                path,
                file,
            ) by {}
        }
    }
}

spec fn working(world: World, sync: SyncConfigView, run: PullView) -> bool {
    &&& run.sync == sync
    &&& match run.stage {
        PullStageView::Fetching { gone, fetch, .. } => {
            &&& wanted_fetch(sync, fetch, is_brought(world, sync))
            &&& forall|k: int|
                0 <= k < gone.len() ==> is_gone_remotely(world, sync)(#[trigger] gone[k])
        },
        PullStageView::Removing { removal, .. } => sync.delete == DeletePolicy::Trash
            && gone_removal(sync, removal, is_gone_remotely(world, sync)),
        PullStageView::Forgetting { .. } => true,
        _ => false,
    }
}

spec fn works_on(world: World, sync: SyncConfigView, outcome: PullOutcome) -> bool {
    outcome matches Ok(Progress::Ask(next, asked)) ==> working(world, sync, next) && pull_asks(
        world,
        sync,
        asked,
    )
}

proof fn fetched_works_on(
    world: World,
    sync: SyncConfigView,
    summary: SummaryView,
    gone: Seq<Seq<char>>,
    fetched: FetchedView,
)
    requires
        forall|k: int| 0 <= k < gone.len() ==> is_gone_remotely(world, sync)(#[trigger] gone[k]),
    ensures
        works_on(world, sync, PullView::fetched(sync, summary, gone, fetched)),
{
    gone_removal_begins(sync, removal_prepared(sync, gone), is_gone_remotely(world, sync));
}

proof fn pull_works_on(world: World, sync: SyncConfigView, run: PullView, reply: ReplyView)
    requires
        working(world, sync, run),
    ensures
        works_on(world, sync, run.stepped(reply)),
{
    match run.stage {
        PullStageView::Fetching { summary, gone, fetch } => {
            wanted_fetch_goes_on(sync, fetch, is_brought(world, sync), reply);
            if let Ok(Progress::Done(fetched)) = fetch.stepped(reply) {
                fetched_works_on(world, sync, summary, gone, fetched);
            }
        },
        PullStageView::Removing { removal, .. } => {
            gone_removal_goes_on(sync, removal, is_gone_remotely(world, sync), reply);
        },
        _ => {},
    }
}

/// A pull that is told the world as it is asks for nothing but this: after it has looked at both
/// sides, it brings remote files that are not left alone to their places and remembers them with their
/// digests, it moves to the trash, if deletions are carried over, local files that are gone on the
/// drive, and it forgets those.
pub proof fn a_pull_does_nothing_else(
    world: World,
    sync: SyncConfigView,
    replies: Seq<ReplyView>,
)
    requires
        pull_is_told(world, sync, replies),
    ensures
        forall|i: int|
            #![trigger requests(pull_step(), pull_started(sync), replies)[i]]
            0 <= i < requests(pull_step(), pull_started(sync), replies).len() ==> pull_asks(
                world,
                sync,
                requests(pull_step(), pull_started(sync), replies)[i],
            ),
{
    let asked = requests(pull_step(), pull_started(sync), replies);
    if let Some((count, scanned, tree)) = pull_gets_to_know(world, sync, replies) {
        let start = PullView::listed(sync, scanned, tree)->Ok_0;
        let left = replies.skip(count);
        let later = requests(pull_step(), start, left);
        let sound = |run: PullView, request: RequestView|
            working(world, sync, run) && pull_asks(world, sync, request);
        let good = |request: RequestView| pull_asks(world, sync, request);
        let paths = pulled_paths(scanned.patterns, tree);
        let items = fetch_items(paths, tree, scanned.files);
        let gone = local_only(scanned.files, paths);
        pulled_are_brought(world, sync, scanned, tree);
        wanted_fetch_begins(sync, fetch_prepared(sync, items), is_brought(world, sync));
        if let Ok(Progress::Done(fetched)) = fetch_prepared(sync, items).advanced() {
            fetched_works_on(
                world,
                sync,
                scan_summary(in_order(scanned.files.dom()).len(), scanned.symlinks.len()),
                gone,
                fetched,
            );
        }
        assert forall|run: PullView, request: RequestView, reply: ReplyView|
            #![trigger sound(run, request), pull_step()(run, reply)]
            sound(run, request) implies (pull_step()(run, reply) matches Ok(
            Progress::Ask(next, asked),
        ) ==> sound(next, asked)) by {
            pull_works_on(world, sync, run, reply);
        }
        kept_by_steps(pull_step(), sound, good, start, left);
        assert forall|i: int| 0 <= i < asked.len() implies pull_asks(
            world,
            sync,
            #[trigger] asked[i],
        ) by {
            if i >= count {
                assert(asked.skip(count)[i - count] == asked[i]);
                assert(good(later[i - count]));
            }
        }
    }
}

/// A pull that is told the world as it is, and that comes to a good end, has put in its place every
/// remote file that is not left alone, and passed over only those whose local file is the same by what
/// is remembered or by its digest.
pub proof fn a_pull_brings_every_remote_file(
    world: World,
    sync: SyncConfigView,
    replies: Seq<ReplyView>,
    path: Seq<char>,
    file: RemoteFileView,
)
    requires
        pull_is_told(world, sync, replies),
        ending(pull_step(), pull_started(sync), replies) matches Some(Ok(_)),
        one_place_each(world, sync),
        to_be_brought(world, sync, path, file),
    ensures
        ({
            let asked = requests(pull_step(), pull_started(sync), replies);
            exists|i: int, found: RemoteFileView|
                #![trigger asked[i], remote_file_at(world, sync, path, found)]
                {
                    &&& 0 <= i < asked.len()
                    &&& remote_file_at(world, sync, path, found)
                    &&& installs(asked[i], sync.local, path) || (i < replies.len() && is_the_same(
                        world,
                        sync,
                        path,
                        found,
                        asked[i],
                        replies[i],
                    ))
                }
        }),
{
    let asked = requests(pull_step(), pull_started(sync), replies);
    let found = pull_gets_to_know(world, sync, replies);
    let (count, scanned, tree) = found->0;
    let start = PullView::listed(sync, scanned, tree)->Ok_0;
    let left = replies.skip(count);
    let later = requests(pull_step(), start, left);
    pulled_are_brought(world, sync, scanned, tree);
    assert(tree.files.contains_key(path));
    assert(pulled_paths(scanned.patterns, tree).contains(path));
    every_remote_file_is_installed(sync, scanned, tree, left, path);
    let there = tree.files[path];
    let item = FetchItemView { path, file: there, local: lookup(scanned.files, path) };
    let i = choose|i: int|
        0 <= i < later.len() && (installs(#[trigger] later[i], sync.local, path) || (i < left.len()
            && found_same(sync, item, later[i], left[i])));
    assert(asked.skip(count)[i] == asked[i + count]);
    if i < left.len() {
        assert(left[i] == replies[i + count]);
        if found_same(sync, item, later[i], left[i]) {
            assert(scanned.files.contains_key(path));
            assert(described(world, sync, path, scanned.files[path]));
            if let ReplyView::State(Some(state)) = left[i] {
                digests_ignore_case(state.sha1, there.sha1);
            }
            if let ReplyView::Digest(digest) = left[i] {
                digests_ignore_case(digest, there.sha1);
            }
            assert(is_the_same(world, sync, path, there, asked[i + count], replies[i + count]));
        }
    }
    assert(remote_file_at(world, sync, path, there));
}

/// A pull that is told the world as it is, and that comes to a good end, has put every remote file
/// that is not left alone on record, with its digest.
pub proof fn a_pull_remembers_every_remote_file(
    world: World,
    sync: SyncConfigView,
    replies: Seq<ReplyView>,
    path: Seq<char>,
    file: RemoteFileView,
)
    requires
        pull_is_told(world, sync, replies),
        ending(pull_step(), pull_started(sync), replies) matches Some(Ok(_)),
        one_place_each(world, sync),
        to_be_brought(world, sync, path, file),
    ensures
        ({
            let asked = requests(pull_step(), pull_started(sync), replies);
            exists|i: int, item: FetchItemView|
                #![trigger records_item(sync, asked[i], item)]
                {
                    &&& 0 <= i < asked.len()
                    &&& item.path == path
                    &&& remote_file_at(world, sync, path, item.file)
                    &&& records_item(sync, asked[i], item)
                }
        }),
{
    let asked = requests(pull_step(), pull_started(sync), replies);
    let found = pull_gets_to_know(world, sync, replies);
    let (count, scanned, tree) = found->0;
    let start = PullView::listed(sync, scanned, tree)->Ok_0;
    let left = replies.skip(count);
    let later = requests(pull_step(), start, left);
    let paths = pulled_paths(scanned.patterns, tree);
    let items = fetch_items(paths, tree, scanned.files);
    pulled_are_brought(world, sync, scanned, tree);
    assert(tree.files.contains_key(path));
    assert(paths.contains(path));
    let k = choose|k: int| 0 <= k < paths.len() && paths[k] == path;
    let item = items[k];
    fetch_begins_owing_record(sync, fetch_prepared(sync, items), k);
    let step = pull_step();
    let owes = |run: PullView, request: RequestView|
        run.stage matches PullStageView::Fetching { fetch, .. } && fetch.items == items
            && owes_record(sync, fetch, k);
    let met = |request: RequestView| records_item(sync, request, item);
    let excused = |request: RequestView, reply: ReplyView| false;
    assert forall|run: PullView, request: RequestView, reply: ReplyView|
        #![trigger owes(run, request), step(run, reply)]
        owes(run, request) && !excused(request, reply) implies match step(run, reply) {
        Err(_) => true,
        Ok(Progress::Done(_)) => false,
        Ok(Progress::Ask(next, asked)) => owes(next, asked) || met(asked),
    } by {
        fetch_goes_on_owing_record(sync, run.stage->Fetching_fetch, k, reply);
    }
    settled_by_the_end(step, owes, met, excused, start, left);
    let i = choose|i: int|
        0 <= i < later.len() && (met(#[trigger] later[i]) || (i < left.len() && excused(
            later[i],
            left[i],
        )));
    assert(asked.skip(count)[i] == asked[i + count]);
    assert(remote_file_at(world, sync, path, item.file));
    assert(records_item(sync, asked[i + count], item));
}

/// A pull that is told the world as it is, and that comes to a good end, has moved to the trash every
/// local file that is gone on the drive if deletions are carried over, and has forgotten it if not.
pub proof fn a_pull_removes_what_is_gone(
    world: World,
    sync: SyncConfigView,
    replies: Seq<ReplyView>,
    path: Seq<char>,
)
    requires
        pull_is_told(world, sync, replies),
        ending(pull_step(), pull_started(sync), replies) matches Some(Ok(_)),
        local_file_at(world, sync, path),
        forall|file: RemoteFileView| !#[trigger] remote_file_at(world, sync, path, file),
    ensures
        ({
            let asked = requests(pull_step(), pull_started(sync), replies);
            exists|i: int|
                #![trigger asked[i]]
                0 <= i < asked.len() && if sync.delete == DeletePolicy::Trash {
                    asked[i] == RequestView::TrashLocal {
                        path: local_path_of(sync.local, path),
                    }
                } else {
                    forgets_path(sync, asked[i], path)
                }
        }),
{
    let asked = requests(pull_step(), pull_started(sync), replies);
    let found = pull_gets_to_know(world, sync, replies);
    let (count, scanned, tree) = found->0;
    let start = PullView::listed(sync, scanned, tree)->Ok_0;
    let left = replies.skip(count);
    let later = requests(pull_step(), start, left);
    let lost = local_only(scanned.files, pulled_paths(scanned.patterns, tree));
    pulled_are_brought(world, sync, scanned, tree);
    assert(!tree.files.contains_key(path));
    assert(lost.contains(path));
    if sync.delete == DeletePolicy::Trash {
        every_gone_file_is_removed(sync, scanned, tree, left, path);
        let i = choose|i: int|
            0 <= i < later.len() && removes(#[trigger] later[i], sync.local, path);
        assert(asked.skip(count)[i] == asked[i + count]);
    } else {
        let step = pull_step();
        let owes = |run: PullView, request: RequestView|
            run.sync == sync && (run.stage matches PullStageView::Fetching { gone, .. } && gone
                == lost);
        let met = |request: RequestView| forgets_path(sync, request, path);
        let excused = |request: RequestView, reply: ReplyView| false;
        assert forall|run: PullView, request: RequestView, reply: ReplyView|
            #![trigger owes(run, request), step(run, reply)]
            owes(run, request) && !excused(request, reply) implies match step(run, reply) {
            Err(_) => true,
            Ok(Progress::Done(_)) => false,
            Ok(Progress::Ask(next, asked)) => owes(next, asked) || met(asked),
        } by {}
        settled_by_the_end(step, owes, met, excused, start, left);
        let i = choose|i: int|
            0 <= i < later.len() && (met(#[trigger] later[i]) || (i < left.len() && excused(
                later[i],
                left[i],
            )));
        assert(asked.skip(count)[i] == asked[i + count]);
        assert(forgets_path(sync, asked[i + count], path));
    }
}

/// The paths of the remote files that are to be brought.
pub open spec fn paths_to_bring(world: World, sync: SyncConfigView) -> Set<Seq<char>> {
    Set::new(|path: Seq<char>| is_to_be_brought(world, sync, path))
}

/// Whether there is a remote file at a path that is to be brought.
pub open spec fn is_to_be_brought(world: World, sync: SyncConfigView, path: Seq<char>) -> bool {
    exists|file: RemoteFileView| #[trigger] to_be_brought(world, sync, path, file)
}

spec fn fetch_counted(fetch: FetchView) -> bool {
    &&& fetch.fetched.unchanged.len() + fetch.fetched.downloaded.len() == fetch.at
    &&& fetch.at <= fetch.items.len()
    &&& fetch.stage is Flushing ==> fetch.at == fetch.items.len()
}

proof fn advanced_fetch_counted(fetch: FetchView)
    requires
        fetch.fetched.unchanged.len() + fetch.fetched.downloaded.len() == fetch.at,
        fetch.at <= fetch.items.len(),
    ensures
        match fetch.advanced() {
            Err(_) => true,
            Ok(Progress::Ask(next, _)) => fetch_counted(next) && next.items == fetch.items,
            Ok(Progress::Done(fetched)) => fetched.unchanged.len() + fetched.downloaded.len()
                == fetch.items.len(),
        },
{
}

proof fn fetch_goes_on_counted(fetch: FetchView, reply: ReplyView)
    requires
        fetch_counted(fetch),
    ensures
        match fetch.stepped(reply) {
            Err(_) => true,
            Ok(Progress::Ask(next, _)) => fetch_counted(next) && next.items == fetch.items,
            Ok(Progress::Done(fetched)) => fetched.unchanged.len() + fetched.downloaded.len()
                == fetch.items.len(),
        },
{
    advanced_fetch_counted(fetch);
}

proof fn brought_are_counted(
    world: World,
    sync: SyncConfigView,
    scanned: ScannedView,
    tree: RemoteTreeView,
)
    requires
        scanned_told(world, sync, scanned),
        tree_told(world, sync, tree),
    ensures
        in_order(scanned.files.dom()).len() == local_paths(world, sync).len(),
        one_place_each(world, sync) ==> pulled_paths(scanned.patterns, tree).len()
            == paths_to_bring(world, sync).len(),
{
    let all = in_order(tree.files.dom());
    let paths = pulled_paths(scanned.patterns, tree);
    in_order_keeps_count(scanned.files.dom());
    assert(scanned.files.dom() =~= local_paths(world, sync)) by {
        assert forall|path: Seq<char>| #[trigger] scanned.files.dom().contains(path)
            == local_paths(world, sync).contains(path) by {
            assert(scanned.files.contains_key(path) == local_file_at(world, sync, path));
        }
    }
    if one_place_each(world, sync) {
        pulled_are_brought(world, sync, scanned, tree);
        in_order_is_ordered(tree.files.dom());
        assert forall|i: int, j: int| 0 <= i < j < all.len() implies all[i] != all[j] by {
            assert(text_lt(all[i], all[j]));
            text_lt_irreflexive(all[i]);
        }
        managed_keeps_no_duplicates(scanned.patterns, all);
        assert(paths.to_set() =~= paths_to_bring(world, sync)) by {
            assert forall|path: Seq<char>| #[trigger] paths.to_set().contains(path)
                == paths_to_bring(world, sync).contains(path) by {
                assert(paths.to_set().contains(path) == paths.contains(path));
                if paths.contains(path) {
                    assert(to_be_brought(world, sync, path, tree.files[path]));
                }
                if is_to_be_brought(world, sync, path) {
                    let file = choose|file: RemoteFileView| #[trigger]
                        to_be_brought(world, sync, path, file);
                    assert(remote_file_at(world, sync, path, file));
                }
            }
        }
        paths.unique_seq_to_set();
    }
}

proof fn managed_keeps_no_duplicates(patterns: Seq<Seq<char>>, paths: Seq<Seq<char>>)
    requires
        paths.no_duplicates(),
    ensures
        managed(patterns, paths, Set::empty()).no_duplicates(),
    decreases paths.len(),
{
    if paths.len() > 0 {
        let before = paths.drop_last();
        let rest = managed(patterns, before, Set::empty());
        managed_keeps_no_duplicates(patterns, before);
        managed_contains(patterns, before, Set::empty(), paths.last());
        if before.contains(paths.last()) {
            let k = choose|k: int| 0 <= k < before.len() && before[k] == paths.last();
            assert(paths[k] == paths[paths.len() - 1]);
        }
        assert(!rest.contains(paths.last()));
        let all = managed(patterns, paths, Set::empty());
        assert forall|i: int, j: int| 0 <= i < j < all.len() implies all[i] != all[j] by {
            assert(all[i] == rest[i]);
            if j < rest.len() {
                assert(all[j] == rest[j]);
            } else {
                assert(rest.contains(rest[i]));
            }
        }
    }
}

spec fn finds(world: World, sync: SyncConfigView, summary: SummaryView) -> bool {
    &&& summary.scanned == local_paths(world, sync).len()
    &&& one_place_each(world, sync) ==> summary.unchanged + summary.downloaded == paths_to_bring(
        world,
        sync,
    ).len()
}

spec fn has_found(world: World, sync: SyncConfigView, run: PullView) -> bool {
    match run.stage {
        PullStageView::Fetching { summary, fetch, .. } => {
            &&& summary.scanned == local_paths(world, sync).len()
            &&& fetch_counted(fetch)
            &&& one_place_each(world, sync) ==> fetch.items.len() == paths_to_bring(
                world,
                sync,
            ).len()
        },
        PullStageView::Removing { summary, .. } => finds(world, sync, summary),
        PullStageView::Forgetting { summary } => finds(world, sync, summary),
        _ => false,
    }
}

/// The summary of a pull that was told the world as it is says how many local files there are, and its
/// numbers of unchanged and downloaded files make up the remote files that are not left alone.
pub proof fn what_a_pull_finds(world: World, sync: SyncConfigView, replies: Seq<ReplyView>)
    requires
        pull_is_told(world, sync, replies),
    ensures
        ending(pull_step(), pull_started(sync), replies) matches Some(Ok(summary)) ==> {
            &&& summary.scanned == local_paths(world, sync).len()
            &&& one_place_each(world, sync) ==> summary.unchanged + summary.downloaded
                == paths_to_bring(world, sync).len()
        },
{
    if let Some((count, scanned, tree)) = pull_gets_to_know(world, sync, replies) {
        let start = PullView::listed(sync, scanned, tree)->Ok_0;
        let paths = pulled_paths(scanned.patterns, tree);
        let items = fetch_items(paths, tree, scanned.files);
        brought_are_counted(world, sync, scanned, tree);
        advanced_fetch_counted(fetch_prepared(sync, items));
        let sound = |run: PullView| has_found(world, sync, run);
        let good = |summary: SummaryView| finds(world, sync, summary);
        assert forall|run: PullView, reply: ReplyView| sound(run) implies match #[trigger] pull_step()(
            run,
            reply,
        ) {
            Err(_) => true,
            Ok(Progress::Ask(next, _)) => sound(next),
            Ok(Progress::Done(summary)) => good(summary),
        } by {
            if let PullStageView::Fetching { fetch, .. } = run.stage {
                fetch_goes_on_counted(fetch, reply);
            }
        }
        kept_to_the_end(pull_step(), sound, good, start, replies.skip(count));
    }
}

} // verus!
