//! What the numbers of a summary stand for.

use crate::cleanup::{cleanup_prepared, moved_paths, trash_targets, CleanupView, TrashItemView};
use crate::config::SyncConfigView;
use crate::drive::TrashTargetView;
use crate::exchange::{Progress, ReplyView, RequestView};
use crate::fetch::{fetch_prepared, FetchItemView, FetchStage, FetchView, FetchedView};
use crate::inventory::RemoteTreeView;
use crate::plan::{two_way_view, LocalSnapshot};
use crate::pull::{pull_started, PullOutcome, PullStageView, PullView};
use crate::pull_laws::pull_step;
use crate::push::{changed_files, push_started, PushOutcome, PushStageView, PushView};
use crate::push_laws::push_step;
use crate::removal::RemovalView;
use crate::scan::ScannedView;
use crate::soundness::{ensure_steps, inventory_asks, scan_asks};
use crate::state::FileState;
use crate::summary::{scan_summary, SummaryView};
use crate::text::in_order;
use crate::trace::{counted_by_the_end, ending, requests, total};
use crate::two_way::{remembered_digest, two_way_started, unexcluded, work_for, TwoWayOutcome};
use crate::two_way::{TwoWayRun, TwoWayStageView};
use crate::two_way_laws::two_way_step;
use crate::uploads::{uploads_prepared, PendingUpload, UploadTallyView, UploadsStage, UploadsView};
use vstd::prelude::*;

verus! {

/// The numbers of a summary that are counted while a sync changes something.
pub enum Number {
    Uploaded,
    Matched,
    Downloaded,
    Trashed,
    TrashedLocal,
}

/// What one exchange adds to a number. Each upload command adds what the drive reports to have
/// transferred, and what it reports to have had already; each file that is put in its place and each
/// local file that is moved to the trash adds one; and each trash command adds the targets that are
/// reported to have been moved.
pub open spec fn adds(number: Number) -> spec_fn(RequestView, ReplyView) -> nat {
    |request: RequestView, reply: ReplyView|
        match (number, request, reply) {
            (Number::Uploaded, RequestView::Upload { .. }, ReplyView::Uploaded(result)) =>
                result.transferred_items as nat,
            (Number::Matched, RequestView::Upload { .. }, ReplyView::Uploaded(result)) =>
                result.skipped_items as nat,
            (Number::Downloaded, RequestView::Install { .. }, _) => 1,
            (Number::Trashed, RequestView::TrashRemote { targets }, ReplyView::Trashed(result)) =>
                targets.filter(
                |target: TrashTargetView| result.succeeded_uids.contains(target.uid),
            ).len(),
            (Number::TrashedLocal, RequestView::TrashLocal { .. }, _) => 1,
            _ => 0,
        }
}

/// The number in a summary.
pub open spec fn in_summary(number: Number, summary: SummaryView) -> nat {
    match number {
        Number::Uploaded => summary.uploaded,
        Number::Matched => summary.matched_remote,
        Number::Downloaded => summary.downloaded,
        Number::Trashed => summary.trashed,
        Number::TrashedLocal => summary.trashed_local,
    }
}

spec fn in_tally(number: Number, tally: UploadTallyView) -> nat {
    match number {
        Number::Uploaded => tally.uploaded,
        Number::Matched => tally.matched_remote,
        _ => 0,
    }
}

spec fn in_fetch(number: Number, fetch: FetchView) -> nat {
    if number is Downloaded {
        fetch.fetched.downloaded.len() + if fetch.stage matches FetchStage::Downloading(download)
            && download.stage is Reading {
            1nat
        } else {
            0nat
        }
    } else {
        0
    }
}

spec fn in_cleanup(number: Number, cleanup: CleanupView) -> nat {
    if number is Trashed {
        cleanup.trashed.len()
    } else {
        0
    }
}

spec fn in_removal(number: Number, removal: RemovalView) -> nat {
    if number is TrashedLocal {
        removal.at + if removal.forgetting {
            1nat
        } else {
            0nat
        }
    } else {
        0
    }
}

spec fn uploads_in_place(uploads: UploadsView, request: RequestView) -> bool {
    &&& request is Upload <==> uploads.stage is Sending
    &&& request !is Install && request !is TrashRemote && request !is TrashLocal
}

spec fn fetch_in_place(fetch: FetchView, request: RequestView) -> bool {
    &&& request is Install <==> (fetch.stage matches FetchStage::Downloading(download)
        && download.stage is Installing)
    &&& request !is Upload && request !is TrashRemote && request !is TrashLocal
}

spec fn cleanup_in_place(cleanup: CleanupView, request: RequestView) -> bool {
    &&& request is TrashRemote <==> !cleanup.forgetting
    &&& request is TrashRemote ==> request->targets == trash_targets(
        cleanup.remote,
        cleanup.batches[cleanup.at as int],
    )
    &&& request !is Upload && request !is Install && request !is TrashLocal
}

spec fn removal_in_place(removal: RemovalView, request: RequestView) -> bool {
    &&& removal.at < removal.paths.len()
    &&& request is TrashLocal <==> !removal.forgetting
    &&& request !is Upload && request !is Install && request !is TrashRemote
}

proof fn begun_uploads_count(number: Number, run: UploadsView)
    ensures
        match run.begun() {
            Err(_) => true,
            Ok(Progress::Ask(next, asked)) => uploads_in_place(next, asked) && next.tally
                == run.tally,
            Ok(Progress::Done(tally)) => tally == run.tally,
        },
{
}

proof fn uploads_count(number: Number, run: UploadsView, request: RequestView, reply: ReplyView)
    requires
        uploads_in_place(run, request),
    ensures
        match run.stepped(reply) {
            Err(_) => true,
            Ok(Progress::Ask(next, asked)) => uploads_in_place(next, asked) && in_tally(
                number,
                next.tally,
            ) == in_tally(number, run.tally) + adds(number)(request, reply),
            Ok(Progress::Done(tally)) => in_tally(number, tally) == in_tally(number, run.tally)
                + adds(number)(request, reply),
        },
{
    if let UploadsStage::Ensuring(ensure) = run.stage {
        ensure_steps(ensure, reply);
    }
    begun_uploads_count(number, UploadsView { at: run.at + 1, ..run });
    if let ReplyView::Uploaded(result) = reply {
        begun_uploads_count(number, UploadsView { at: run.at + 1, ..run.tallied(result) });
    }
}

spec fn so_far(number: Number, fetched: FetchedView) -> nat {
    if number is Downloaded {
        fetched.downloaded.len()
    } else {
        0
    }
}

proof fn recorded_fetch_counts(number: Number, run: FetchView, size: u64, mtime_ns: i64)
    requires
        run.at < run.items.len(),
    ensures
        match run.recorded(size, mtime_ns) {
            Err(_) => true,
            Ok(Progress::Ask(next, asked)) => fetch_in_place(next, asked) && in_fetch(number, next)
                == so_far(number, run.fetched),
            Ok(Progress::Done(fetched)) => fetched == run.fetched,
        },
{
}

proof fn fetch_counts(number: Number, run: FetchView, request: RequestView, reply: ReplyView)
    requires
        fetch_in_place(run, request),
    ensures
        match run.stepped(reply) {
            Err(_) => true,
            Ok(Progress::Ask(next, asked)) => fetch_in_place(next, asked) && in_fetch(number, next)
                == in_fetch(number, run) + adds(number)(request, reply),
            Ok(Progress::Done(fetched)) => so_far(number, fetched) == in_fetch(number, run) + adds(
                number,
            )(request, reply),
        },
{
    if run.at < run.items.len() {
        let item = run.items[run.at as int];
        let path = item.path;
        let matched = FetchView {
            fetched: FetchedView { unchanged: run.fetched.unchanged.push(path), ..run.fetched },
            ..run
        };
        let downloaded = FetchView {
            fetched: FetchedView { downloaded: run.fetched.downloaded.push(path), ..run.fetched },
            ..run
        };
        if let Some(local) = item.local {
            recorded_fetch_counts(number, matched, local.size, local.mtime_ns);
        }
        if let FetchStage::Downloading(download) = run.stage {
            if let Ok(Progress::Done(local)) = download.stepped(reply) {
                recorded_fetch_counts(number, downloaded, local.size, local.mtime_ns);
            }
        }
    }
}

proof fn moved_are_counted(
    remote: Seq<char>,
    batch: Seq<TrashItemView>,
    succeeded: Seq<Seq<char>>,
)
    ensures
        trash_targets(remote, batch).filter(
            |target: TrashTargetView| succeeded.contains(target.uid),
        ).len() == moved_paths(batch, succeeded).len(),
    decreases batch.len(),
{
    reveal(Seq::filter);
    let wanted = |target: TrashTargetView| succeeded.contains(target.uid);
    let targets = trash_targets(remote, batch);
    if batch.len() > 0 {
        let before = batch.drop_last();
        moved_are_counted(remote, before, succeeded);
        assert(targets.drop_last() =~= trash_targets(remote, before));
        assert(targets.last().uid == batch.last().file.uid);
    }
}

proof fn cleanup_counts(number: Number, run: CleanupView, request: RequestView, reply: ReplyView)
    requires
        cleanup_in_place(run, request),
    ensures
        match run.stepped(reply) {
            Err(_) => true,
            Ok(Progress::Ask(next, asked)) => cleanup_in_place(next, asked) && in_cleanup(
                number,
                next,
            ) == in_cleanup(number, run) + adds(number)(request, reply),
            Ok(Progress::Done(paths)) => (if number is Trashed {
                paths.len()
            } else {
                0
            }) == in_cleanup(number, run) + adds(number)(request, reply),
        },
{
    if let ReplyView::Trashed(result) = reply {
        moved_are_counted(run.remote, run.batches[run.at as int], result.succeeded_uids);
    }
}

proof fn removal_counts(number: Number, run: RemovalView, request: RequestView, reply: ReplyView)
    requires
        removal_in_place(run, request),
    ensures
        match run.stepped(reply) {
            Err(_) => true,
            Ok(Progress::Ask(next, asked)) => removal_in_place(next, asked) && in_removal(
                number,
                next,
            ) == in_removal(number, run) + adds(number)(request, reply),
            Ok(Progress::Done(count)) => (if number is TrashedLocal {
                count
            } else {
                0
            }) == in_removal(number, run) + adds(number)(request, reply),
        },
{
}

spec fn quiet(request: RequestView) -> bool {
    request !is Upload && request !is Install && request !is TrashRemote && request !is TrashLocal
}

spec fn untouched(summary: SummaryView) -> bool {
    &&& summary.uploaded == 0
    &&& summary.matched_remote == 0
    &&& finished_later(summary)
}

spec fn finished_later(summary: SummaryView) -> bool {
    summary.downloaded == 0 && summary.trashed == 0 && summary.trashed_local == 0
}

spec fn push_in_place(run: PushView, request: RequestView) -> bool {
    match run.stage {
        PushStageView::Uploading { base, uploads } => untouched(base.summary) && uploads_in_place(
            uploads,
            request,
        ),
        PushStageView::ListingStale { base } => quiet(request) && finished_later(base.summary),
        PushStageView::Locating { base, .. } => quiet(request) && finished_later(base.summary),
        PushStageView::Forgetting { summary, .. } => quiet(request) && finished_later(summary),
        PushStageView::Trashing { summary, cleanup } => finished_later(summary)
            && cleanup_in_place(cleanup, request),
        _ => quiet(request),
    }
}

spec fn in_push(number: Number, run: PushView) -> nat {
    match run.stage {
        PushStageView::Uploading { uploads, .. } => in_tally(number, uploads.tally),
        PushStageView::ListingStale { base } => in_summary(number, base.summary),
        PushStageView::Locating { base, .. } => in_summary(number, base.summary),
        PushStageView::Forgetting { summary, .. } => in_summary(number, summary),
        PushStageView::Trashing { summary, cleanup } => if number is Trashed {
            cleanup.trashed.len()
        } else {
            in_summary(number, summary)
        },
        PushStageView::Finishing { summary } => in_summary(number, summary),
        _ => 0,
    }
}

spec fn push_counts_on(number: Number, before: nat, outcome: PushOutcome) -> bool {
    match outcome {
        Err(_) => true,
        Ok(Progress::Ask(next, asked)) => push_in_place(next, asked) && in_push(number, next)
            == before,
        Ok(Progress::Done(summary)) => in_summary(number, summary) == before,
    }
}

proof fn trashed_push_counts(
    number: Number,
    sync: SyncConfigView,
    summary: SummaryView,
    items: Seq<TrashItemView>,
)
    requires
        finished_later(summary),
    ensures
        push_counts_on(
            number,
            in_summary(number, summary),
            PushView::trashed(sync, summary, items),
        ),
{
}

proof fn push_counts(number: Number, run: PushView, request: RequestView, reply: ReplyView)
    requires
        push_in_place(run, request),
    ensures
        push_counts_on(
            number,
            in_push(number, run) + adds(number)(request, reply),
            run.stepped(reply),
        ),
{
    match run.stage {
        PushStageView::Scanning(scan) => {
            scan_asks(scan, reply);
        },
        PushStageView::LoadingBaseline { scanned, states } => {
            let changed = changed_files(scanned.files, states);
            begun_uploads_count(number, uploads_prepared(run.sync, changed));
        },
        PushStageView::Comparing { scanned, states, inventory } => {
            inventory_asks(inventory, reply);
            let changed = changed_files(scanned.files, states);
            begun_uploads_count(number, uploads_prepared(run.sync, changed));
        },
        PushStageView::Locating { inventory, .. } => {
            inventory_asks(inventory, reply);
        },
        PushStageView::Uploading { uploads, .. } => {
            uploads_count(number, uploads, request, reply);
        },
        PushStageView::Forgetting { summary, items } => {
            trashed_push_counts(number, run.sync, summary, items);
        },
        PushStageView::Trashing { cleanup, .. } => {
            cleanup_counts(number, cleanup, request, reply);
        },
        _ => {},
    }
}

/// The numbers in the summary of a push are what its exchanges add up to: files uploaded, files that
/// the drive had already, and files moved to the trash of the drive. Nothing else is counted.
pub proof fn what_a_push_counts(sync: SyncConfigView, replies: Seq<ReplyView>, number: Number)
    ensures
        ending(push_step(), push_started(sync), replies) matches Some(Ok(summary)) ==> in_summary(
            number,
            summary,
        ) == total(
            adds(number),
            requests(push_step(), push_started(sync), replies),
            replies,
        ),
{
    let sound = |run: PushView, request: RequestView| push_in_place(run, request);
    let counted = |run: PushView| in_push(number, run);
    let result = |summary: SummaryView| in_summary(number, summary);
    assert forall|run: PushView, request: RequestView, reply: ReplyView|
        #![trigger sound(run, request), push_step()(run, reply)]
        sound(run, request) implies match push_step()(run, reply) {
        Err(_) => true,
        Ok(Progress::Ask(next, asked)) => sound(next, asked) && counted(next) == counted(run)
            + adds(number)(request, reply),
        Ok(Progress::Done(end)) => result(end) == counted(run) + adds(number)(request, reply),
    } by {
        push_counts(number, run, request, reply);
    }
    counted_by_the_end(
        push_step(),
        sound,
        counted,
        adds(number),
        result,
        push_started(sync),
        replies,
    );
}

spec fn pull_in_place(run: PullView, request: RequestView) -> bool {
    match run.stage {
        PullStageView::Fetching { summary, fetch, .. } => untouched(summary) && fetch_in_place(
            fetch,
            request,
        ),
        PullStageView::Removing { summary, removal } => summary.trashed_local == 0
            && removal_in_place(removal, request),
        _ => quiet(request),
    }
}

spec fn in_pull(number: Number, run: PullView) -> nat {
    match run.stage {
        PullStageView::Fetching { fetch, .. } => in_fetch(number, fetch),
        PullStageView::Removing { summary, removal } => if number is TrashedLocal {
            in_removal(number, removal)
        } else {
            in_summary(number, summary)
        },
        PullStageView::Forgetting { summary } => in_summary(number, summary),
        _ => 0,
    }
}

spec fn pull_counts_on(number: Number, before: nat, outcome: PullOutcome) -> bool {
    match outcome {
        Err(_) => true,
        Ok(Progress::Ask(next, asked)) => pull_in_place(next, asked) && in_pull(number, next)
            == before,
        Ok(Progress::Done(summary)) => in_summary(number, summary) == before,
    }
}

proof fn fetched_pull_counts(
    number: Number,
    sync: SyncConfigView,
    summary: SummaryView,
    gone: Seq<Seq<char>>,
    fetched: FetchedView,
)
    requires
        untouched(summary),
    ensures
        pull_counts_on(
            number,
            so_far(number, fetched),
            PullView::fetched(sync, summary, gone, fetched),
        ),
{
}

proof fn pull_counts(number: Number, run: PullView, request: RequestView, reply: ReplyView)
    requires
        pull_in_place(run, request),
    ensures
        pull_counts_on(
            number,
            in_pull(number, run) + adds(number)(request, reply),
            run.stepped(reply),
        ),
{
    match run.stage {
        PullStageView::Scanning(scan) => {
            scan_asks(scan, reply);
        },
        PullStageView::Listing { inventory, .. } => {
            inventory_asks(inventory, reply);
        },
        PullStageView::Fetching { summary, gone, fetch } => {
            fetch_counts(number, fetch, request, reply);
            if let Ok(Progress::Done(fetched)) = fetch.stepped(reply) {
                fetched_pull_counts(number, run.sync, summary, gone, fetched);
            }
        },
        PullStageView::Removing { removal, .. } => {
            removal_counts(number, removal, request, reply);
        },
        _ => {},
    }
}

/// The numbers in the summary of a pull are what its exchanges add up to: files put in their places,
/// and local files moved to the trash. Nothing else is counted.
pub proof fn what_a_pull_counts(sync: SyncConfigView, replies: Seq<ReplyView>, number: Number)
    ensures
        ending(pull_step(), pull_started(sync), replies) matches Some(Ok(summary)) ==> in_summary(
            number,
            summary,
        ) == total(
            adds(number),
            requests(pull_step(), pull_started(sync), replies),
            replies,
        ),
{
    let sound = |run: PullView, request: RequestView| pull_in_place(run, request);
    let counted = |run: PullView| in_pull(number, run);
    let result = |summary: SummaryView| in_summary(number, summary);
    assert forall|run: PullView, request: RequestView, reply: ReplyView|
        #![trigger sound(run, request), pull_step()(run, reply)]
        sound(run, request) implies match pull_step()(run, reply) {
        Err(_) => true,
        Ok(Progress::Ask(next, asked)) => sound(next, asked) && counted(next) == counted(run)
            + adds(number)(request, reply),
        Ok(Progress::Done(end)) => result(end) == counted(run) + adds(number)(request, reply),
    } by {
        pull_counts(number, run, request, reply);
    }
    counted_by_the_end(
        pull_step(),
        sound,
        counted,
        adds(number),
        result,
        pull_started(sync),
        replies,
    );
}

spec fn two_way_in_place(run: TwoWayRun, request: RequestView) -> bool {
    match run.stage {
        TwoWayStageView::Committing { summary, .. } => quiet(request) && untouched(summary),
        TwoWayStageView::Uploading { summary, uploads, .. } => untouched(summary)
            && uploads_in_place(uploads, request),
        TwoWayStageView::Fetching { summary, fetch, .. } => finished_later(summary)
            && fetch_in_place(fetch, request),
        TwoWayStageView::Trashing { summary, cleanup, .. } => summary.trashed == 0
            && summary.trashed_local == 0 && cleanup_in_place(cleanup, request),
        TwoWayStageView::Removing { summary, removal } => summary.trashed_local == 0
            && removal_in_place(removal, request),
        _ => quiet(request),
    }
}

spec fn in_two_way(number: Number, run: TwoWayRun) -> nat {
    match run.stage {
        TwoWayStageView::Uploading { uploads, .. } => in_tally(number, uploads.tally),
        TwoWayStageView::Fetching { summary, fetch, .. } => if number is Downloaded {
            in_fetch(number, fetch)
        } else {
            in_summary(number, summary)
        },
        TwoWayStageView::Trashing { summary, cleanup, .. } => if number is Trashed {
            in_cleanup(number, cleanup)
        } else {
            in_summary(number, summary)
        },
        TwoWayStageView::Removing { summary, removal } => if number is TrashedLocal {
            in_removal(number, removal)
        } else {
            in_summary(number, summary)
        },
        _ => 0,
    }
}

spec fn two_way_counts_on(number: Number, before: nat, outcome: TwoWayOutcome) -> bool {
    match outcome {
        Err(_) => true,
        Ok(Progress::Ask(next, asked)) => two_way_in_place(next, asked) && in_two_way(number, next)
            == before,
        Ok(Progress::Done(summary)) => in_summary(number, summary) == before,
    }
}

proof fn cleaned_counts(
    number: Number,
    sync: SyncConfigView,
    summary: SummaryView,
    local_trash: Seq<Seq<char>>,
    trashed: Seq<Seq<char>>,
)
    requires
        summary.trashed == 0,
        summary.trashed_local == 0,
    ensures
        two_way_counts_on(
            number,
            if number is Trashed {
                trashed.len()
            } else {
                in_summary(number, summary)
            },
            TwoWayRun::cleaned(sync, summary, local_trash, trashed),
        ),
{
}

proof fn fetched_counts(
    number: Number,
    sync: SyncConfigView,
    summary: SummaryView,
    remote_trash: Seq<TrashItemView>,
    local_trash: Seq<Seq<char>>,
    fetched: FetchedView,
)
    requires
        finished_later(summary),
    ensures
        two_way_counts_on(
            number,
            if number is Downloaded {
                fetched.downloaded.len()
            } else {
                in_summary(number, summary)
            },
            TwoWayRun::fetched(sync, summary, remote_trash, local_trash, fetched),
        ),
{
    let after = SummaryView { downloaded: fetched.downloaded.len(), ..summary };
    if let Ok(Progress::Done(paths)) = cleanup_prepared(sync, remote_trash).begun() {
        cleaned_counts(number, sync, after, local_trash, paths);
    }
}

proof fn uploaded_counts(
    number: Number,
    sync: SyncConfigView,
    summary: SummaryView,
    downloads: Seq<FetchItemView>,
    remote_trash: Seq<TrashItemView>,
    local_trash: Seq<Seq<char>>,
    tally: UploadTallyView,
)
    requires
        untouched(summary),
    ensures
        two_way_counts_on(
            number,
            in_tally(number, tally),
            TwoWayRun::uploaded(sync, summary, downloads, remote_trash, local_trash, tally),
        ),
{
    let after = SummaryView {
        uploaded: tally.uploaded,
        matched_remote: tally.matched_remote,
        ..summary
    };
    if let Ok(Progress::Done(fetched)) = fetch_prepared(sync, downloads).advanced() {
        fetched_counts(number, sync, after, remote_trash, local_trash, fetched);
    }
}

proof fn two_way_counts(number: Number, run: TwoWayRun, request: RequestView, reply: ReplyView)
    requires
        two_way_in_place(run, request),
    ensures
        two_way_counts_on(
            number,
            in_two_way(number, run) + adds(number)(request, reply),
            run.stepped(reply),
        ),
{
    match run.stage {
        TwoWayStageView::Scanning { states, scan } => {
            scan_asks(scan, reply);
            if let Ok(Progress::Done(scanned)) = scan.stepped(reply) {
                hashing_is_quiet(number, run.sync, states, scanned, Map::empty(), 0);
            }
        },
        TwoWayStageView::Hashing { states, scanned, local, at } => {
            if let ReplyView::Digest(sha1) = reply {
                let path = in_order(scanned.files.dom())[at as int];
                hashing_is_quiet(
                    number,
                    run.sync,
                    states,
                    scanned,
                    local.insert(
                        path,
                        LocalSnapshot { file: scanned.files[path], sha1 },
                    ),
                    at + 1,
                );
            }
        },
        TwoWayStageView::Listing { states, scanned, local, inventory } => {
            inventory_asks(inventory, reply);
            if let Ok(Progress::Done(tree)) = inventory.stepped(reply) {
                listed_counts(number, run.sync, states, scanned, local, tree);
            }
        },
        TwoWayStageView::Committing {
            summary,
            pending,
            downloads,
            remote_trash,
            local_trash,
            ..
        } => {
            committed_counts(
                number,
                run.sync,
                summary,
                pending,
                downloads,
                remote_trash,
                local_trash,
            );
        },
        TwoWayStageView::Uploading { summary, downloads, remote_trash, local_trash, uploads } => {
            uploads_count(number, uploads, request, reply);
            if let Ok(Progress::Done(tally)) = uploads.stepped(reply) {
                uploaded_counts(
                    number,
                    run.sync,
                    summary,
                    downloads,
                    remote_trash,
                    local_trash,
                    tally,
                );
            }
        },
        TwoWayStageView::Fetching { summary, remote_trash, local_trash, fetch } => {
            fetch_counts(number, fetch, request, reply);
            if let Ok(Progress::Done(fetched)) = fetch.stepped(reply) {
                fetched_counts(number, run.sync, summary, remote_trash, local_trash, fetched);
            }
        },
        TwoWayStageView::Trashing { summary, local_trash, cleanup } => {
            cleanup_counts(number, cleanup, request, reply);
            if let Ok(Progress::Done(paths)) = cleanup.stepped(reply) {
                cleaned_counts(number, run.sync, summary, local_trash, paths);
            }
        },
        TwoWayStageView::Removing { removal, .. } => {
            removal_counts(number, removal, request, reply);
        },
        _ => {},
    }
}

proof fn committed_counts(
    number: Number,
    sync: SyncConfigView,
    summary: SummaryView,
    pending: Seq<PendingUpload<Seq<char>>>,
    downloads: Seq<FetchItemView>,
    remote_trash: Seq<TrashItemView>,
    local_trash: Seq<Seq<char>>,
)
    requires
        untouched(summary),
    ensures
        two_way_counts_on(
            number,
            0,
            TwoWayRun::committed(sync, summary, pending, downloads, remote_trash, local_trash),
        ),
{
    begun_uploads_count(number, uploads_prepared(sync, pending));
    if let Ok(Progress::Done(tally)) = uploads_prepared(sync, pending).begun() {
        uploaded_counts(number, sync, summary, downloads, remote_trash, local_trash, tally);
    }
}

proof fn listed_counts(
    number: Number,
    sync: SyncConfigView,
    states: Map<Seq<char>, FileState<Seq<char>>>,
    scanned: ScannedView,
    local: Map<Seq<char>, LocalSnapshot<Seq<char>>>,
    tree: RemoteTreeView,
)
    ensures
        two_way_counts_on(
            number,
            0,
            TwoWayRun::listed(sync, states, scanned, local, tree),
        ),
{
    let remote = unexcluded(scanned.patterns, tree.files);
    if let Ok(actions) = two_way_view(sync, local, remote, states).plan() {
        let work = work_for(sync.name, local, remote, actions);
        let summary = scan_summary(
            in_order(local.dom()).len(),
            scanned.symlinks.len(),
        );
        committed_counts(
            number,
            sync,
            SummaryView { unchanged: work.checkpoints.len(), ..summary },
            work.uploads,
            work.downloads,
            work.remote_trash,
            work.local_trash,
        );
    }
}

proof fn hashing_is_quiet(
    number: Number,
    sync: SyncConfigView,
    states: Map<Seq<char>, FileState<Seq<char>>>,
    scanned: ScannedView,
    local: Map<Seq<char>, LocalSnapshot<Seq<char>>>,
    at: nat,
)
    ensures
        two_way_counts_on(number, 0, TwoWayRun::hashing(sync, states, scanned, local, at)),
    decreases in_order(scanned.files.dom()).len() - at,
{
    let paths = in_order(scanned.files.dom());
    if at < paths.len() {
        let path = paths[at as int];
        let file = scanned.files[path];
        if let Some(sha1) = remembered_digest(states, file) {
            hashing_is_quiet(
                number,
                sync,
                states,
                scanned,
                local.insert(path, LocalSnapshot { file, sha1 }),
                at + 1,
            );
        }
    }
}

/// The numbers in the summary of a two-way sync are what its exchanges add up to: files uploaded,
/// files that the drive had already, files put in their places, and files moved to the trash on either
/// side.
pub proof fn what_a_two_way_sync_counts(
    sync: SyncConfigView,
    replies: Seq<ReplyView>,
    number: Number,
)
    ensures
        ending(two_way_step(), two_way_started(sync), replies) matches Some(Ok(summary))
            ==> in_summary(number, summary) == total(
            adds(number),
            requests(two_way_step(), two_way_started(sync), replies),
            replies,
        ),
{
    let sound = |run: TwoWayRun, request: RequestView| two_way_in_place(run, request);
    let counted = |run: TwoWayRun| in_two_way(number, run);
    let result = |summary: SummaryView| in_summary(number, summary);
    assert forall|run: TwoWayRun, request: RequestView, reply: ReplyView|
        #![trigger sound(run, request), two_way_step()(run, reply)]
        sound(run, request) implies match two_way_step()(run, reply) {
        Err(_) => true,
        Ok(Progress::Ask(next, asked)) => sound(next, asked) && counted(next) == counted(run)
            + adds(number)(request, reply),
        Ok(Progress::Done(end)) => result(end) == counted(run) + adds(number)(request, reply),
    } by {
        two_way_counts(number, run, request, reply);
    }
    counted_by_the_end(
        two_way_step(),
        sound,
        counted,
        adds(number),
        result,
        two_way_started(sync),
        replies,
    );
}

} // verus!
