//! Why a sync fails, and how it ends.

use crate::cleanup::{cleanup_prepared, CleanupView, TrashItemView};
use crate::config::{ConflictPolicy, SyncConfigView};
use crate::config_laws::patterns_are_readable;
use crate::directories::{EnsureStage, EnsureView};
use crate::download::{DownloadStage, DownloadView};
use crate::drive::{node_file, UploadFailureView};
use crate::error::Fault;
use crate::exchange::{Progress, ReplyView, RequestView};
use crate::excludes::{excludes_fault, first_bad_pattern, glob_error, managed};
use crate::fetch::{fetch_prepared, FetchItemView, FetchStage, FetchView, FetchedView};
use crate::inventory::{inventory_started, InventoryStage, InventoryView, RemoteTreeView};
use crate::inventory_laws::inventory_step;
use crate::paths::{child_of, drive_path, file_name_of, parent_of};
use crate::places::path_joined;
use crate::plan::{two_way_view, LocalSnapshot, TwoWayView};
use crate::pull::{fetch_items, local_only, pull_started, pulled_paths, PullStageView, PullView};
use crate::pull_laws::{pull_requests, pull_step};
use crate::push::{changed_files, doomed, items_at, push_started, PushBaseView, PushStageView};
use crate::push::PushView;
use crate::push_laws::{push_requests, push_step};
use crate::readiness::Readiness;
use crate::removal::{removal_prepared, RemovalView};
use crate::scan::{by_name, by_name_sorts, file_at, local_path_of, ScanChoice, ScanItemView};
use crate::scan::{ScanStage, ScanView, ScannedView};
use crate::state::{unseen, FileState};
use crate::summary::{scan_summary, SummaryView};
use crate::text::in_order;
use crate::trace::{closes_with, ending, exchanges, fails_for_a_reason, requests};
use crate::two_way::{remembered_digest, two_way_started, unexcluded, work_for, TwoWayRun};
use crate::two_way::TwoWayStageView;
use crate::two_way_laws::{two_way_requests, two_way_step};
use crate::uploads::{uploads_prepared, PendingUpload, UploadTallyView, UploadsStage, UploadsView};
use crate::world::{digests_ignore_case, same_digest};
use vstd::prelude::*;
use vstd::utf8::valid_utf8;

verus! {

/// Whether a reply is of the sort that a request is answered by.
pub open spec fn fits(request: RequestView, reply: ReplyView) -> bool {
    match request {
        RequestView::IsDirectory { .. } => reply is Flag,
        RequestView::IsFile { .. } => reply is Flag,
        RequestView::KnowsDirectory { .. } => reply is Flag,
        RequestView::ListDirectory { .. } => reply is Entries,
        RequestView::Stat { .. } => reply is Stat,
        RequestView::Hash { .. } => reply is Digest,
        RequestView::Stage { .. } => reply is Staged,
        RequestView::LoadStates { .. } => reply is States,
        RequestView::LoadState { .. } => reply is State,
        RequestView::StatePaths { .. } => reply is Paths,
        RequestView::LoadMetadata { .. } => reply is Value,
        RequestView::List { .. } => reply is Nodes,
        RequestView::Info { .. } => reply is Node,
        RequestView::Upload { .. } => reply is Uploaded,
        RequestView::TrashRemote { .. } => reply is Trashed,
        _ => reply is Done,
    }
}

/// Whether a run is answered throughout by replies of the right sort.
pub open spec fn all_fit(asked: Seq<RequestView>, replies: Seq<ReplyView>) -> bool {
    forall|i: int|
        0 <= i < asked.len() && i < replies.len() ==> fits(#[trigger] asked[i], replies[i])
}

/// Something that goes wrong, but does not end a run at once.
pub enum Ill {
    /// A local name that is not valid UTF-8.
    GarbledName,
    /// A file that was not uploaded.
    FailedUpload,
    /// A remote file that was not moved to the trash.
    FailedTrash,
}

/// Whether a reply tells of something that went wrong.
pub open spec fn tells(reply: ReplyView, ill: Ill) -> bool {
    match (ill, reply) {
        (Ill::GarbledName, ReplyView::Entries(entries)) => exists|k: int|
            0 <= k < entries.len() && !valid_utf8((#[trigger] entries[k]).name),
        (Ill::FailedUpload, ReplyView::Uploaded(result)) => result.failures.len() > 0,
        (Ill::FailedTrash, ReplyView::Trashed(result)) => result.failed_uids.len() > 0,
        _ => false,
    }
}

/// Whether something went wrong so far.
pub open spec fn went_wrong(past: Seq<(RequestView, ReplyView)>, ill: Ill) -> bool {
    exists|j: int| 0 <= j < past.len() && tells((#[trigger] past[j]).1, ill)
}

/// Whether a fault is one that the last of the exchanges, or something that went wrong before it,
/// accounts for.
pub open spec fn has_reason(
    sync: SyncConfigView,
    fault: Fault<Seq<char>>,
    past: Seq<(RequestView, ReplyView)>,
) -> bool {
    let (request, reply) = past.last();
    match fault {
        Fault::RootMissing { root } => {
            &&& root == sync.local
            &&& request == RequestView::IsDirectory { path: root }
            &&& reply == ReplyView::Flag(false)
        },
        Fault::MarkerMissing { marker } => {
            &&& sync.ready_marker matches Some(name) && marker == path_joined(sync.local, name)
            &&& request == RequestView::IsFile { path: marker }
            &&& reply == ReplyView::Flag(false)
        },
        Fault::BadPattern { name, .. } => name == sync.name && !patterns_are_readable(sync),
        Fault::BadExcludes { name, .. } => name == sync.name && !patterns_are_readable(sync),
        Fault::LocalNotUtf8 => went_wrong(past, Ill::GarbledName),
        Fault::BeforeEpoch => request is Stat && (reply matches ReplyView::Stat(stat)
            && stat.modified is None),
        Fault::MtimeRange => request is Stat && (reply matches ReplyView::Stat(stat) && (
        stat.modified matches Some((seconds, nanos)) && seconds * 1_000_000_000 + nanos
            > 0x7fff_ffff_ffff_ffff)),
        Fault::NotFolder { remote } => request == (RequestView::Info { path: remote }) && (
        reply matches ReplyView::Node(Some(node)) && node.kind != "folder"@),
        Fault::SizeMismatch { expected, got, .. } => request is Stat && (
        reply matches ReplyView::Stat(stat) && stat.size == got && got != expected),
        Fault::DigestMismatch { .. } => request is Hash && reply is Digest,
        Fault::DownloadNoName => request is Download,
        Fault::UploadsFailed { .. } => went_wrong(past, Ill::FailedUpload),
        Fault::TrashFailed { .. } => went_wrong(past, Ill::FailedTrash),
        Fault::UploadNoName => request matches RequestView::Upload { files, .. } && exists|k: int|
            0 <= k < files.len() && file_name_of(#[trigger] files[k]) is None,
        Fault::Conflict { .. } => sync.conflict == ConflictPolicy::Fail
            && request is ReleaseSession,
        _ => false,
    }
}

proof fn wrongs_stay(
    past: Seq<(RequestView, ReplyView)>,
    exchange: (RequestView, ReplyView),
    ill: Ill,
)
    ensures
        went_wrong(past, ill) || tells(exchange.1, ill) ==> went_wrong(past.push(exchange), ill),
        past.push(exchange).last() == exchange,
{
    let more = past.push(exchange);
    if went_wrong(past, ill) {
        let j = choose|j: int| 0 <= j < past.len() && tells((#[trigger] past[j]).1, ill);
        assert(more[j] == past[j]);
    } else if tells(exchange.1, ill) {
        assert(more[past.len() as int] == exchange);
    }
}

spec fn check_waits(sync: SyncConfigView, run: Readiness<Seq<char>>, request: RequestView) -> bool {
    &&& run.root == sync.local
    &&& run.marker == match sync.ready_marker {
        Some(name) => Some(path_joined(sync.local, name)),
        None => None,
    }
    &&& if run.root_found {
        run.marker is Some && request == (RequestView::IsFile { path: run.marker->0 })
    } else {
        request == (RequestView::IsDirectory { path: sync.local })
    }
}

proof fn check_has_reasons(
    sync: SyncConfigView,
    run: Readiness<Seq<char>>,
    request: RequestView,
    reply: ReplyView,
    past: Seq<(RequestView, ReplyView)>,
)
    requires
        check_waits(sync, run, request),
        fits(request, reply),
    ensures
        match run.stepped(reply) {
            Ok(Progress::Ask(next, asked)) => check_waits(sync, next, asked),
            Ok(Progress::Done(_)) => true,
            Err(fault) => has_reason(sync, fault, past.push((request, reply))),
        },
{
    assert(past.push((request, reply)).last() == (request, reply));
}

proof fn patterns_have_reasons(sync: SyncConfigView, from: int)
    requires
        0 <= from <= sync.exclude.len(),
    ensures
        first_bad_pattern(sync.exclude, from) matches Some(pattern) ==> exists|k: int|
            from <= k < sync.exclude.len() && glob_error(#[trigger] sync.exclude[k]) is Some,
    decreases sync.exclude.len() - from,
{
    if from < sync.exclude.len() {
        patterns_have_reasons(sync, from + 1);
        assert(sync.exclude[from] == sync.exclude[from]);
    }
}

proof fn excludes_have_reasons(sync: SyncConfigView, past: Seq<(RequestView, ReplyView)>)
    ensures
        excludes_fault(sync.name, sync.exclude) matches Some(fault) ==> has_reason(
            sync,
            fault,
            past,
        ),
{
    patterns_have_reasons(sync, 0);
}

spec fn scan_waits(
    run: ScanView,
    request: RequestView,
    past: Seq<(RequestView, ReplyView)>,
) -> bool {
    &&& match run.stage {
        ScanStage::Listing { .. } => request is ListDirectory,
        ScanStage::Reading { .. } => request is Stat,
    }
    &&& garbled_for_a_reason(run.todo, past)
}

spec fn garbled_for_a_reason(
    todo: Seq<ScanItemView>,
    past: Seq<(RequestView, ReplyView)>,
) -> bool {
    forall|k: int|
        0 <= k < todo.len() && !valid_utf8((#[trigger] todo[k]).entry.name) ==> went_wrong(
            past,
            Ill::GarbledName,
        )
}

proof fn scan_advances_for_a_reason(
    sync: SyncConfigView,
    run: ScanView,
    past: Seq<(RequestView, ReplyView)>,
)
    requires
        garbled_for_a_reason(run.todo, past),
    ensures
        match run.advanced() {
            Ok(Progress::Ask(next, asked)) => scan_waits(next, asked, past),
            Ok(Progress::Done(_)) => true,
            Err(fault) => has_reason(sync, fault, past),
        },
    decreases run.todo.len(),
{
    if run.todo.len() > 0 {
        let item = run.todo.last();
        let path = run.path_of(item);
        let rest = ScanView { todo: run.todo.drop_last(), ..run };
        assert(run.todo[run.todo.len() - 1] == item);
        assert forall|k: int|
            0 <= k < rest.todo.len() && !valid_utf8((#[trigger] rest.todo[k]).entry.name) implies
            went_wrong(past, Ill::GarbledName) by {
            assert(run.todo[k] == rest.todo[k]);
        }
        match run.choice(item) {
            ScanChoice::Skip => scan_advances_for_a_reason(sync, rest, past),
            ScanChoice::Count => scan_advances_for_a_reason(
                sync,
                ScanView { symlinks: run.symlinks.push(path), ..rest },
                past,
            ),
            _ => {},
        }
    }
}

proof fn scan_has_reasons(
    sync: SyncConfigView,
    run: ScanView,
    request: RequestView,
    reply: ReplyView,
    past: Seq<(RequestView, ReplyView)>,
)
    requires
        scan_waits(run, request, past),
        fits(request, reply),
    ensures
        match run.stepped(reply) {
            Ok(Progress::Ask(next, asked)) => scan_waits(next, asked, past.push((request, reply))),
            Ok(Progress::Done(_)) => true,
            Err(fault) => has_reason(sync, fault, past.push((request, reply))),
        },
{
    let more = past.push((request, reply));
    wrongs_stay(past, (request, reply), Ill::GarbledName);
    match (run.stage, reply) {
        (ScanStage::Listing { directory }, ReplyView::Entries(entries)) => {
            let next = run.with_listing(directory, entries);
            let sorted = by_name(entries);
            assert forall|k: int|
                0 <= k < next.todo.len() && !valid_utf8((#[trigger] next.todo[k]).entry.name)
                    implies went_wrong(more, Ill::GarbledName) by {
                if k < run.todo.len() {
                    assert(next.todo[k] == run.todo[k]);
                } else {
                    let place = sorted.len() - 1 - (k - run.todo.len());
                    let entry = sorted[place];
                    assert(next.todo[k].entry == entry);
                    by_name_sorts(entries);
                    broadcast use vstd::seq_lib::group_to_multiset_ensures;

                    assert(sorted.to_multiset().contains(entry));
                    assert(entries.contains(entry));
                }
            }
            scan_advances_for_a_reason(sync, next, more);
        },
        (ScanStage::Reading { path }, ReplyView::Stat(stat)) => {
            if let Ok(file) = file_at(path, stat) {
                scan_advances_for_a_reason(
                    sync,
                    ScanView { files: run.files.insert(path, file), ..run },
                    more,
                );
            }
        },
        _ => {},
    }
}

spec fn inventory_waits(run: InventoryView, request: RequestView) -> bool {
    match run.stage {
        InventoryStage::Listing { .. } => request is List,
        InventoryStage::Recording => request is ReplaceDirectories,
        InventoryStage::Releasing => request is ReleaseSession,
    }
}

proof fn inventory_advances_well(run: InventoryView)
    ensures
        run.advanced() matches Ok(Progress::Ask(next, asked)) && inventory_waits(next, asked),
    decreases run.todo.len(),
{
    if run.todo.len() > 0 {
        let node = run.todo.last().node;
        let path = child_of(run.todo.last().directory, node.name->0);
        let rest = InventoryView {
            todo: run.todo.drop_last(),
            visited: run.visited.insert(node.uid),
            ..run
        };
        inventory_advances_well(rest);
        if let Some(file) = node_file(Some(node)) {
            inventory_advances_well(
                InventoryView {
                    tree: RemoteTreeView {
                        files: run.tree.files.insert(path, file),
                        ..run.tree
                    },
                    ..rest
                },
            );
        }
    }
}

proof fn inventory_never_fails(run: InventoryView, request: RequestView, reply: ReplyView)
    requires
        inventory_waits(run, request),
        fits(request, reply),
    ensures
        match run.stepped(reply) {
            Ok(Progress::Ask(next, asked)) => inventory_waits(next, asked),
            Ok(Progress::Done(_)) => request is ReleaseSession,
            Err(_) => false,
        },
{
    if let (InventoryStage::Listing { directory }, ReplyView::Nodes(nodes)) = (run.stage, reply) {
        inventory_advances_well(run.with_listing(directory, nodes));
    }
}

spec fn ensure_waits(run: EnsureView, request: RequestView) -> bool {
    &&& run.pending.len() > 0
    &&& match run.stage {
        EnsureStage::Climbing => request is KnowsDirectory,
        EnsureStage::Looking => request == (RequestView::Info {
            path: drive_path(run.remote, run.pending.last()),
        }),
        EnsureStage::Creating => request is CreateFolder,
        EnsureStage::Saving => request is SaveDirectory,
    }
}

proof fn ensure_climbs_well(run: EnsureView, path: Seq<char>)
    ensures
        run.climbed(path) matches Progress::Ask(next, asked) ==> ensure_waits(next, asked),
        run.descended() matches Progress::Ask(next, asked) ==> ensure_waits(next, asked),
{
}

proof fn ensure_has_reasons(
    sync: SyncConfigView,
    run: EnsureView,
    request: RequestView,
    reply: ReplyView,
    past: Seq<(RequestView, ReplyView)>,
)
    requires
        ensure_waits(run, request),
        fits(request, reply),
    ensures
        match run.stepped(reply) {
            Ok(Progress::Ask(next, asked)) => ensure_waits(next, asked),
            Ok(Progress::Done(_)) => true,
            Err(fault) => has_reason(sync, fault, past.push((request, reply))),
        },
{
    assert(past.push((request, reply)).last() == (request, reply));
    ensure_climbs_well(run, parent_of(run.pending.last()));
    ensure_climbs_well(run.settled(), Seq::empty());
}

spec fn uploads_wait(
    run: UploadsView,
    request: RequestView,
    past: Seq<(RequestView, ReplyView)>,
) -> bool {
    &&& run.at < run.jobs.len()
    &&& run.failures.len() > 0 ==> went_wrong(past, Ill::FailedUpload)
    &&& match run.stage {
        UploadsStage::Ensuring(ensure) => ensure_waits(ensure, request),
        UploadsStage::Sending => request matches RequestView::Upload { files, .. } && files
            == run.sources(run.jobs[run.at as int].uploads),
        UploadsStage::Committing => request is Commit,
    }
}

proof fn uploads_begin_for_a_reason(
    sync: SyncConfigView,
    run: UploadsView,
    past: Seq<(RequestView, ReplyView)>,
)
    requires
        run.failures.len() > 0 ==> went_wrong(past, Ill::FailedUpload),
    ensures
        match run.begun() {
            Ok(Progress::Ask(next, asked)) => uploads_wait(next, asked, past),
            Ok(Progress::Done(_)) => true,
            Err(fault) => has_reason(sync, fault, past),
        },
{
    if run.at < run.jobs.len() {
        let parent = run.jobs[run.at as int].parent;
        ensure_climbs_well(
            EnsureView {
                mirror: run.mirror,
                remote: run.remote,
                stage: EnsureStage::Climbing,
                pending: Seq::empty(),
            },
            parent,
        );
    }
}

proof fn kept_has_reasons(
    run: UploadsView,
    uploads: Seq<PendingUpload<Seq<char>>>,
    failures: Seq<UploadFailureView>,
)
    ensures
        run.kept(uploads, failures) matches Err(fault) ==> fault is UploadNoName && exists|k: int|
            0 <= k < uploads.len() && file_name_of(#[trigger] run.sources(uploads)[k]) is None,
    decreases uploads.len(),
{
    if uploads.len() > 0 {
        let rest = uploads.drop_last();
        kept_has_reasons(run, rest, failures);
        let all = run.sources(uploads);
        assert(all[uploads.len() - 1] == local_path_of(run.root, uploads.last().file.relative));
        if run.kept(rest, failures) is Err {
            let k = choose|k: int|
                0 <= k < rest.len() && file_name_of(#[trigger] run.sources(rest)[k]) is None;
            assert(all[k] == run.sources(rest)[k]);
        }
    }
}

proof fn uploads_have_reasons(
    sync: SyncConfigView,
    run: UploadsView,
    request: RequestView,
    reply: ReplyView,
    past: Seq<(RequestView, ReplyView)>,
)
    requires
        uploads_wait(run, request, past),
        fits(request, reply),
    ensures
        match run.stepped(reply) {
            Ok(Progress::Ask(next, asked)) => uploads_wait(next, asked, past.push((request, reply))),
            Ok(Progress::Done(_)) => true,
            Err(fault) => has_reason(sync, fault, past.push((request, reply))),
        },
{
    let more = past.push((request, reply));
    wrongs_stay(past, (request, reply), Ill::FailedUpload);
    match run.stage {
        UploadsStage::Ensuring(ensure) => ensure_has_reasons(sync, ensure, request, reply, past),
        UploadsStage::Sending => {
            let uploads = run.jobs[run.at as int].uploads;
            if let ReplyView::Uploaded(result) = reply {
                kept_has_reasons(run, uploads, result.failures);
                uploads_begin_for_a_reason(
                    sync,
                    UploadsView { at: run.at + 1, ..run.tallied(result) },
                    more,
                );
            }
        },
        UploadsStage::Committing => {
            uploads_begin_for_a_reason(sync, UploadsView { at: run.at + 1, ..run }, more);
        },
    }
}

spec fn cleanup_waits(
    run: CleanupView,
    request: RequestView,
    past: Seq<(RequestView, ReplyView)>,
) -> bool {
    &&& run.at < run.batches.len()
    &&& run.failed.len() > 0 ==> went_wrong(past, Ill::FailedTrash)
    &&& if run.forgetting {
        request is DeleteStates
    } else {
        request is TrashRemote
    }
}

proof fn cleanup_begins_for_a_reason(
    sync: SyncConfigView,
    run: CleanupView,
    past: Seq<(RequestView, ReplyView)>,
)
    requires
        run.failed.len() > 0 ==> went_wrong(past, Ill::FailedTrash),
    ensures
        match run.begun() {
            Ok(Progress::Ask(next, asked)) => cleanup_waits(next, asked, past),
            Ok(Progress::Done(_)) => true,
            Err(fault) => has_reason(sync, fault, past),
        },
{
}

proof fn cleanup_has_reasons(
    sync: SyncConfigView,
    run: CleanupView,
    request: RequestView,
    reply: ReplyView,
    past: Seq<(RequestView, ReplyView)>,
)
    requires
        cleanup_waits(run, request, past),
        fits(request, reply),
    ensures
        match run.stepped(reply) {
            Ok(Progress::Ask(next, asked)) => cleanup_waits(
                next,
                asked,
                past.push((request, reply)),
            ),
            Ok(Progress::Done(_)) => true,
            Err(fault) => has_reason(sync, fault, past.push((request, reply))),
        },
{
    let more = past.push((request, reply));
    wrongs_stay(past, (request, reply), Ill::FailedTrash);
    cleanup_begins_for_a_reason(sync, CleanupView { at: run.at + 1, ..run }, more);
    if let ReplyView::Trashed(result) = reply {
        cleanup_begins_for_a_reason(
            sync,
            CleanupView { at: run.at + 1, ..run.tallied(result) },
            more,
        );
    }
}

spec fn removal_waits(run: RemovalView, request: RequestView) -> bool {
    &&& run.at < run.paths.len()
    &&& request is TrashLocal || request is DeleteStates
}

proof fn removal_never_fails(run: RemovalView, request: RequestView, reply: ReplyView)
    ensures
        run.begun() matches Progress::Ask(next, asked) ==> removal_waits(next, asked),
        removal_waits(run, request) && fits(request, reply) ==> match run.stepped(reply) {
            Ok(Progress::Ask(next, asked)) => removal_waits(next, asked),
            Ok(Progress::Done(_)) => true,
            Err(_) => false,
        },
{
}

spec fn download_waits(run: DownloadView, request: RequestView) -> bool {
    match run.stage {
        DownloadStage::Staging => request is Stage,
        DownloadStage::Fetching { .. } => request is Download,
        DownloadStage::Measuring { .. } => request is Stat,
        DownloadStage::Hashing { .. } => request is Hash,
        DownloadStage::Installing => request is Install,
        DownloadStage::Reading => request is Stat,
    }
}

proof fn download_has_reasons(
    sync: SyncConfigView,
    run: DownloadView,
    request: RequestView,
    reply: ReplyView,
    past: Seq<(RequestView, ReplyView)>,
)
    requires
        download_waits(run, request),
        fits(request, reply),
    ensures
        match run.stepped(reply) {
            Ok(Progress::Ask(next, asked)) => download_waits(next, asked),
            Ok(Progress::Done(_)) => true,
            Err(fault) => has_reason(sync, fault, past.push((request, reply))),
        },
{
    assert(past.push((request, reply)).last() == (request, reply));
}

spec fn fetch_waits(run: FetchView, request: RequestView) -> bool {
    match run.stage {
        FetchStage::Loading => run.at < run.items.len() && run.items[run.at as int].local is Some
            && request is LoadState,
        FetchStage::Hashing => run.at < run.items.len() && run.items[run.at as int].local is Some
            && request is Hash,
        FetchStage::Downloading(download) => run.at < run.items.len() && download_waits(
            download,
            request,
        ),
        FetchStage::Committing => request is Commit,
        FetchStage::Flushing => run.at >= run.items.len() && request is Commit,
    }
}

proof fn fetch_advances_well(run: FetchView, size: u64, mtime_ns: i64)
    ensures
        match run.advanced() {
            Ok(Progress::Ask(next, asked)) => fetch_waits(next, asked),
            Ok(Progress::Done(_)) => true,
            Err(_) => false,
        },
        match run.recorded(size, mtime_ns) {
            Ok(Progress::Ask(next, asked)) => fetch_waits(next, asked),
            Ok(Progress::Done(_)) => true,
            Err(_) => false,
        },
        run.at < run.items.len() ==> (run.downloading() matches Ok(Progress::Ask(next, asked))
            && fetch_waits(next, asked)),
{
}

proof fn fetch_has_reasons(
    sync: SyncConfigView,
    run: FetchView,
    request: RequestView,
    reply: ReplyView,
    past: Seq<(RequestView, ReplyView)>,
)
    requires
        fetch_waits(run, request),
        fits(request, reply),
    ensures
        match run.stepped(reply) {
            Ok(Progress::Ask(next, asked)) => fetch_waits(next, asked),
            Ok(Progress::Done(_)) => true,
            Err(fault) => has_reason(sync, fault, past.push((request, reply))),
        },
{
    fetch_advances_well(run, 0, 0);
    if run.at < run.items.len() {
        let item = run.items[run.at as int];
        if let Some(local) = item.local {
            let next = FetchView {
                fetched: FetchedView {
                    unchanged: run.fetched.unchanged.push(item.path),
                    ..run.fetched
                },
                ..run
            };
            fetch_advances_well(next, local.size, local.mtime_ns);
        }
        if let FetchStage::Downloading(download) = run.stage {
            download_has_reasons(sync, download, request, reply, past);
            if let Ok(Progress::Done(local)) = download.stepped(reply) {
                let next = FetchView {
                    fetched: FetchedView {
                        downloaded: run.fetched.downloaded.push(item.path),
                        ..run.fetched
                    },
                    ..run
                };
                fetch_advances_well(next, local.size, local.mtime_ns);
            }
        }
    }
}

/// When a download fails: when what came has another size than the drive claims, or another digest,
/// or when the file has no name or no time that can be held.
pub proof fn when_a_download_fails(run: DownloadView, request: RequestView, reply: ReplyView)
    requires
        match run.stage {
            DownloadStage::Staging => request is Stage,
            DownloadStage::Fetching { .. } => request is Download,
            DownloadStage::Measuring { .. } => request is Stat,
            DownloadStage::Hashing { .. } => request is Hash,
            DownloadStage::Installing => request is Install,
            DownloadStage::Reading => request is Stat,
        },
        fits(request, reply),
    ensures
        run.stepped(reply) is Err <==> match (run.stage, reply) {
            (DownloadStage::Fetching { .. }, _) => file_name_of(run.target) is None,
            (DownloadStage::Measuring { .. }, ReplyView::Stat(stat)) => stat.size
                != run.file.claimed_size,
            (DownloadStage::Hashing { .. }, ReplyView::Digest(digest)) => !same_digest(
                digest,
                run.file.sha1,
            ),
            (DownloadStage::Reading, ReplyView::Stat(stat)) => match stat.modified {
                Some((seconds, nanos)) => seconds * 1_000_000_000 + nanos > 0x7fff_ffff_ffff_ffff,
                None => true,
            },
            _ => false,
        },
{
    if let ReplyView::Digest(digest) = reply {
        digests_ignore_case(digest, run.file.sha1);
    }
}

spec fn push_waits(
    sync: SyncConfigView,
    run: PushView,
    request: RequestView,
    past: Seq<(RequestView, ReplyView)>,
) -> bool {
    &&& run.sync == sync
    &&& match run.stage {
        PushStageView::Checking(check) => check_waits(sync, check, request),
        PushStageView::Scanning(scan) => scan_waits(scan, request, past),
        PushStageView::LoadingStates { .. } => request is LoadStates,
        PushStageView::LoadingBaseline { .. } => request is LoadMetadata,
        PushStageView::Comparing { inventory, .. } => inventory_waits(inventory, request),
        PushStageView::Uploading { uploads, .. } => uploads_wait(uploads, request, past),
        PushStageView::ListingStale { .. } => request is StatePaths,
        PushStageView::Locating { inventory, .. } => inventory_waits(inventory, request),
        PushStageView::Forgetting { .. } => request is DeleteStates,
        PushStageView::Trashing { cleanup, .. } => cleanup_waits(cleanup, request, past),
        PushStageView::Finishing { .. } => request == (RequestView::SaveMetadata {
            key: "baseline:"@ + sync.name,
            value: "1"@,
        }),
    }
}

spec fn push_goes_on(
    sync: SyncConfigView,
    outcome: Result<Progress<PushView, RequestView, SummaryView>, Fault<Seq<char>>>,
    past: Seq<(RequestView, ReplyView)>,
) -> bool {
    match outcome {
        Ok(Progress::Ask(next, asked)) => push_waits(sync, next, asked, past),
        Ok(Progress::Done(_)) => true,
        Err(fault) => has_reason(sync, fault, past),
    }
}

proof fn push_trashes_on(
    sync: SyncConfigView,
    summary: SummaryView,
    paths: Seq<Seq<char>>,
    items: Seq<TrashItemView>,
    past: Seq<(RequestView, ReplyView)>,
)
    ensures
        push_goes_on(sync, PushView::trashed(sync, summary, items), past),
        push_goes_on(sync, PushView::forgotten(sync, summary, paths, items), past),
{
    cleanup_begins_for_a_reason(sync, cleanup_prepared(sync, items), past);
}

proof fn push_uploads_on(
    sync: SyncConfigView,
    scanned: ScannedView,
    states: Map<Seq<char>, FileState<Seq<char>>>,
    baseline: bool,
    tree: Option<RemoteTreeView>,
    past: Seq<(RequestView, ReplyView)>,
)
    ensures
        push_goes_on(sync, PushView::reconciled(sync, scanned, states, baseline, tree), past),
{
    uploads_begin_for_a_reason(
        sync,
        uploads_prepared(sync, changed_files(scanned.files, states)),
        past,
    );
}

proof fn push_has_reasons(
    sync: SyncConfigView,
    run: PushView,
    request: RequestView,
    reply: ReplyView,
    past: Seq<(RequestView, ReplyView)>,
)
    requires
        push_waits(sync, run, request, past),
        fits(request, reply),
    ensures
        push_goes_on(sync, run.stepped(reply), past.push((request, reply))),
{
    let more = past.push((request, reply));
    match run.stage {
        PushStageView::Checking(check) => {
            check_has_reasons(sync, check, request, reply, past);
            excludes_have_reasons(sync, more);
        },
        PushStageView::Scanning(scan) => scan_has_reasons(sync, scan, request, reply, past),
        PushStageView::LoadingBaseline { scanned, states } => {
            push_uploads_on(sync, scanned, states, reply->Value_0 == Some("1"@), None, more);
        },
        PushStageView::Comparing { scanned, states, inventory } => {
            inventory_never_fails(inventory, request, reply);
            if let Ok(Progress::Done(tree)) = inventory.stepped(reply) {
                push_uploads_on(sync, scanned, states, false, Some(tree), more);
            }
        },
        PushStageView::Uploading { base, uploads } => {
            uploads_have_reasons(sync, uploads, request, reply, past);
        },
        PushStageView::ListingStale { base } => {
            let stale = unseen(reply->Paths_0, base.scanned.files.dom());
            push_trashes_on(
                sync,
                base.summary,
                managed(base.scanned.patterns, stale, Set::empty()),
                Seq::empty(),
                more,
            );
            if let Some(tree) = base.tree {
                push_locates_on(sync, base, stale, tree, more);
            }
        },
        PushStageView::Locating { base, stale, inventory } => {
            inventory_never_fails(inventory, request, reply);
            if let Ok(Progress::Done(tree)) = inventory.stepped(reply) {
                push_locates_on(sync, base, stale, tree, more);
            }
        },
        PushStageView::Forgetting { summary, items } => {
            push_trashes_on(sync, summary, Seq::empty(), items, more);
        },
        PushStageView::Trashing { summary, cleanup } => {
            cleanup_has_reasons(sync, cleanup, request, reply, past);
        },
        _ => {},
    }
}

proof fn push_locates_on(
    sync: SyncConfigView,
    base: PushBaseView,
    stale: Seq<Seq<char>>,
    tree: RemoteTreeView,
    past: Seq<(RequestView, ReplyView)>,
)
    ensures
        push_goes_on(sync, PushView::located(sync, base, stale, tree), past),
{
    push_trashes_on(
        sync,
        base.summary,
        managed(base.scanned.patterns, stale, tree.files.dom()),
        items_at(
            tree,
            doomed(base.scanned.patterns, base.scanned.files.dom(), base.baseline, stale, tree),
        ),
        past,
    );
}

/// A push that is answered by replies of the right sort fails only for a reason: the local folder or
/// its marker is missing, a pattern cannot be read, a local name is garbled or a time out of range, a
/// folder on the drive is none, or the drive refused an upload or the trash.
pub proof fn a_push_fails_for_a_reason(sync: SyncConfigView, replies: Seq<ReplyView>)
    requires
        all_fit(push_requests(sync, replies), replies),
    ensures
        ending(push_step(), push_started(sync), replies) matches Some(Err(fault)) ==> ({
            let asked = push_requests(sync, replies);
            has_reason(sync, fault, exchanges(asked, replies, asked.len()))
        }),
{
    let none: Seq<(RequestView, ReplyView)> = Seq::empty();
    let sound = |run: PushView, request: RequestView, past: Seq<(RequestView, ReplyView)>|
        push_waits(sync, run, request, past);
    let fitting = |request: RequestView, reply: ReplyView| fits(request, reply);
    let reason = |fault: Fault<Seq<char>>, past: Seq<(RequestView, ReplyView)>|
        has_reason(sync, fault, past);
    assert forall|
        run: PushView,
        request: RequestView,
        past: Seq<(RequestView, ReplyView)>,
        reply: ReplyView,
    |
        #![trigger sound(run, request, past), push_step()(run, reply)]
        sound(run, request, past) && fitting(request, reply) implies match push_step()(run, reply) {
        Ok(Progress::Ask(next, asked)) => sound(next, asked, past.push((request, reply))),
        Ok(Progress::Done(_)) => true,
        Err(fault) => reason(fault, past.push((request, reply))),
    } by {
        push_has_reasons(sync, run, request, reply, past);
    }
    let asked = requests(push_step(), push_started(sync), replies);
    assert(asked == push_requests(sync, replies));
    fails_for_a_reason(push_step(), sound, fitting, reason, push_started(sync), replies, none);
    assert(none + exchanges(asked, replies, asked.len()) =~= exchanges(
        asked,
        replies,
        asked.len(),
    ));
}

spec fn pull_waits(
    sync: SyncConfigView,
    run: PullView,
    request: RequestView,
    past: Seq<(RequestView, ReplyView)>,
) -> bool {
    &&& run.sync == sync
    &&& match run.stage {
        PullStageView::Checking(check) => check_waits(sync, check, request),
        PullStageView::Scanning(scan) => scan_waits(scan, request, past),
        PullStageView::Listing { inventory, .. } => inventory_waits(inventory, request),
        PullStageView::Fetching { fetch, .. } => fetch_waits(fetch, request),
        PullStageView::Removing { removal, .. } => removal_waits(removal, request),
        PullStageView::Forgetting { .. } => request is DeleteStates,
    }
}

spec fn pull_goes_on(
    sync: SyncConfigView,
    outcome: Result<Progress<PullView, RequestView, SummaryView>, Fault<Seq<char>>>,
    past: Seq<(RequestView, ReplyView)>,
) -> bool {
    match outcome {
        Ok(Progress::Ask(next, asked)) => pull_waits(sync, next, asked, past),
        Ok(Progress::Done(_)) => true,
        Err(fault) => has_reason(sync, fault, past),
    }
}

proof fn pull_removes_on(
    sync: SyncConfigView,
    summary: SummaryView,
    gone: Seq<Seq<char>>,
    fetched: FetchedView,
    past: Seq<(RequestView, ReplyView)>,
)
    ensures
        pull_goes_on(sync, PullView::fetched(sync, summary, gone, fetched), past),
{
    removal_never_fails(removal_prepared(sync, gone), RequestView::ReleaseSession, ReplyView::Done);
}

proof fn pull_has_reasons(
    sync: SyncConfigView,
    run: PullView,
    request: RequestView,
    reply: ReplyView,
    past: Seq<(RequestView, ReplyView)>,
)
    requires
        pull_waits(sync, run, request, past),
        fits(request, reply),
    ensures
        pull_goes_on(sync, run.stepped(reply), past.push((request, reply))),
{
    let more = past.push((request, reply));
    match run.stage {
        PullStageView::Checking(check) => {
            check_has_reasons(sync, check, request, reply, past);
            excludes_have_reasons(sync, more);
        },
        PullStageView::Scanning(scan) => scan_has_reasons(sync, scan, request, reply, past),
        PullStageView::Listing { scanned, inventory } => {
            inventory_never_fails(inventory, request, reply);
            if let Ok(Progress::Done(tree)) = inventory.stepped(reply) {
                let paths = pulled_paths(scanned.patterns, tree);
                let fetch = fetch_prepared(sync, fetch_items(paths, tree, scanned.files));
                fetch_advances_well(fetch, 0, 0);
                if let Ok(Progress::Done(fetched)) = fetch.advanced() {
                    pull_removes_on(
                        sync,
                        scan_summary(
                            in_order(scanned.files.dom()).len(),
                            scanned.symlinks.len(),
                        ),
                        local_only(scanned.files, paths),
                        fetched,
                        more,
                    );
                }
            }
        },
        PullStageView::Fetching { summary, gone, fetch } => {
            fetch_has_reasons(sync, fetch, request, reply, past);
            if let Ok(Progress::Done(fetched)) = fetch.stepped(reply) {
                pull_removes_on(sync, summary, gone, fetched, more);
            }
        },
        PullStageView::Removing { summary, removal } => {
            removal_never_fails(removal, request, reply);
        },
        PullStageView::Forgetting { .. } => {},
    }
}

/// A pull that is answered by replies of the right sort fails only for a reason: the local folder or
/// its marker is missing, a pattern cannot be read, a local name is garbled or a time out of range,
/// or what was downloaded is not what the drive claims.
pub proof fn a_pull_fails_for_a_reason(sync: SyncConfigView, replies: Seq<ReplyView>)
    requires
        all_fit(pull_requests(sync, replies), replies),
    ensures
        ending(pull_step(), pull_started(sync), replies) matches Some(Err(fault)) ==> ({
            let asked = pull_requests(sync, replies);
            has_reason(sync, fault, exchanges(asked, replies, asked.len()))
        }),
{
    let none: Seq<(RequestView, ReplyView)> = Seq::empty();
    let sound = |run: PullView, request: RequestView, past: Seq<(RequestView, ReplyView)>|
        pull_waits(sync, run, request, past);
    let fitting = |request: RequestView, reply: ReplyView| fits(request, reply);
    let reason = |fault: Fault<Seq<char>>, past: Seq<(RequestView, ReplyView)>|
        has_reason(sync, fault, past);
    assert forall|
        run: PullView,
        request: RequestView,
        past: Seq<(RequestView, ReplyView)>,
        reply: ReplyView,
    |
        #![trigger sound(run, request, past), pull_step()(run, reply)]
        sound(run, request, past) && fitting(request, reply) implies match pull_step()(run, reply) {
        Ok(Progress::Ask(next, asked)) => sound(next, asked, past.push((request, reply))),
        Ok(Progress::Done(_)) => true,
        Err(fault) => reason(fault, past.push((request, reply))),
    } by {
        pull_has_reasons(sync, run, request, reply, past);
    }
    let asked = requests(pull_step(), pull_started(sync), replies);
    assert(asked == pull_requests(sync, replies));
    fails_for_a_reason(pull_step(), sound, fitting, reason, pull_started(sync), replies, none);
    assert(none + exchanges(asked, replies, asked.len()) =~= exchanges(
        asked,
        replies,
        asked.len(),
    ));
}

spec fn two_way_waits(
    sync: SyncConfigView,
    run: TwoWayRun,
    request: RequestView,
    past: Seq<(RequestView, ReplyView)>,
) -> bool {
    &&& run.sync == sync
    &&& match run.stage {
        TwoWayStageView::Checking(check) => check_waits(sync, check, request),
        TwoWayStageView::LoadingStates => request is LoadStates,
        TwoWayStageView::Scanning { scan, .. } => scan_waits(scan, request, past),
        TwoWayStageView::Hashing { scanned, at, .. } => request is Hash && at < in_order(
            scanned.files.dom(),
        ).len(),
        TwoWayStageView::Listing { inventory, .. } => inventory_waits(inventory, request),
        TwoWayStageView::Committing { .. } => request is Commit,
        TwoWayStageView::Uploading { uploads, .. } => uploads_wait(uploads, request, past),
        TwoWayStageView::Fetching { fetch, .. } => fetch_waits(fetch, request),
        TwoWayStageView::Trashing { cleanup, .. } => cleanup_waits(cleanup, request, past),
        TwoWayStageView::Removing { removal, .. } => removal_waits(removal, request),
    }
}

spec fn two_way_goes_on(
    sync: SyncConfigView,
    outcome: Result<Progress<TwoWayRun, RequestView, SummaryView>, Fault<Seq<char>>>,
    past: Seq<(RequestView, ReplyView)>,
) -> bool {
    match outcome {
        Ok(Progress::Ask(next, asked)) => two_way_waits(sync, next, asked, past),
        Ok(Progress::Done(_)) => true,
        Err(fault) => has_reason(sync, fault, past),
    }
}

proof fn plan_has_reasons(view: TwoWayView, paths: Seq<Seq<char>>, count: nat)
    ensures
        view.actions_for(paths, count) matches Err(fault) ==> fault is Conflict && view.conflict
            == ConflictPolicy::Fail,
    decreases count,
{
    if count > 0 {
        plan_has_reasons(view, paths, (count - 1) as nat);
    }
}

proof fn two_way_hashes_on(
    sync: SyncConfigView,
    states: Map<Seq<char>, FileState<Seq<char>>>,
    scanned: ScannedView,
    local: Map<Seq<char>, LocalSnapshot<Seq<char>>>,
    at: nat,
    past: Seq<(RequestView, ReplyView)>,
)
    ensures
        two_way_goes_on(sync, TwoWayRun::hashing(sync, states, scanned, local, at), past),
    decreases in_order(scanned.files.dom()).len() - at,
{
    let paths = in_order(scanned.files.dom());
    if at < paths.len() {
        let file = scanned.files[paths[at as int]];
        if let Some(sha1) = remembered_digest(states, file) {
            two_way_hashes_on(
                sync,
                states,
                scanned,
                local.insert(paths[at as int], LocalSnapshot { file, sha1 }),
                at + 1,
                past,
            );
        }
    }
}

proof fn two_way_cleans_on(
    sync: SyncConfigView,
    summary: SummaryView,
    local_trash: Seq<Seq<char>>,
    trashed: Seq<Seq<char>>,
    past: Seq<(RequestView, ReplyView)>,
)
    ensures
        two_way_goes_on(sync, TwoWayRun::cleaned(sync, summary, local_trash, trashed), past),
{
    removal_never_fails(
        removal_prepared(sync, local_trash),
        RequestView::ReleaseSession,
        ReplyView::Done,
    );
}

proof fn two_way_trashes_on(
    sync: SyncConfigView,
    summary: SummaryView,
    remote_trash: Seq<TrashItemView>,
    local_trash: Seq<Seq<char>>,
    fetched: FetchedView,
    past: Seq<(RequestView, ReplyView)>,
)
    ensures
        two_way_goes_on(
            sync,
            TwoWayRun::fetched(sync, summary, remote_trash, local_trash, fetched),
            past,
        ),
{
    let cleanup = cleanup_prepared(sync, remote_trash);
    cleanup_begins_for_a_reason(sync, cleanup, past);
    if let Ok(Progress::Done(paths)) = cleanup.begun() {
        two_way_cleans_on(
            sync,
            SummaryView { downloaded: fetched.downloaded.len(), ..summary },
            local_trash,
            paths,
            past,
        );
    }
}

proof fn two_way_fetches_on(
    sync: SyncConfigView,
    summary: SummaryView,
    downloads: Seq<FetchItemView>,
    remote_trash: Seq<TrashItemView>,
    local_trash: Seq<Seq<char>>,
    tally: UploadTallyView,
    past: Seq<(RequestView, ReplyView)>,
)
    ensures
        two_way_goes_on(
            sync,
            TwoWayRun::uploaded(sync, summary, downloads, remote_trash, local_trash, tally),
            past,
        ),
{
    let fetch = fetch_prepared(sync, downloads);
    fetch_advances_well(fetch, 0, 0);
    if let Ok(Progress::Done(fetched)) = fetch.advanced() {
        two_way_trashes_on(
            sync,
            SummaryView {
                uploaded: tally.uploaded,
                matched_remote: tally.matched_remote,
                ..summary
            },
            remote_trash,
            local_trash,
            fetched,
            past,
        );
    }
}

proof fn two_way_uploads_on(
    sync: SyncConfigView,
    summary: SummaryView,
    pending: Seq<PendingUpload<Seq<char>>>,
    downloads: Seq<FetchItemView>,
    remote_trash: Seq<TrashItemView>,
    local_trash: Seq<Seq<char>>,
    past: Seq<(RequestView, ReplyView)>,
)
    ensures
        two_way_goes_on(
            sync,
            TwoWayRun::committed(sync, summary, pending, downloads, remote_trash, local_trash),
            past,
        ),
{
    let uploads = uploads_prepared(sync, pending);
    uploads_begin_for_a_reason(sync, uploads, past);
    if let Ok(Progress::Done(tally)) = uploads.begun() {
        two_way_fetches_on(sync, summary, downloads, remote_trash, local_trash, tally, past);
    }
}

proof fn two_way_plans_on(
    sync: SyncConfigView,
    states: Map<Seq<char>, FileState<Seq<char>>>,
    scanned: ScannedView,
    local: Map<Seq<char>, LocalSnapshot<Seq<char>>>,
    tree: RemoteTreeView,
    past: Seq<(RequestView, ReplyView)>,
)
    requires
        past.last().0 is ReleaseSession,
    ensures
        two_way_goes_on(sync, TwoWayRun::listed(sync, states, scanned, local, tree), past),
{
    let remote = unexcluded(scanned.patterns, tree.files);
    let view = two_way_view(sync, local, remote, states);
    plan_has_reasons(view, view.paths(), view.paths().len());
    if let Ok(actions) = view.plan() {
        let work = work_for(sync.name, local, remote, actions);
        two_way_uploads_on(
            sync,
            SummaryView {
                unchanged: work.checkpoints.len(),
                ..scan_summary(in_order(local.dom()).len(), scanned.symlinks.len())
            },
            work.uploads,
            work.downloads,
            work.remote_trash,
            work.local_trash,
            past,
        );
    }
}

proof fn two_way_has_reasons_before(
    sync: SyncConfigView,
    run: TwoWayRun,
    request: RequestView,
    reply: ReplyView,
    past: Seq<(RequestView, ReplyView)>,
)
    requires
        two_way_waits(sync, run, request, past),
        fits(request, reply),
        run.stage is Checking || run.stage is LoadingStates || run.stage is Scanning
            || run.stage is Hashing || run.stage is Listing,
    ensures
        two_way_goes_on(sync, run.stepped_before(reply), past.push((request, reply))),
{
    let more = past.push((request, reply));
    match run.stage {
        TwoWayStageView::Checking(check) => {
            check_has_reasons(sync, check, request, reply, past);
        },
        TwoWayStageView::LoadingStates => excludes_have_reasons(sync, more),
        TwoWayStageView::Scanning { states, scan } => {
            scan_has_reasons(sync, scan, request, reply, past);
            if let Ok(Progress::Done(scanned)) = scan.stepped(reply) {
                two_way_hashes_on(sync, states, scanned, Map::empty(), 0, more);
            }
        },
        TwoWayStageView::Hashing { states, scanned, local, at } => {
            let path = in_order(scanned.files.dom())[at as int];
            two_way_hashes_on(
                sync,
                states,
                scanned,
                local.insert(
                    path,
                    LocalSnapshot { file: scanned.files[path], sha1: reply->Digest_0 },
                ),
                at + 1,
                more,
            );
        },
        TwoWayStageView::Listing { states, scanned, local, inventory } => {
            inventory_never_fails(inventory, request, reply);
            assert(more.last() == (request, reply));
            if let Ok(Progress::Done(tree)) = inventory.stepped(reply) {
                two_way_plans_on(sync, states, scanned, local, tree, more);
            }
        },
        _ => {},
    }
}

proof fn two_way_has_reasons_after(
    sync: SyncConfigView,
    run: TwoWayRun,
    request: RequestView,
    reply: ReplyView,
    past: Seq<(RequestView, ReplyView)>,
)
    requires
        two_way_waits(sync, run, request, past),
        fits(request, reply),
        run.stage is Committing || run.stage is Uploading || run.stage is Fetching
            || run.stage is Trashing || run.stage is Removing,
    ensures
        two_way_goes_on(sync, run.stepped_after(reply), past.push((request, reply))),
{
    let more = past.push((request, reply));
    match run.stage {
        TwoWayStageView::Committing {
            summary,
            pending,
            downloads,
            remote_trash,
            local_trash,
            commits,
        } => {
            two_way_uploads_on(
                sync,
                summary,
                pending,
                downloads,
                remote_trash,
                local_trash,
                more,
            );
        },
        TwoWayStageView::Uploading {
            summary,
            downloads,
            remote_trash,
            local_trash,
            uploads,
        } => {
            uploads_have_reasons(sync, uploads, request, reply, past);
            if let Ok(Progress::Done(tally)) = uploads.stepped(reply) {
                two_way_fetches_on(sync, summary, downloads, remote_trash, local_trash, tally, more);
            }
        },
        TwoWayStageView::Fetching { summary, remote_trash, local_trash, fetch } => {
            fetch_has_reasons(sync, fetch, request, reply, past);
            if let Ok(Progress::Done(fetched)) = fetch.stepped(reply) {
                two_way_trashes_on(sync, summary, remote_trash, local_trash, fetched, more);
            }
        },
        TwoWayStageView::Trashing { summary, local_trash, cleanup } => {
            cleanup_has_reasons(sync, cleanup, request, reply, past);
            if let Ok(Progress::Done(paths)) = cleanup.stepped(reply) {
                two_way_cleans_on(sync, summary, local_trash, paths, more);
            }
        },
        TwoWayStageView::Removing { summary, removal } => {
            removal_never_fails(removal, request, reply);
        },
        _ => {},
    }
}

/// A two-way sync that is answered by replies of the right sort fails only for a reason: those of a
/// push and of a pull, or a conflict that the configuration does not settle.
pub proof fn a_two_way_sync_fails_for_a_reason(sync: SyncConfigView, replies: Seq<ReplyView>)
    requires
        all_fit(two_way_requests(sync, replies), replies),
    ensures
        ending(two_way_step(), two_way_started(sync), replies) matches Some(Err(fault)) ==> ({
            let asked = two_way_requests(sync, replies);
            has_reason(sync, fault, exchanges(asked, replies, asked.len()))
        }),
{
    let none: Seq<(RequestView, ReplyView)> = Seq::empty();
    let sound = |run: TwoWayRun, request: RequestView, past: Seq<(RequestView, ReplyView)>|
        two_way_waits(sync, run, request, past);
    let fitting = |request: RequestView, reply: ReplyView| fits(request, reply);
    let reason = |fault: Fault<Seq<char>>, past: Seq<(RequestView, ReplyView)>|
        has_reason(sync, fault, past);
    assert forall|
        run: TwoWayRun,
        request: RequestView,
        past: Seq<(RequestView, ReplyView)>,
        reply: ReplyView,
    |
        #![trigger sound(run, request, past), two_way_step()(run, reply)]
        sound(run, request, past) && fitting(request, reply) implies match two_way_step()(
        run,
        reply,
    ) {
        Ok(Progress::Ask(next, asked)) => sound(next, asked, past.push((request, reply))),
        Ok(Progress::Done(_)) => true,
        Err(fault) => reason(fault, past.push((request, reply))),
    } by {
        if run.stage is Checking || run.stage is LoadingStates || run.stage is Scanning
            || run.stage is Hashing || run.stage is Listing {
            two_way_has_reasons_before(sync, run, request, reply, past);
        } else {
            two_way_has_reasons_after(sync, run, request, reply, past);
        }
    }
    let asked = requests(two_way_step(), two_way_started(sync), replies);
    assert(asked == two_way_requests(sync, replies));
    fails_for_a_reason(two_way_step(), sound, fitting, reason, two_way_started(sync), replies, none);
    assert(none + exchanges(asked, replies, asked.len()) =~= exchanges(
        asked,
        replies,
        asked.len(),
    ));
}

/// A push that comes to a good end closes by putting on record that the remote tree was compared, and
/// does not do so before.
pub proof fn a_push_ends_on_record(sync: SyncConfigView, replies: Seq<ReplyView>)
    requires
        all_fit(push_requests(sync, replies), replies),
    ensures
        ({
            let asked = push_requests(sync, replies);
            let record = RequestView::SaveMetadata {
                key: "baseline:"@ + sync.name,
                value: "1"@,
            };
            &&& ending(push_step(), push_started(sync), replies) matches Some(Ok(_)) ==> asked.len()
                > 0 && asked.last() == record
            &&& forall|i: int| 0 <= i < asked.len() - 1 ==> #[trigger] asked[i] != record
        }),
{
    let none: Seq<(RequestView, ReplyView)> = Seq::empty();
    let record = RequestView::SaveMetadata { key: "baseline:"@ + sync.name, value: "1"@ };
    let sound = |run: PushView, request: RequestView, past: Seq<(RequestView, ReplyView)>|
        push_waits(sync, run, request, past);
    let fitting = |request: RequestView, reply: ReplyView| fits(request, reply);
    let closing = |request: RequestView| request == record;
    assert forall|
        run: PushView,
        request: RequestView,
        past: Seq<(RequestView, ReplyView)>,
        reply: ReplyView,
    |
        #![trigger sound(run, request, past), push_step()(run, reply)]
        sound(run, request, past) && fitting(request, reply) implies match push_step()(run, reply) {
        Ok(Progress::Ask(next, asked)) => !closing(request) && sound(
            next,
            asked,
            past.push((request, reply)),
        ),
        Ok(Progress::Done(_)) => closing(request),
        Err(_) => true,
    } by {
        push_has_reasons(sync, run, request, reply, past);
        push_closes(sync, run, request, reply, past);
    }
    if let Progress::Ask(run, request) = push_started(sync) {
        let asked = requests(push_step(), push_started(sync), replies);
        assert(asked == push_requests(sync, replies));
        closes_with(push_step(), sound, fitting, closing, run, request, replies, none);
        assert forall|i: int| 0 <= i < asked.len() - 1 implies #[trigger] asked[i] != record by {
            assert(!closing(asked[i]));
        }
    }
}

proof fn push_closes(
    sync: SyncConfigView,
    run: PushView,
    request: RequestView,
    reply: ReplyView,
    past: Seq<(RequestView, ReplyView)>,
)
    requires
        push_waits(sync, run, request, past),
        fits(request, reply),
    ensures
        run.stage !is Finishing ==> request !is SaveMetadata,
        run.stepped(reply) matches Ok(Progress::Ask(_, _)) ==> run.stage !is Finishing,
        run.stepped(reply) matches Ok(Progress::Done(_)) ==> run.stage is Finishing,
{
}

/// An inventory that comes to a good end closes by giving up what the drive client holds.
pub proof fn an_inventory_ends_the_session(
    mirror: Seq<char>,
    remote: Seq<char>,
    replies: Seq<ReplyView>,
)
    requires
        all_fit(requests(inventory_step(), inventory_started(mirror, remote), replies), replies),
    ensures
        ({
            let asked = requests(inventory_step(), inventory_started(mirror, remote), replies);
            &&& ending(inventory_step(), inventory_started(mirror, remote), replies) matches Some(
                Ok(_),
            ) ==> asked.len() > 0 && asked.last() is ReleaseSession
            &&& forall|i: int| 0 <= i < asked.len() - 1 ==> #[trigger] asked[i] !is ReleaseSession
        }),
{
    let none: Seq<(RequestView, ReplyView)> = Seq::empty();
    let sound = |run: InventoryView, request: RequestView, past: Seq<(RequestView, ReplyView)>|
        inventory_waits(run, request);
    let fitting = |request: RequestView, reply: ReplyView| fits(request, reply);
    let closing = |request: RequestView| request is ReleaseSession;
    assert forall|
        run: InventoryView,
        request: RequestView,
        past: Seq<(RequestView, ReplyView)>,
        reply: ReplyView,
    |
        #![trigger sound(run, request, past), inventory_step()(run, reply)]
        sound(run, request, past) && fitting(request, reply) implies match inventory_step()(
        run,
        reply,
    ) {
        Ok(Progress::Ask(next, asked)) => !closing(request) && sound(
            next,
            asked,
            past.push((request, reply)),
        ),
        Ok(Progress::Done(_)) => closing(request),
        Err(_) => true,
    } by {
        inventory_never_fails(run, request, reply);
    }
    if let Progress::Ask(run, request) = inventory_started(mirror, remote) {
        let asked = requests(inventory_step(), inventory_started(mirror, remote), replies);
        closes_with(inventory_step(), sound, fitting, closing, run, request, replies, none);
        assert forall|i: int| 0 <= i < asked.len() - 1 implies #[trigger] asked[i]
            !is ReleaseSession by {
            assert(!closing(asked[i]));
        }
    }
}

} // verus!
