//! What is remembered of a file is what the file system said of it.

use crate::batches::chunked;
use crate::cleanup::TrashItemView;
use crate::commits::commits_begun;
use crate::config::SyncConfigView;
use crate::drive::RemoteFileView;
use crate::exchange::{Progress, ReplyView, RequestView};
use crate::fetch::{fetch_prepared, FetchItemView, FetchStage, FetchView, FetchedView};
use crate::inventory::RemoteTreeView;
use crate::plan::{two_way_view, LocalFile, LocalSnapshot, TwoWayAction};
use crate::pull::{fetch_items, pull_started, pulled_paths, PullStageView, PullView};
use crate::pull_laws::pull_step;
use crate::push::{changed_among, changed_files, push_started, PushStageView, PushView};
use crate::push_laws::push_step;
use crate::scan::{file_at, local_path_of, ScanChoice, ScanStage, ScanView, ScannedView};
use crate::soundness::{chunks_come_from, inventory_asks, scan_asks};
use crate::state::{checkpoint_pushed, FileCheckpoint, FileState, CHECKPOINT_BATCH_SIZE};
use crate::summary::{scan_summary, SummaryView};
use crate::text::{in_order, in_order_is_ordered};
use crate::trace::{exchanges, kept_with_history, requests};
use crate::two_way::{remembered_digest, two_way_started, unexcluded, work_for, TwoWayOutcome};
use crate::two_way::{TwoWayRun, TwoWayStageView};
use crate::two_way_laws::two_way_step;
use crate::uploads::{uploads_prepared, PendingUpload, UploadTallyView, UploadsView};
use crate::work_laws::{saved_as, saved_as_wanted, uploads_only, uploads_start_wanted};
use crate::work_laws::{wanted_uploads, wanted_uploads_begin, wanted_uploads_go_on};
use vstd::prelude::*;

verus! {

/// What came before: requests, and the replies to them.
pub type Past = Seq<(RequestView, ReplyView)>;

/// The file system said, of the local place of a path, this size and this modification time.
pub open spec fn was_said(
    sync: SyncConfigView,
    past: Past,
    path: Seq<char>,
    size: u64,
    mtime_ns: i64,
) -> bool {
    exists|j: int| 0 <= j < past.len() && says(sync, #[trigger] past[j], path, size, mtime_ns)
}

/// An exchange in which the file system says, of the local place of a path, this size and this
/// modification time.
pub open spec fn says(
    sync: SyncConfigView,
    exchange: (RequestView, ReplyView),
    path: Seq<char>,
    size: u64,
    mtime_ns: i64,
) -> bool {
    &&& exchange.0 == RequestView::Stat { path: local_path_of(sync.local, path) }
    &&& exchange.1 matches ReplyView::Stat(stat)
    &&& stat.size == size
    &&& stat.modified matches Some((seconds, nanos))
    &&& mtime_ns == seconds * 1_000_000_000 + nanos
}

/// A request that remembers of files only what the file system said of them.
pub open spec fn remembers_what_was_said(
    sync: SyncConfigView,
    request: RequestView,
    past: Past,
) -> bool {
    request matches RequestView::Commit { checkpoints } ==> forall|k: int|
        0 <= k < checkpoints.len() ==> record_was_said(sync, past, #[trigger] checkpoints[k])
}

/// A checkpoint that holds what the file system said.
pub open spec fn record_was_said(
    sync: SyncConfigView,
    past: Past,
    checkpoint: FileCheckpoint<Seq<char>>,
) -> bool {
    was_said(sync, past, checkpoint.path, checkpoint.size, checkpoint.mtime_ns)
}

spec fn file_was_said(
    sync: SyncConfigView,
    past: Past,
    path: Seq<char>,
    file: LocalFile<Seq<char>>,
) -> bool {
    file.relative == path && was_said(sync, past, path, file.size, file.mtime_ns)
}

spec fn files_were_said(
    sync: SyncConfigView,
    past: Past,
    files: Map<Seq<char>, LocalFile<Seq<char>>>,
) -> bool {
    files.dom().finite() && forall|path: Seq<char>| #[trigger]
        files.contains_key(path) ==> file_was_said(sync, past, path, files[path])
}

proof fn still_said(
    sync: SyncConfigView,
    past: Past,
    exchange: (RequestView, ReplyView),
    path: Seq<char>,
    size: u64,
    mtime_ns: i64,
)
    requires
        was_said(sync, past, path, size, mtime_ns),
    ensures
        was_said(sync, past.push(exchange), path, size, mtime_ns),
{
    let j = choose|j: int|
        0 <= j < past.len() && says(sync, #[trigger] past[j], path, size, mtime_ns);
    assert(past.push(exchange)[j] == past[j]);
}

proof fn files_still_said(
    sync: SyncConfigView,
    past: Past,
    exchange: (RequestView, ReplyView),
    files: Map<Seq<char>, LocalFile<Seq<char>>>,
)
    requires
        files_were_said(sync, past, files),
    ensures
        files_were_said(sync, past.push(exchange), files),
{
    assert forall|path: Seq<char>| #[trigger] files.contains_key(path) implies file_was_said(
        sync,
        past.push(exchange),
        path,
        files[path],
    ) by {
        still_said(sync, past, exchange, path, files[path].size, files[path].mtime_ns);
    }
}

spec fn scan_said(sync: SyncConfigView, past: Past, scan: ScanView, request: RequestView) -> bool {
    &&& scan.root == sync.local
    &&& files_were_said(sync, past, scan.files)
    &&& match scan.stage {
        ScanStage::Reading { path } => request == RequestView::Stat {
            path: local_path_of(sync.local, path),
        },
        ScanStage::Listing { .. } => request is ListDirectory,
    }
}

proof fn advanced_scan_said(sync: SyncConfigView, past: Past, scan: ScanView)
    requires
        scan.root == sync.local,
        files_were_said(sync, past, scan.files),
    ensures
        match scan.advanced() {
            Err(_) => true,
            Ok(Progress::Ask(next, asked)) => scan_said(sync, past, next, asked),
            Ok(Progress::Done(scanned)) => files_were_said(sync, past, scanned.files),
        },
    decreases scan.todo.len(),
{
    if scan.todo.len() > 0 {
        let item = scan.todo.last();
        let path = scan.path_of(item);
        let rest = ScanView { todo: scan.todo.drop_last(), ..scan };
        match scan.choice(item) {
            ScanChoice::Skip => {
                advanced_scan_said(sync, past, rest);
            },
            ScanChoice::Count => {
                advanced_scan_said(
                    sync,
                    past,
                    ScanView { symlinks: scan.symlinks.push(path), ..rest },
                );
            },
            _ => {},
        }
    }
}

proof fn scan_goes_on_said(
    sync: SyncConfigView,
    past: Past,
    scan: ScanView,
    request: RequestView,
    reply: ReplyView,
)
    requires
        scan_said(sync, past, scan, request),
    ensures
        match scan.stepped(reply) {
            Err(_) => true,
            Ok(Progress::Ask(next, asked)) => scan_said(
                sync,
                past.push((request, reply)),
                next,
                asked,
            ),
            Ok(Progress::Done(scanned)) => files_were_said(
                sync,
                past.push((request, reply)),
                scanned.files,
            ),
        },
{
    let more = past.push((request, reply));
    files_still_said(sync, past, (request, reply), scan.files);
    match (scan.stage, reply) {
        (ScanStage::Listing { directory }, ReplyView::Entries(entries)) => {
            advanced_scan_said(sync, more, scan.with_listing(directory, entries));
        },
        (ScanStage::Reading { path }, ReplyView::Stat(stat)) => {
            if let Ok(file) = file_at(path, stat) {
                let files = scan.files.insert(path, file);
                assert(says(sync, more[past.len() as int], path, file.size, file.mtime_ns));
                assert(was_said(sync, more, path, file.size, file.mtime_ns));
                assert forall|other: Seq<char>| #[trigger]
                    files.contains_key(other) implies file_was_said(
                    sync,
                    more,
                    other,
                    files[other],
                ) by {
                    if other != path {
                        assert(scan.files.contains_key(other));
                    }
                }
                advanced_scan_said(sync, more, ScanView { files, ..scan });
            }
        },
        _ => {},
    }
}

spec fn upload_was_said(sync: SyncConfigView, past: Past) -> spec_fn(PendingUpload<Seq<char>>) -> bool {
    |upload: PendingUpload<Seq<char>>|
        was_said(sync, past, upload.file.relative, upload.file.size, upload.file.mtime_ns)
}

proof fn uploads_still_said(
    sync: SyncConfigView,
    past: Past,
    exchange: (RequestView, ReplyView),
    run: UploadsView,
)
    requires
        wanted_uploads(sync, run, upload_was_said(sync, past)),
    ensures
        wanted_uploads(sync, run, upload_was_said(sync, past.push(exchange))),
{
    let now = upload_was_said(sync, past.push(exchange));
    assert forall|j: int, i: int|
        #![trigger run.jobs[j].uploads[i]]
        0 <= j < run.jobs.len() && 0 <= i < run.jobs[j].uploads.len() implies now(
        run.jobs[j].uploads[i],
    ) by {
        let upload = run.jobs[j].uploads[i];
        assert(upload_was_said(sync, past)(upload));
        still_said(
            sync,
            past,
            exchange,
            upload.file.relative,
            upload.file.size,
            upload.file.mtime_ns,
        );
    }
}

proof fn saved_was_said(sync: SyncConfigView, past: Past, request: RequestView)
    requires
        uploads_only(sync, request, upload_was_said(sync, past)),
    ensures
        remembers_what_was_said(sync, request, past),
{
    if let RequestView::Commit { checkpoints } = request {
        assert forall|k: int| 0 <= k < checkpoints.len() implies record_was_said(
            sync,
            past,
            #[trigger] checkpoints[k],
        ) by {
            assert(saved_as_wanted(sync, checkpoints[k], upload_was_said(sync, past)));
            let upload = choose|upload: PendingUpload<Seq<char>>|
                #![trigger upload_was_said(sync, past)(upload)]
                upload_was_said(sync, past)(upload) && saved_as(sync, checkpoints[k], upload);
            assert(upload_was_said(sync, past)(upload));
        }
    }
}

spec fn records_were_said(
    sync: SyncConfigView,
    past: Past,
    checkpoints: Seq<FileCheckpoint<Seq<char>>>,
) -> bool {
    forall|k: int|
        0 <= k < checkpoints.len() ==> record_was_said(sync, past, #[trigger] checkpoints[k])
}

proof fn records_still_said(
    sync: SyncConfigView,
    past: Past,
    exchange: (RequestView, ReplyView),
    checkpoints: Seq<FileCheckpoint<Seq<char>>>,
)
    requires
        records_were_said(sync, past, checkpoints),
    ensures
        records_were_said(sync, past.push(exchange), checkpoints),
{
    assert forall|k: int| 0 <= k < checkpoints.len() implies record_was_said(
        sync,
        past.push(exchange),
        #[trigger] checkpoints[k],
    ) by {
        let checkpoint = checkpoints[k];
        assert(record_was_said(sync, past, checkpoint));
        still_said(
            sync,
            past,
            exchange,
            checkpoint.path,
            checkpoint.size,
            checkpoint.mtime_ns,
        );
    }
}

spec fn items_were_said(sync: SyncConfigView, past: Past, items: Seq<FetchItemView>) -> bool {
    forall|k: int|
        0 <= k < items.len() ==> item_was_said(sync, past, #[trigger] items[k])
}

spec fn item_was_said(sync: SyncConfigView, past: Past, item: FetchItemView) -> bool {
    item.local matches Some(local) ==> was_said(
        sync,
        past,
        item.path,
        local.size,
        local.mtime_ns,
    )
}

proof fn items_still_said(
    sync: SyncConfigView,
    past: Past,
    exchange: (RequestView, ReplyView),
    items: Seq<FetchItemView>,
)
    requires
        items_were_said(sync, past, items),
    ensures
        items_were_said(sync, past.push(exchange), items),
{
    assert forall|k: int| 0 <= k < items.len() implies item_was_said(
        sync,
        past.push(exchange),
        #[trigger] items[k],
    ) by {
        let item = items[k];
        assert(item_was_said(sync, past, item));
        if let Some(local) = item.local {
            still_said(sync, past, exchange, item.path, local.size, local.mtime_ns);
        }
    }
}

spec fn fetch_said(sync: SyncConfigView, past: Past, fetch: FetchView, request: RequestView) -> bool {
    &&& fetch.sync == sync
    &&& items_were_said(sync, past, fetch.items)
    &&& records_were_said(sync, past, fetch.pending)
    &&& remembers_what_was_said(sync, request, past)
    &&& fetch.stage matches FetchStage::Downloading(download) ==> {
        let path = fetch.items[fetch.at as int].path;
        &&& fetch.at < fetch.items.len()
        &&& download.relative == path
        &&& download.target == local_path_of(sync.local, path)
        &&& download.stage is Reading ==> request == RequestView::Stat {
            path: local_path_of(sync.local, path),
        }
    }
}

proof fn advanced_fetch_said(sync: SyncConfigView, past: Past, fetch: FetchView)
    requires
        fetch.sync == sync,
        items_were_said(sync, past, fetch.items),
        records_were_said(sync, past, fetch.pending),
    ensures
        fetch.advanced() matches Ok(Progress::Ask(next, asked)) ==> fetch_said(
            sync,
            past,
            next,
            asked,
        ),
{
}

proof fn recorded_fetch_said(
    sync: SyncConfigView,
    past: Past,
    fetch: FetchView,
    size: u64,
    mtime_ns: i64,
)
    requires
        fetch.sync == sync,
        fetch.at < fetch.items.len(),
        items_were_said(sync, past, fetch.items),
        records_were_said(sync, past, fetch.pending),
        was_said(sync, past, fetch.items[fetch.at as int].path, size, mtime_ns),
        !(fetch.stage is Flushing),
    ensures
        fetch.recorded(size, mtime_ns) matches Ok(Progress::Ask(next, asked)) ==> fetch_said(
            sync,
            past,
            next,
            asked,
        ),
{
    let item = fetch.items[fetch.at as int];
    let checkpoint = FileCheckpoint {
        mirror: sync.name,
        path: item.path,
        size,
        mtime_ns,
        sha1: item.file.sha1,
    };
    let all = fetch.pending.push(checkpoint);
    assert forall|k: int| 0 <= k < all.len() implies record_was_said(
        sync,
        past,
        #[trigger] all[k],
    ) by {
        if k < fetch.pending.len() {
            assert(all[k] == fetch.pending[k]);
        }
    }
    let (pending, _) = checkpoint_pushed(fetch.pending, checkpoint);
    advanced_fetch_said(sync, past, FetchView { at: fetch.at + 1, pending, ..fetch });
}

proof fn fetch_goes_on_said(
    sync: SyncConfigView,
    past: Past,
    fetch: FetchView,
    request: RequestView,
    reply: ReplyView,
)
    requires
        fetch_said(sync, past, fetch, request),
    ensures
        fetch.stepped(reply) matches Ok(Progress::Ask(next, asked)) ==> fetch_said(
            sync,
            past.push((request, reply)),
            next,
            asked,
        ),
{
    let more = past.push((request, reply));
    items_still_said(sync, past, (request, reply), fetch.items);
    records_still_said(sync, past, (request, reply), fetch.pending);
    advanced_fetch_said(sync, more, fetch);
    if fetch.at < fetch.items.len() && fetch.stage !is Flushing {
        let item = fetch.items[fetch.at as int];
        let path = item.path;
        assert(item_was_said(sync, more, item));
        let matched = FetchView {
            fetched: FetchedView {
                unchanged: fetch.fetched.unchanged.push(path),
                ..fetch.fetched
            },
            ..fetch
        };
        let downloaded = FetchView {
            fetched: FetchedView {
                downloaded: fetch.fetched.downloaded.push(path),
                ..fetch.fetched
            },
            ..fetch
        };
        if let Some(local) = item.local {
            recorded_fetch_said(sync, more, matched, local.size, local.mtime_ns);
        }
        if let FetchStage::Downloading(download) = fetch.stage {
            if let Ok(Progress::Done(local)) = download.stepped(reply) {
                assert(says(sync, more[past.len() as int], path, local.size, local.mtime_ns));
                recorded_fetch_said(sync, more, downloaded, local.size, local.mtime_ns);
            }
        }
    }
}

proof fn changed_were_said(
    sync: SyncConfigView,
    past: Past,
    files: Map<Seq<char>, LocalFile<Seq<char>>>,
    states: Map<Seq<char>, FileState<Seq<char>>>,
    paths: Seq<Seq<char>>,
    count: nat,
)
    requires
        count <= paths.len(),
        files_were_said(sync, past, files),
        forall|k: int| 0 <= k < paths.len() ==> files.contains_key(#[trigger] paths[k]),
    ensures
        forall|u: int|
            0 <= u < changed_among(files, states, paths, count).len() ==> upload_was_said(
                sync,
                past,
            )(#[trigger] changed_among(files, states, paths, count)[u]),
    decreases count,
{
    if count > 0 {
        let all = changed_among(files, states, paths, count);
        let rest = changed_among(files, states, paths, (count - 1) as nat);
        changed_were_said(sync, past, files, states, paths, (count - 1) as nat);
        assert(files.contains_key(paths[count - 1]));
        assert forall|u: int| 0 <= u < all.len() implies upload_was_said(sync, past)(
            #[trigger] all[u],
        ) by {
            if u < rest.len() {
                assert(all[u] == rest[u]);
            }
        }
    }
}

spec fn push_said(sync: SyncConfigView, past: Past, run: PushView, request: RequestView) -> bool {
    &&& run.sync == sync
    &&& remembers_what_was_said(sync, request, past)
    &&& match run.stage {
        PushStageView::Checking(_) => true,
        PushStageView::Scanning(scan) => scan_said(sync, past, scan, request),
        PushStageView::LoadingStates { scanned } => files_were_said(sync, past, scanned.files),
        PushStageView::LoadingBaseline { scanned, .. } => files_were_said(
            sync,
            past,
            scanned.files,
        ),
        PushStageView::Comparing { scanned, .. } => files_were_said(sync, past, scanned.files),
        PushStageView::Uploading { uploads, .. } => wanted_uploads(
            sync,
            uploads,
            upload_was_said(sync, past),
        ),
        _ => true,
    }
}

proof fn reconciled_said(
    sync: SyncConfigView,
    past: Past,
    scanned: ScannedView,
    states: Map<Seq<char>, FileState<Seq<char>>>,
)
    requires
        files_were_said(sync, past, scanned.files),
    ensures
        ({
            let run = uploads_prepared(sync, changed_files(scanned.files, states));
            run.begun() matches Ok(Progress::Ask(next, asked)) ==> wanted_uploads(
                sync,
                next,
                upload_was_said(sync, past),
            ) && remembers_what_was_said(sync, asked, past)
        }),
{
    let uploads = changed_files(scanned.files, states);
    let paths = in_order(scanned.files.dom());
    let wanted = upload_was_said(sync, past);
    in_order_is_ordered(scanned.files.dom());
    assert forall|k: int| 0 <= k < paths.len() implies scanned.files.contains_key(
        #[trigger] paths[k],
    ) by {
        assert(paths.to_set().contains(paths[k]));
    }
    changed_were_said(sync, past, scanned.files, states, paths, paths.len());
    uploads_start_wanted(sync, uploads, wanted);
    wanted_uploads_begin(sync, uploads_prepared(sync, uploads), wanted);
    if let Ok(Progress::Ask(_, asked)) = uploads_prepared(sync, uploads).begun() {
        saved_was_said(sync, past, asked);
    }
}

proof fn push_goes_on_said(
    sync: SyncConfigView,
    past: Past,
    run: PushView,
    request: RequestView,
    reply: ReplyView,
)
    requires
        push_said(sync, past, run, request),
    ensures
        run.stepped(reply) matches Ok(Progress::Ask(next, asked)) ==> push_said(
            sync,
            past.push((request, reply)),
            next,
            asked,
        ),
{
    let exchange = (request, reply);
    let more = past.push(exchange);
    match run.stage {
        PushStageView::Scanning(scan) => {
            scan_asks(scan, reply);
            scan_goes_on_said(sync, past, scan, request, reply);
        },
        PushStageView::LoadingStates { scanned } => {
            files_still_said(sync, past, exchange, scanned.files);
        },
        PushStageView::LoadingBaseline { scanned, states } => {
            files_still_said(sync, past, exchange, scanned.files);
            reconciled_said(sync, more, scanned, states);
        },
        PushStageView::Comparing { scanned, states, inventory } => {
            inventory_asks(inventory, reply);
            files_still_said(sync, past, exchange, scanned.files);
            reconciled_said(sync, more, scanned, states);
        },
        PushStageView::Uploading { uploads, .. } => {
            uploads_still_said(sync, past, exchange, uploads);
            wanted_uploads_go_on(sync, uploads, upload_was_said(sync, more), reply);
            if let Ok(Progress::Ask(_, asked)) = uploads.stepped(reply) {
                saved_was_said(sync, more, asked);
            }
        },
        PushStageView::Locating { inventory, .. } => {
            inventory_asks(inventory, reply);
        },
        _ => {},
    }
}

/// Whatever size and modification time a push remembers of a file, the file system said before of the
/// local place of that file.
pub proof fn a_push_remembers_what_was_said(sync: SyncConfigView, replies: Seq<ReplyView>)
    ensures
        ({
            let asked = requests(push_step(), push_started(sync), replies);
            forall|i: int|
                #![trigger asked[i]]
                0 <= i < asked.len() ==> remembers_what_was_said(
                    sync,
                    asked[i],
                    exchanges(asked, replies, i as nat),
                )
        }),
{
    let sound = |run: PushView, request: RequestView, past: Past| push_said(sync, past, run, request);
    let fine = |request: RequestView, past: Past| remembers_what_was_said(sync, request, past);
    let start = push_started(sync);
    let none: Past = Seq::empty();
    assert forall|run: PushView, request: RequestView, past: Past, reply: ReplyView|
        #![trigger sound(run, request, past), push_step()(run, reply)]
        sound(run, request, past) implies (push_step()(run, reply) matches Ok(
        Progress::Ask(next, asked),
    ) ==> sound(next, asked, past.push((request, reply)))) by {
        push_goes_on_said(sync, past, run, request, reply);
    }
    kept_with_history(push_step(), sound, fine, start, replies, none);
    let asked = requests(push_step(), start, replies);
    assert forall|i: int|
        #![trigger asked[i]]
        0 <= i < asked.len() implies remembers_what_was_said(
        sync,
        asked[i],
        exchanges(asked, replies, i as nat),
    ) by {
        assert(none + exchanges(asked, replies, i as nat) =~= exchanges(
            asked,
            replies,
            i as nat,
        ));
        assert(fine(asked[i], none + exchanges(asked, replies, i as nat)));
    }
}

spec fn pull_said(sync: SyncConfigView, past: Past, run: PullView, request: RequestView) -> bool {
    &&& run.sync == sync
    &&& remembers_what_was_said(sync, request, past)
    &&& match run.stage {
        PullStageView::Scanning(scan) => scan_said(sync, past, scan, request),
        PullStageView::Listing { scanned, .. } => files_were_said(sync, past, scanned.files),
        PullStageView::Fetching { fetch, .. } => fetch_said(sync, past, fetch, request),
        _ => true,
    }
}

proof fn pull_goes_on_said(
    sync: SyncConfigView,
    past: Past,
    run: PullView,
    request: RequestView,
    reply: ReplyView,
)
    requires
        pull_said(sync, past, run, request),
    ensures
        run.stepped(reply) matches Ok(Progress::Ask(next, asked)) ==> pull_said(
            sync,
            past.push((request, reply)),
            next,
            asked,
        ),
{
    let exchange = (request, reply);
    let more = past.push(exchange);
    match run.stage {
        PullStageView::Scanning(scan) => {
            scan_asks(scan, reply);
            scan_goes_on_said(sync, past, scan, request, reply);
        },
        PullStageView::Listing { scanned, inventory } => {
            inventory_asks(inventory, reply);
            files_still_said(sync, past, exchange, scanned.files);
            if let Ok(Progress::Done(tree)) = inventory.stepped(reply) {
                let paths = pulled_paths(scanned.patterns, tree);
                let items = fetch_items(paths, tree, scanned.files);
                assert forall|k: int| 0 <= k < items.len() implies item_was_said(
                    sync,
                    more,
                    #[trigger] items[k],
                ) by {
                    let path = paths[k];
                    assert(items[k].path == path);
                    if scanned.files.contains_key(path) {
                        assert(file_was_said(sync, more, path, scanned.files[path]));
                    }
                }
                advanced_fetch_said(sync, more, fetch_prepared(sync, items));
            }
        },
        PullStageView::Fetching { fetch, .. } => {
            fetch_goes_on_said(sync, past, fetch, request, reply);
        },
        _ => {},
    }
}

/// Whatever size and modification time a pull remembers of a file, the file system said before of the
/// local place of that file.
pub proof fn a_pull_remembers_what_was_said(sync: SyncConfigView, replies: Seq<ReplyView>)
    ensures
        ({
            let asked = requests(pull_step(), pull_started(sync), replies);
            forall|i: int|
                #![trigger asked[i]]
                0 <= i < asked.len() ==> remembers_what_was_said(
                    sync,
                    asked[i],
                    exchanges(asked, replies, i as nat),
                )
        }),
{
    let sound = |run: PullView, request: RequestView, past: Past| pull_said(sync, past, run, request);
    let fine = |request: RequestView, past: Past| remembers_what_was_said(sync, request, past);
    let start = pull_started(sync);
    let none: Past = Seq::empty();
    assert forall|run: PullView, request: RequestView, past: Past, reply: ReplyView|
        #![trigger sound(run, request, past), pull_step()(run, reply)]
        sound(run, request, past) implies (pull_step()(run, reply) matches Ok(
        Progress::Ask(next, asked),
    ) ==> sound(next, asked, past.push((request, reply)))) by {
        pull_goes_on_said(sync, past, run, request, reply);
    }
    kept_with_history(pull_step(), sound, fine, start, replies, none);
    let asked = requests(pull_step(), start, replies);
    assert forall|i: int|
        #![trigger asked[i]]
        0 <= i < asked.len() implies remembers_what_was_said(
        sync,
        asked[i],
        exchanges(asked, replies, i as nat),
    ) by {
        assert(none + exchanges(asked, replies, i as nat) =~= exchanges(
            asked,
            replies,
            i as nat,
        ));
        assert(fine(asked[i], none + exchanges(asked, replies, i as nat)));
    }
}

spec fn local_was_said(
    sync: SyncConfigView,
    past: Past,
    local: Map<Seq<char>, LocalSnapshot<Seq<char>>>,
) -> bool {
    forall|path: Seq<char>| #[trigger]
        local.contains_key(path) ==> file_was_said(sync, past, path, local[path].file)
}

proof fn local_still_said(
    sync: SyncConfigView,
    past: Past,
    exchange: (RequestView, ReplyView),
    local: Map<Seq<char>, LocalSnapshot<Seq<char>>>,
)
    requires
        local_was_said(sync, past, local),
    ensures
        local_was_said(sync, past.push(exchange), local),
{
    assert forall|path: Seq<char>| #[trigger] local.contains_key(path) implies file_was_said(
        sync,
        past.push(exchange),
        path,
        local[path].file,
    ) by {
        let file = local[path].file;
        still_said(sync, past, exchange, path, file.size, file.mtime_ns);
    }
}

spec fn batches_were_said(
    sync: SyncConfigView,
    past: Past,
    batches: Seq<Seq<FileCheckpoint<Seq<char>>>>,
) -> bool {
    forall|b: int|
        0 <= b < batches.len() ==> records_were_said(sync, past, #[trigger] batches[b])
}

proof fn batches_still_said(
    sync: SyncConfigView,
    past: Past,
    exchange: (RequestView, ReplyView),
    batches: Seq<Seq<FileCheckpoint<Seq<char>>>>,
)
    requires
        batches_were_said(sync, past, batches),
    ensures
        batches_were_said(sync, past.push(exchange), batches),
{
    assert forall|b: int| 0 <= b < batches.len() implies records_were_said(
        sync,
        past.push(exchange),
        #[trigger] batches[b],
    ) by {
        records_still_said(sync, past, exchange, batches[b]);
    }
}

spec fn pending_was_said(
    sync: SyncConfigView,
    past: Past,
    pending: Seq<PendingUpload<Seq<char>>>,
) -> bool {
    forall|u: int| 0 <= u < pending.len() ==> upload_was_said(sync, past)(#[trigger] pending[u])
}

proof fn pending_still_said(
    sync: SyncConfigView,
    past: Past,
    exchange: (RequestView, ReplyView),
    pending: Seq<PendingUpload<Seq<char>>>,
)
    requires
        pending_was_said(sync, past, pending),
    ensures
        pending_was_said(sync, past.push(exchange), pending),
{
    assert forall|u: int| 0 <= u < pending.len() implies upload_was_said(
        sync,
        past.push(exchange),
    )(#[trigger] pending[u]) by {
        let file = pending[u].file;
        assert(upload_was_said(sync, past)(pending[u]));
        still_said(sync, past, exchange, file.relative, file.size, file.mtime_ns);
    }
}

spec fn new_items(items: Seq<FetchItemView>) -> bool {
    forall|k: int| 0 <= k < items.len() ==> (#[trigger] items[k]).local is None
}

spec fn two_way_said(sync: SyncConfigView, past: Past, run: TwoWayRun, request: RequestView) -> bool {
    &&& run.sync == sync
    &&& remembers_what_was_said(sync, request, past)
    &&& match run.stage {
        TwoWayStageView::Scanning { scan, .. } => scan_said(sync, past, scan, request),
        TwoWayStageView::Hashing { scanned, local, .. } => files_were_said(
            sync,
            past,
            scanned.files,
        ) && local_was_said(sync, past, local),
        TwoWayStageView::Listing { local, .. } => local_was_said(sync, past, local),
        TwoWayStageView::Committing { pending, downloads, commits, .. } => {
            &&& batches_were_said(sync, past, commits)
            &&& pending_was_said(sync, past, pending)
            &&& new_items(downloads)
        },
        TwoWayStageView::Uploading { downloads, uploads, .. } => wanted_uploads(
            sync,
            uploads,
            upload_was_said(sync, past),
        ) && new_items(downloads),
        TwoWayStageView::Fetching { fetch, .. } => fetch_said(sync, past, fetch, request),
        _ => true,
    }
}

spec fn outcome_said(sync: SyncConfigView, past: Past, outcome: TwoWayOutcome) -> bool {
    outcome matches Ok(Progress::Ask(next, asked)) ==> two_way_said(sync, past, next, asked)
}

proof fn hashing_said(
    sync: SyncConfigView,
    past: Past,
    states: Map<Seq<char>, FileState<Seq<char>>>,
    scanned: ScannedView,
    local: Map<Seq<char>, LocalSnapshot<Seq<char>>>,
    at: nat,
)
    requires
        files_were_said(sync, past, scanned.files),
        local_was_said(sync, past, local),
    ensures
        outcome_said(sync, past, TwoWayRun::hashing(sync, states, scanned, local, at)),
    decreases in_order(scanned.files.dom()).len() - at,
{
    let paths = in_order(scanned.files.dom());
    if at < paths.len() {
        let path = paths[at as int];
        let file = scanned.files[path];
        if let Some(sha1) = remembered_digest(states, file) {
            one_more_said(sync, past, scanned, local, at, sha1);
            hashing_said(
                sync,
                past,
                states,
                scanned,
                local.insert(path, LocalSnapshot { file, sha1 }),
                at + 1,
            );
        }
    }
}

proof fn one_more_said(
    sync: SyncConfigView,
    past: Past,
    scanned: ScannedView,
    local: Map<Seq<char>, LocalSnapshot<Seq<char>>>,
    at: nat,
    sha1: Seq<char>,
)
    requires
        files_were_said(sync, past, scanned.files),
        local_was_said(sync, past, local),
        at < in_order(scanned.files.dom()).len(),
    ensures
        ({
            let path = in_order(scanned.files.dom())[at as int];
            local_was_said(
                sync,
                past,
                local.insert(path, LocalSnapshot { file: scanned.files[path], sha1 }),
            )
        }),
{
    let paths = in_order(scanned.files.dom());
    let path = paths[at as int];
    in_order_is_ordered(scanned.files.dom());
    assert(paths.to_set().contains(path));
    assert(scanned.files.contains_key(path));
    let more = local.insert(path, LocalSnapshot { file: scanned.files[path], sha1 });
    assert forall|other: Seq<char>| #[trigger] more.contains_key(other) implies file_was_said(
        sync,
        past,
        other,
        more[other].file,
    ) by {
        if other != path {
            assert(local.contains_key(other));
        }
    }
}

proof fn uploaded_said(
    sync: SyncConfigView,
    past: Past,
    summary: SummaryView,
    downloads: Seq<FetchItemView>,
    remote_trash: Seq<TrashItemView>,
    local_trash: Seq<Seq<char>>,
    tally: UploadTallyView,
)
    requires
        new_items(downloads),
    ensures
        outcome_said(
            sync,
            past,
            TwoWayRun::uploaded(sync, summary, downloads, remote_trash, local_trash, tally),
        ),
{
    assert(items_were_said(sync, past, downloads));
    advanced_fetch_said(sync, past, fetch_prepared(sync, downloads));
}

proof fn committed_said(
    sync: SyncConfigView,
    past: Past,
    summary: SummaryView,
    pending: Seq<PendingUpload<Seq<char>>>,
    downloads: Seq<FetchItemView>,
    remote_trash: Seq<TrashItemView>,
    local_trash: Seq<Seq<char>>,
)
    requires
        pending_was_said(sync, past, pending),
        new_items(downloads),
    ensures
        outcome_said(
            sync,
            past,
            TwoWayRun::committed(sync, summary, pending, downloads, remote_trash, local_trash),
        ),
{
    let wanted = upload_was_said(sync, past);
    uploads_start_wanted(sync, pending, wanted);
    wanted_uploads_begin(sync, uploads_prepared(sync, pending), wanted);
    match uploads_prepared(sync, pending).begun() {
        Ok(Progress::Ask(_, asked)) => {
            saved_was_said(sync, past, asked);
        },
        Ok(Progress::Done(tally)) => {
            uploaded_said(sync, past, summary, downloads, remote_trash, local_trash, tally);
        },
        Err(_) => {},
    }
}

proof fn begun_commits_said(
    sync: SyncConfigView,
    past: Past,
    batches: Seq<Seq<FileCheckpoint<Seq<char>>>>,
)
    requires
        batches_were_said(sync, past, batches),
    ensures
        commits_begun(batches) matches Progress::Ask(next, asked) ==> batches_were_said(
            sync,
            past,
            next,
        ) && remembers_what_was_said(sync, asked, past),
{
    if batches.len() > 0 {
        let rest = batches.drop_first();
        assert(records_were_said(sync, past, batches[0]));
        assert forall|b: int| 0 <= b < rest.len() implies records_were_said(
            sync,
            past,
            #[trigger] rest[b],
        ) by {
            assert(rest[b] == batches[b + 1]);
        }
    }
}

proof fn work_was_said(
    sync: SyncConfigView,
    past: Past,
    local: Map<Seq<char>, LocalSnapshot<Seq<char>>>,
    remote: Map<Seq<char>, RemoteFileView>,
    actions: Seq<TwoWayAction<Seq<char>>>,
)
    requires
        local_was_said(sync, past, local),
        forall|i: int|
            #![trigger actions[i]]
            0 <= i < actions.len() && (actions[i] is Checkpoint || actions[i] is Upload)
                ==> local.contains_key(actions[i].target()),
    ensures
        ({
            let work = work_for(sync.name, local, remote, actions);
            &&& records_were_said(sync, past, work.checkpoints)
            &&& pending_was_said(sync, past, work.uploads)
            &&& new_items(work.downloads)
        }),
    decreases actions.len(),
{
    if actions.len() > 0 {
        let before = actions.drop_last();
        assert forall|i: int|
            #![trigger before[i]]
            0 <= i < before.len() && (before[i] is Checkpoint || before[i] is Upload) implies local.contains_key(
            before[i].target(),
        ) by {
            assert(before[i] == actions[i]);
        }
        work_was_said(sync, past, local, remote, before);
        let action = actions[actions.len() - 1];
        if action is Checkpoint || action is Upload {
            assert(local.contains_key(action.target()));
        }
    }
}

proof fn listed_said(
    sync: SyncConfigView,
    past: Past,
    states: Map<Seq<char>, FileState<Seq<char>>>,
    scanned: ScannedView,
    local: Map<Seq<char>, LocalSnapshot<Seq<char>>>,
    tree: RemoteTreeView,
)
    requires
        local_was_said(sync, past, local),
    ensures
        outcome_said(sync, past, TwoWayRun::listed(sync, states, scanned, local, tree)),
{
    let remote = unexcluded(scanned.patterns, tree.files);
    let view = two_way_view(sync, local, remote, states);
    if let Ok(actions) = view.plan() {
        view.plan_has_reasons();
        assert forall|i: int|
            #![trigger actions[i]]
            0 <= i < actions.len() && (actions[i] is Checkpoint || actions[i] is Upload) implies local.contains_key(
            actions[i].target(),
        ) by {
            view.decision_is_about(actions[i].target(), actions[i]);
        }
        work_was_said(sync, past, local, remote, actions);
        let work = work_for(sync.name, local, remote, actions);
        let size = CHECKPOINT_BATCH_SIZE as int;
        let batches = chunked(work.checkpoints, size);
        chunks_come_from(work.checkpoints, size);
        assert forall|b: int| 0 <= b < batches.len() implies records_were_said(
            sync,
            past,
            #[trigger] batches[b],
        ) by {
            let batch = batches[b];
            assert forall|k: int| 0 <= k < batch.len() implies record_was_said(
                sync,
                past,
                #[trigger] batch[k],
            ) by {
                assert(work.checkpoints.contains(chunked(work.checkpoints, size)[b][k]));
                let m = choose|m: int|
                    0 <= m < work.checkpoints.len() && work.checkpoints[m] == batch[k];
                assert(record_was_said(sync, past, work.checkpoints[m]));
            }
        }
        begun_commits_said(sync, past, batches);
        let summary = scan_summary(in_order(local.dom()).len(), scanned.symlinks.len());
        committed_said(
            sync,
            past,
            SummaryView { unchanged: work.checkpoints.len(), ..summary },
            work.uploads,
            work.downloads,
            work.remote_trash,
            work.local_trash,
        );
    }
}

proof fn two_way_goes_on_said(
    sync: SyncConfigView,
    past: Past,
    run: TwoWayRun,
    request: RequestView,
    reply: ReplyView,
)
    requires
        two_way_said(sync, past, run, request),
    ensures
        outcome_said(sync, past.push((request, reply)), run.stepped(reply)),
{
    let exchange = (request, reply);
    let more = past.push(exchange);
    match run.stage {
        TwoWayStageView::Scanning { states, scan } => {
            scan_asks(scan, reply);
            scan_goes_on_said(sync, past, scan, request, reply);
            if let Ok(Progress::Done(scanned)) = scan.stepped(reply) {
                hashing_said(sync, more, states, scanned, Map::empty(), 0);
            }
        },
        TwoWayStageView::Hashing { states, scanned, local, at } => {
            files_still_said(sync, past, exchange, scanned.files);
            local_still_said(sync, past, exchange, local);
            if let ReplyView::Digest(sha1) = reply {
                let paths = in_order(scanned.files.dom());
                if at < paths.len() {
                    let path = paths[at as int];
                    one_more_said(sync, more, scanned, local, at, sha1);
                    hashing_said(
                        sync,
                        more,
                        states,
                        scanned,
                        local.insert(path, LocalSnapshot { file: scanned.files[path], sha1 }),
                        at + 1,
                    );
                }
            }
        },
        TwoWayStageView::Listing { states, scanned, local, inventory } => {
            inventory_asks(inventory, reply);
            local_still_said(sync, past, exchange, local);
            if let Ok(Progress::Done(tree)) = inventory.stepped(reply) {
                listed_said(sync, more, states, scanned, local, tree);
            }
        },
        TwoWayStageView::Committing {
            summary,
            pending,
            downloads,
            remote_trash,
            local_trash,
            commits,
        } => {
            batches_still_said(sync, past, exchange, commits);
            pending_still_said(sync, past, exchange, pending);
            begun_commits_said(sync, more, commits);
            committed_said(
                sync,
                more,
                summary,
                pending,
                downloads,
                remote_trash,
                local_trash,
            );
        },
        TwoWayStageView::Uploading { summary, downloads, remote_trash, local_trash, uploads } => {
            uploads_still_said(sync, past, exchange, uploads);
            wanted_uploads_go_on(sync, uploads, upload_was_said(sync, more), reply);
            match uploads.stepped(reply) {
                Ok(Progress::Ask(_, asked)) => {
                    saved_was_said(sync, more, asked);
                },
                Ok(Progress::Done(tally)) => {
                    uploaded_said(
                        sync,
                        more,
                        summary,
                        downloads,
                        remote_trash,
                        local_trash,
                        tally,
                    );
                },
                Err(_) => {},
            }
        },
        TwoWayStageView::Fetching { fetch, .. } => {
            fetch_goes_on_said(sync, past, fetch, request, reply);
        },
        _ => {},
    }
}

/// Whatever size and modification time a two-way sync remembers of a file, the file system said before
/// of the local place of that file.
pub proof fn a_two_way_sync_remembers_what_was_said(
    sync: SyncConfigView,
    replies: Seq<ReplyView>,
)
    ensures
        ({
            let asked = requests(two_way_step(), two_way_started(sync), replies);
            forall|i: int|
                #![trigger asked[i]]
                0 <= i < asked.len() ==> remembers_what_was_said(
                    sync,
                    asked[i],
                    exchanges(asked, replies, i as nat),
                )
        }),
{
    let sound = |run: TwoWayRun, request: RequestView, past: Past|
        two_way_said(sync, past, run, request);
    let fine = |request: RequestView, past: Past| remembers_what_was_said(sync, request, past);
    let start = two_way_started(sync);
    let none: Past = Seq::empty();
    assert forall|run: TwoWayRun, request: RequestView, past: Past, reply: ReplyView|
        #![trigger sound(run, request, past), two_way_step()(run, reply)]
        sound(run, request, past) implies (two_way_step()(run, reply) matches Ok(
        Progress::Ask(next, asked),
    ) ==> sound(next, asked, past.push((request, reply)))) by {
        two_way_goes_on_said(sync, past, run, request, reply);
    }
    kept_with_history(two_way_step(), sound, fine, start, replies, none);
    let asked = requests(two_way_step(), start, replies);
    assert forall|i: int|
        #![trigger asked[i]]
        0 <= i < asked.len() implies remembers_what_was_said(
        sync,
        asked[i],
        exchanges(asked, replies, i as nat),
    ) by {
        assert(none + exchanges(asked, replies, i as nat) =~= exchanges(
            asked,
            replies,
            i as nat,
        ));
        assert(fine(asked[i], none + exchanges(asked, replies, i as nat)));
    }
}

} // verus!
