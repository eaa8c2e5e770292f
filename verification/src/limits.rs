//! What is asked at once, and what is asked first.

use crate::config::SyncConfigView;
use crate::config_laws::patterns_are_readable;
use crate::error::Fault;
use crate::exchange::{Progress, ReplyView, RequestView};
use crate::excludes::{excludes_fault, first_bad_pattern, glob_error, set_builds};
use crate::fetch::{fetch_prepared, FetchItemView, FetchStage, FetchView, FetchedView};
use crate::inventory::RemoteTreeView;
use crate::paths::drive_path;
use crate::plan::LocalFile;
use crate::pull::{fetch_items, pull_started, PullView};
use crate::pull_laws::{pull_batches_are_bounded, pull_requests, pull_step};
use crate::push::{push_started, PushView};
use crate::push_laws::{push_batches_are_bounded, push_requests, push_step};
use crate::removal::RemovalView;
use crate::scan::local_path_of;
use crate::soundness::{bounded_batch, ensure_steps};
use crate::summary::SummaryView;
use crate::text::in_order;
use crate::trace::{ending, exchanges, kept_by_steps, kept_to_the_end, kept_with_history, requests};
use crate::trace::Step;
use crate::two_way::{two_way_started, TwoWayRun};
use crate::two_way_laws::{two_way_batches_are_bounded, two_way_requests, two_way_step};
use crate::uploads::{folder_jobs, jobs_for, upload_parents, uploads_below, uploads_prepared};
use crate::uploads::{PendingUpload, UploadJobView, UploadTallyView, UploadsStage, UploadsView};
use crate::world::{digests_ignore_case, same_digest};
use vstd::prelude::*;

verus! {

/// A request that does not do too much at once: an upload command has at most 32 files, a trash
/// command at most 64, and a transaction at most 256, and none of them is empty.
pub open spec fn is_not_too_much(request: RequestView) -> bool {
    match request {
        RequestView::Upload { files, .. } => 1 <= files.len() <= 32,
        RequestView::TrashRemote { targets } => 1 <= targets.len() <= 64,
        RequestView::Commit { checkpoints } => 1 <= checkpoints.len() <= 256,
        _ => true,
    }
}

/// No sync does too much at once.
pub proof fn nothing_is_too_much(sync: SyncConfigView, replies: Seq<ReplyView>)
    ensures
        forall|i: int|
            0 <= i < push_requests(sync, replies).len() ==> is_not_too_much(
                #[trigger] push_requests(sync, replies)[i],
            ),
        forall|i: int|
            0 <= i < pull_requests(sync, replies).len() ==> is_not_too_much(
                #[trigger] pull_requests(sync, replies)[i],
            ),
        forall|i: int|
            0 <= i < two_way_requests(sync, replies).len() ==> is_not_too_much(
                #[trigger] two_way_requests(sync, replies)[i],
            ),
{
    push_batches_are_bounded(sync, replies);
    pull_batches_are_bounded(sync, replies);
    two_way_batches_are_bounded(sync, replies);
    let (pushed, pulled, synced) = (
        push_requests(sync, replies),
        pull_requests(sync, replies),
        two_way_requests(sync, replies),
    );
    assert forall|i: int| 0 <= i < pushed.len() implies is_not_too_much(#[trigger] pushed[i]) by {
        assert(bounded_batch(pushed[i]));
    }
    assert forall|i: int| 0 <= i < pulled.len() implies is_not_too_much(#[trigger] pulled[i]) by {
        assert(bounded_batch(pulled[i]));
    }
    assert forall|i: int| 0 <= i < synced.len() implies is_not_too_much(#[trigger] synced[i]) by {
        assert(bounded_batch(synced[i]));
    }
}

/// The step function of uploads.
pub open spec fn uploads_step() -> Step<UploadsView, UploadTallyView> {
    |run: UploadsView, reply: ReplyView| run.stepped(reply)
}

/// An upload command goes to the root, or to a folder that was looked for before.
pub open spec fn goes_to_a_known_folder(
    sync: SyncConfigView,
    request: RequestView,
    past: Seq<(RequestView, ReplyView)>,
) -> bool {
    request matches RequestView::Upload { parent, .. } ==> exists|folder: Seq<char>|
        {
            &&& parent == #[trigger] drive_path(sync.remote, folder)
            &&& folder.len() == 0 || was_looked_for(sync, past, folder)
        }
}

/// A folder was looked for: whether it is on record was asked.
pub open spec fn was_looked_for(
    sync: SyncConfigView,
    past: Seq<(RequestView, ReplyView)>,
    folder: Seq<char>,
) -> bool {
    exists|j: int|
        0 <= j < past.len() && (#[trigger] past[j]).0 == (RequestView::KnowsDirectory {
            mirror: sync.name,
            path: folder,
        })
}

spec fn opened_before(jobs: Seq<UploadJobView>) -> bool {
    forall|j: int|
        0 <= j < jobs.len() && !(#[trigger] jobs[j]).opens ==> j > 0 && jobs[j - 1].parent
            == jobs[j].parent
}

proof fn jobs_open(
    uploads: Seq<PendingUpload<Seq<char>>>,
    parents: Seq<Seq<char>>,
    count: nat,
)
    ensures
        opened_before(jobs_for(uploads, parents, count)),
    decreases count,
{
    if count > 0 {
        let before = jobs_for(uploads, parents, (count - 1) as nat);
        let parent = parents[count - 1];
        let more = folder_jobs(parent, uploads_below(uploads, parent));
        let all = jobs_for(uploads, parents, count);
        jobs_open(uploads, parents, (count - 1) as nat);
        assert(all == before + more);
        assert forall|j: int| 0 <= j < all.len() && !(#[trigger] all[j]).opens implies j > 0 && all[j
            - 1].parent == all[j].parent by {
            if j < before.len() {
                assert(all[j] == before[j]);
                assert(all[j - 1] == before[j - 1]);
            } else {
                let k = j - before.len();
                assert(all[j] == more[k]);
                assert(k > 0);
                assert(all[j - 1] == more[k - 1]);
            }
        }
    }
}

spec fn folder_is_known(
    sync: SyncConfigView,
    past: Seq<(RequestView, ReplyView)>,
    folder: Seq<char>,
) -> bool {
    folder.len() == 0 || was_looked_for(sync, past, folder)
}

spec fn uploads_in_order(
    sync: SyncConfigView,
    past: Seq<(RequestView, ReplyView)>,
    run: UploadsView,
    request: RequestView,
) -> bool {
    &&& run.mirror == sync.name
    &&& run.remote == sync.remote
    &&& run.at < run.jobs.len()
    &&& opened_before(run.jobs)
    &&& goes_to_a_known_folder(sync, request, past)
    &&& {
        let folder = run.jobs[run.at as int].parent;
        folder_is_known(sync, past, folder) || (run.stage is Ensuring && request
            == RequestView::KnowsDirectory { mirror: sync.name, path: folder })
    }
}

proof fn still_known(
    sync: SyncConfigView,
    past: Seq<(RequestView, ReplyView)>,
    exchange: (RequestView, ReplyView),
    folder: Seq<char>,
)
    requires
        folder_is_known(sync, past, folder) || exchange.0 == (RequestView::KnowsDirectory {
            mirror: sync.name,
            path: folder,
        }),
    ensures
        folder_is_known(sync, past.push(exchange), folder),
{
    let more = past.push(exchange);
    if was_looked_for(sync, past, folder) {
        let j = choose|j: int|
            0 <= j < past.len() && (#[trigger] past[j]).0 == (RequestView::KnowsDirectory {
                mirror: sync.name,
                path: folder,
            });
        assert(more[j] == past[j]);
    } else if folder.len() > 0 {
        assert(more[past.len() as int] == exchange);
    }
}

proof fn begun_in_order(
    sync: SyncConfigView,
    past: Seq<(RequestView, ReplyView)>,
    run: UploadsView,
)
    requires
        run.mirror == sync.name,
        run.remote == sync.remote,
        opened_before(run.jobs),
        0 < run.at < run.jobs.len() ==> folder_is_known(
            sync,
            past,
            run.jobs[run.at - 1].parent,
        ),
    ensures
        run.begun() matches Ok(Progress::Ask(next, asked)) ==> uploads_in_order(
            sync,
            past,
            next,
            asked,
        ),
{
    if run.at < run.jobs.len() {
        let folder = run.jobs[run.at as int].parent;
        assert(drive_path(sync.remote, folder) == drive_path(run.remote, folder));
        if !run.jobs[run.at as int].opens {
            assert(run.jobs[run.at - 1].parent == folder);
        }
    }
}

proof fn uploads_go_on_in_order(
    sync: SyncConfigView,
    past: Seq<(RequestView, ReplyView)>,
    run: UploadsView,
    request: RequestView,
    reply: ReplyView,
)
    requires
        uploads_in_order(sync, past, run, request),
    ensures
        run.stepped(reply) matches Ok(Progress::Ask(next, asked)) ==> uploads_in_order(
            sync,
            past.push((request, reply)),
            next,
            asked,
        ),
{
    let more = past.push((request, reply));
    let folder = run.jobs[run.at as int].parent;
    still_known(sync, past, (request, reply), folder);
    assert(drive_path(sync.remote, folder) == drive_path(run.remote, folder));
    begun_in_order(sync, more, UploadsView { at: run.at + 1, ..run });
    if let ReplyView::Uploaded(result) = reply {
        begun_in_order(sync, more, UploadsView { at: run.at + 1, ..run.tallied(result) });
    }
    if let UploadsStage::Ensuring(ensure) = run.stage {
        ensure_steps(ensure, reply);
    }
}

/// Every upload command goes to the root, or to a folder that was looked for before.
pub proof fn folders_come_before_files(
    sync: SyncConfigView,
    uploads: Seq<PendingUpload<Seq<char>>>,
    replies: Seq<ReplyView>,
)
    ensures
        uploads_prepared(sync, uploads).begun() matches Ok(start) ==> ({
            let asked = requests(uploads_step(), start, replies);
            forall|i: int|
                #![trigger asked[i]]
                0 <= i < asked.len() ==> goes_to_a_known_folder(
                    sync,
                    asked[i],
                    exchanges(asked, replies, i as nat),
                )
        }),
{
    let run = uploads_prepared(sync, uploads);
    let parents = in_order(upload_parents(uploads));
    jobs_open(uploads, parents, parents.len());
    let none: Seq<(RequestView, ReplyView)> = Seq::empty();
    begun_in_order(sync, none, run);
    if let Ok(start) = run.begun() {
        let sound = |run: UploadsView, request: RequestView, past: Seq<(RequestView, ReplyView)>|
            uploads_in_order(sync, past, run, request);
        let fine = |request: RequestView, past: Seq<(RequestView, ReplyView)>|
            goes_to_a_known_folder(sync, request, past);
        assert forall|
            run: UploadsView,
            request: RequestView,
            past: Seq<(RequestView, ReplyView)>,
            reply: ReplyView,
        |
            #![trigger sound(run, request, past), uploads_step()(run, reply)]
            sound(run, request, past) implies (uploads_step()(run, reply) matches Ok(
            Progress::Ask(next, asked),
        ) ==> sound(next, asked, past.push((request, reply)))) by {
            uploads_go_on_in_order(sync, past, run, request, reply);
        }
        kept_with_history(uploads_step(), sound, fine, start, replies, none);
        let asked = requests(uploads_step(), start, replies);
        assert forall|i: int|
            #![trigger asked[i]]
            0 <= i < asked.len() implies goes_to_a_known_folder(
            sync,
            asked[i],
            exchanges(asked, replies, i as nat),
        ) by {
            assert(none + exchanges(asked, replies, i as nat) =~= exchanges(
                asked,
                replies,
                i as nat,
            ));
            assert(fine(asked[i], none + exchanges(asked, replies, i as nat)));
        }
    }
}

/// A local file is forgotten right after it was moved to the trash, and before the next one is.
pub proof fn a_removed_file_is_forgotten(run: RemovalView)
    requires
        run.at < run.paths.len(),
    ensures
        ({
            let path = run.paths[run.at as int];
            &&& !run.forgetting ==> (run.stepped(ReplyView::Done) matches Ok(
                Progress::Ask(next, asked),
            ) && next.forgetting && next.at == run.at && asked == RequestView::DeleteStates {
                mirror: run.mirror,
                paths: seq![path],
            })
            &&& run.forgetting && run.at + 1 < run.paths.len() ==> (run.stepped(
                ReplyView::Done,
            ) matches Ok(Progress::Ask(next, asked)) && !next.forgetting && asked
                == RequestView::TrashLocal {
                path: local_path_of(run.root, run.paths[run.at as int + 1]),
            })
            &&& run.forgetting && run.at + 1 == run.paths.len() ==> run.stepped(ReplyView::Done)
                == Ok::<Progress<RemovalView, RequestView, nat>, Fault<Seq<char>>>(
                Progress::Done(run.paths.len()),
            )
        }),
{
}

/// A look at whether the local folder and its marker are there, or at what is remembered.
pub open spec fn only_checks(request: RequestView) -> bool {
    request is IsDirectory || request is IsFile || request is LoadStates
}

proof fn unreadable_is_a_fault(sync: SyncConfigView, from: int)
    requires
        0 <= from <= sync.exclude.len(),
        forall|k: int| 0 <= k < from ==> glob_error(#[trigger] sync.exclude[k]) is None,
        !patterns_are_readable(sync),
    ensures
        first_bad_pattern(sync.exclude, from) is Some || !set_builds(sync.exclude),
    decreases sync.exclude.len() - from,
{
    if from < sync.exclude.len() && glob_error(sync.exclude[from]) is None {
        unreadable_is_a_fault(sync, from + 1);
    }
}

/// A push with exclude patterns that cannot be read does nothing but check that it could begin, and
/// does not come to a good end.
pub proof fn unreadable_patterns_stop_a_push(sync: SyncConfigView, replies: Seq<ReplyView>)
    requires
        !patterns_are_readable(sync),
    ensures
        !(ending(push_step(), push_started(sync), replies) matches Some(Ok(_))),
        forall|i: int|
            0 <= i < push_requests(sync, replies).len() ==> only_checks(
                #[trigger] push_requests(sync, replies)[i],
            ),
{
    unreadable_is_a_fault(sync, 0);
    assert(excludes_fault(sync.name, sync.exclude) is Some);
    let good = |request: RequestView| only_checks(request);
    let checking = |run: PushView, request: RequestView|
        run.sync == sync && run.stage is Checking && only_checks(request);
    assert forall|run: PushView, request: RequestView, reply: ReplyView|
        #![trigger checking(run, request), push_step()(run, reply)]
        checking(run, request) implies (push_step()(run, reply) matches Ok(
        Progress::Ask(next, asked),
    ) ==> checking(next, asked)) by {}
    kept_by_steps(push_step(), checking, good, push_started(sync), replies);
    kept_to_the_end(
        push_step(),
        |run: PushView| run.sync == sync && run.stage is Checking,
        |summary: SummaryView| false,
        push_started(sync),
        replies,
    );
    let asked = push_requests(sync, replies);
    assert forall|i: int| 0 <= i < asked.len() implies only_checks(#[trigger] asked[i]) by {
        assert(good(requests(push_step(), push_started(sync), replies)[i]));
    }
}

/// A pull with exclude patterns that cannot be read does nothing but check that it could begin, and
/// does not come to a good end.
pub proof fn unreadable_patterns_stop_a_pull(sync: SyncConfigView, replies: Seq<ReplyView>)
    requires
        !patterns_are_readable(sync),
    ensures
        !(ending(pull_step(), pull_started(sync), replies) matches Some(Ok(_))),
        forall|i: int|
            0 <= i < pull_requests(sync, replies).len() ==> only_checks(
                #[trigger] pull_requests(sync, replies)[i],
            ),
{
    unreadable_is_a_fault(sync, 0);
    assert(excludes_fault(sync.name, sync.exclude) is Some);
    let good = |request: RequestView| only_checks(request);
    let checking = |run: PullView, request: RequestView|
        run.sync == sync && run.stage is Checking && only_checks(request);
    assert forall|run: PullView, request: RequestView, reply: ReplyView|
        #![trigger checking(run, request), pull_step()(run, reply)]
        checking(run, request) implies (pull_step()(run, reply) matches Ok(
        Progress::Ask(next, asked),
    ) ==> checking(next, asked)) by {}
    kept_by_steps(pull_step(), checking, good, pull_started(sync), replies);
    kept_to_the_end(
        pull_step(),
        |run: PullView| run.sync == sync && run.stage is Checking,
        |summary: SummaryView| false,
        pull_started(sync),
        replies,
    );
    let asked = pull_requests(sync, replies);
    assert forall|i: int| 0 <= i < asked.len() implies only_checks(#[trigger] asked[i]) by {
        assert(good(requests(pull_step(), pull_started(sync), replies)[i]));
    }
}

/// A two-way sync with exclude patterns that cannot be read does nothing but check that it could
/// begin, and does not come to a good end.
pub proof fn unreadable_patterns_stop_a_two_way_sync(sync: SyncConfigView, replies: Seq<ReplyView>)
    requires
        !patterns_are_readable(sync),
    ensures
        !(ending(two_way_step(), two_way_started(sync), replies) matches Some(Ok(_))),
        forall|i: int|
            0 <= i < two_way_requests(sync, replies).len() ==> only_checks(
                #[trigger] two_way_requests(sync, replies)[i],
            ),
{
    unreadable_is_a_fault(sync, 0);
    assert(excludes_fault(sync.name, sync.exclude) is Some);
    let good = |request: RequestView| only_checks(request);
    let checking = |run: TwoWayRun, request: RequestView|
        run.sync == sync && (run.stage is Checking || run.stage is LoadingStates) && only_checks(
            request,
        );
    assert forall|run: TwoWayRun, request: RequestView, reply: ReplyView|
        #![trigger checking(run, request), two_way_step()(run, reply)]
        checking(run, request) implies (two_way_step()(run, reply) matches Ok(
        Progress::Ask(next, asked),
    ) ==> checking(next, asked)) by {}
    kept_by_steps(two_way_step(), checking, good, two_way_started(sync), replies);
    kept_to_the_end(
        two_way_step(),
        |run: TwoWayRun| run.sync == sync && (run.stage is Checking || run.stage is LoadingStates),
        |summary: SummaryView| false,
        two_way_started(sync),
        replies,
    );
    let asked = two_way_requests(sync, replies);
    assert forall|i: int| 0 <= i < asked.len() implies only_checks(#[trigger] asked[i]) by {
        assert(good(requests(two_way_step(), two_way_started(sync), replies)[i]));
    }
}

/// The step function of a fetch.
pub open spec fn fetch_step() -> Step<FetchView, FetchedView> {
    |run: FetchView, reply: ReplyView| run.stepped(reply)
}

/// A download is begun only for a file that has no local one at its place, or whose local one was just
/// found to have another digest or has another size.
pub open spec fn is_worth_a_download(
    sync: SyncConfigView,
    items: Seq<FetchItemView>,
    request: RequestView,
    past: Seq<(RequestView, ReplyView)>,
) -> bool {
    request matches RequestView::Stage { target } ==> exists|k: int|
        {
            &&& 0 <= k < items.len()
            &&& target == local_path_of(sync.local, (#[trigger] items[k]).path)
            &&& items[k].local is None || was_found_different(target, items[k], past)
        }
}

/// A local file was just hashed, and is not the remote file.
pub open spec fn was_found_different(
    target: Seq<char>,
    item: FetchItemView,
    past: Seq<(RequestView, ReplyView)>,
) -> bool {
    &&& past.len() > 0
    &&& past.last().0 == RequestView::Hash { path: target }
    &&& past.last().1 matches ReplyView::Digest(digest)
    &&& !same_digest(digest, item.file.sha1) || item.local->0.size != item.file.claimed_size
}

spec fn fetch_compares(
    sync: SyncConfigView,
    items: Seq<FetchItemView>,
    run: FetchView,
    request: RequestView,
    past: Seq<(RequestView, ReplyView)>,
) -> bool {
    &&& run.sync == sync
    &&& run.items == items
    &&& is_worth_a_download(sync, items, request, past)
    &&& run.stage is Hashing ==> run.at < items.len() && request == (RequestView::Hash {
        path: local_path_of(sync.local, items[run.at as int].path),
    })
}

proof fn fetch_advances_comparing(
    sync: SyncConfigView,
    items: Seq<FetchItemView>,
    run: FetchView,
    size: u64,
    mtime_ns: i64,
    past: Seq<(RequestView, ReplyView)>,
)
    requires
        run.sync == sync,
        run.items == items,
    ensures
        run.advanced() matches Ok(Progress::Ask(next, asked)) ==> fetch_compares(
            sync,
            items,
            next,
            asked,
            past,
        ),
        run.recorded(size, mtime_ns) matches Ok(Progress::Ask(next, asked)) ==> fetch_compares(
            sync,
            items,
            next,
            asked,
            past,
        ),
{
    if run.at < items.len() {
        assert(items[run.at as int] == run.items[run.at as int]);
    }
    if run.at + 1 < items.len() {
        assert(items[run.at as int + 1] == run.items[run.at as int + 1]);
    }
}

proof fn fetch_goes_on_comparing(
    sync: SyncConfigView,
    items: Seq<FetchItemView>,
    run: FetchView,
    request: RequestView,
    reply: ReplyView,
    past: Seq<(RequestView, ReplyView)>,
)
    requires
        fetch_compares(sync, items, run, request, past),
    ensures
        run.stepped(reply) matches Ok(Progress::Ask(next, asked)) ==> fetch_compares(
            sync,
            items,
            next,
            asked,
            past.push((request, reply)),
        ),
{
    let more = past.push((request, reply));
    assert(more.last() == (request, reply));
    fetch_advances_comparing(sync, items, run, 0, 0, more);
    if run.at < items.len() {
        let item = items[run.at as int];
        if let ReplyView::Digest(digest) = reply {
            digests_ignore_case(digest, item.file.sha1);
        }
        if let Some(local) = item.local {
            let next = FetchView {
                fetched: FetchedView {
                    unchanged: run.fetched.unchanged.push(item.path),
                    ..run.fetched
                },
                ..run
            };
            fetch_advances_comparing(sync, items, next, local.size, local.mtime_ns, more);
        }
        if let FetchStage::Downloading(download) = run.stage {
            if let Ok(Progress::Done(local)) = download.stepped(reply) {
                let next = FetchView {
                    fetched: FetchedView {
                        downloaded: run.fetched.downloaded.push(item.path),
                        ..run.fetched
                    },
                    ..run
                };
                fetch_advances_comparing(sync, items, next, local.size, local.mtime_ns, more);
            }
        }
    }
}

/// A file is compared before it is fetched: a download is begun only where there is no local file, or
/// where the local file was hashed right before and is not the remote one.
pub proof fn files_are_compared_before_they_are_fetched(
    sync: SyncConfigView,
    items: Seq<FetchItemView>,
    replies: Seq<ReplyView>,
)
    ensures
        fetch_prepared(sync, items).advanced() matches Ok(start) ==> ({
            let asked = requests(fetch_step(), start, replies);
            forall|i: int|
                #![trigger asked[i]]
                0 <= i < asked.len() ==> is_worth_a_download(
                    sync,
                    items,
                    asked[i],
                    exchanges(asked, replies, i as nat),
                )
        }),
{
    let run = fetch_prepared(sync, items);
    let none: Seq<(RequestView, ReplyView)> = Seq::empty();
    fetch_advances_comparing(sync, items, run, 0, 0, none);
    if let Ok(start) = run.advanced() {
        let sound = |run: FetchView, request: RequestView, past: Seq<(RequestView, ReplyView)>|
            fetch_compares(sync, items, run, request, past);
        let fine = |request: RequestView, past: Seq<(RequestView, ReplyView)>|
            is_worth_a_download(sync, items, request, past);
        assert forall|
            run: FetchView,
            request: RequestView,
            past: Seq<(RequestView, ReplyView)>,
            reply: ReplyView,
        |
            #![trigger sound(run, request, past), fetch_step()(run, reply)]
            sound(run, request, past) implies (fetch_step()(run, reply) matches Ok(
            Progress::Ask(next, asked),
        ) ==> sound(next, asked, past.push((request, reply)))) by {
            fetch_goes_on_comparing(sync, items, run, request, reply, past);
        }
        kept_with_history(fetch_step(), sound, fine, start, replies, none);
        let asked = requests(fetch_step(), start, replies);
        assert forall|i: int|
            #![trigger asked[i]]
            0 <= i < asked.len() implies is_worth_a_download(
            sync,
            items,
            asked[i],
            exchanges(asked, replies, i as nat),
        ) by {
            assert(none + exchanges(asked, replies, i as nat) =~= exchanges(
                asked,
                replies,
                i as nat,
            ));
            assert(fine(asked[i], none + exchanges(asked, replies, i as nat)));
        }
    }
}

/// A pull fetches each of the remote files with the local file at the same path, if there is one, to
/// compare it with.
pub proof fn what_a_pull_compares(
    paths: Seq<Seq<char>>,
    tree: RemoteTreeView,
    files: Map<Seq<char>, LocalFile<Seq<char>>>,
    k: int,
)
    requires
        0 <= k < paths.len(),
    ensures
        fetch_items(paths, tree, files).len() == paths.len(),
        ({
            let item = fetch_items(paths, tree, files)[k];
            &&& item.path == paths[k]
            &&& item.file == tree.files[paths[k]]
            &&& files.contains_key(paths[k]) ==> item.local == Some(files[paths[k]])
            &&& !files.contains_key(paths[k]) ==> item.local is None
        }),
{
}

} // verus!
