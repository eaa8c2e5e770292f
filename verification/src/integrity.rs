//! Nothing is put in its place that was not verified.

use crate::config::SyncConfigView;
use crate::download::DownloadStage;
use crate::drive::RemoteFileView;
use crate::exchange::{Progress, ReplyView, RequestView};
use crate::fetch::{fetch_prepared, FetchItemView, FetchStage, FetchView};
use crate::inventory::RemoteTreeView;
use crate::plan::{two_way_view, LocalSnapshot, TwoWayAction};
use crate::pull::{fetch_items, pulled_paths, PullStageView, PullView};
use crate::pull_laws::pull_step;
use crate::scan::{local_path_of, ScannedView};
use crate::soundness::uploads_ask;
use crate::state::FileState;
use crate::text::same_ignoring_case;
use crate::trace::{asked_for_two_reasons, requests, second_request};
use crate::two_way::{unexcluded, work_for, TwoWayRun, TwoWayStageView};
use crate::two_way_laws::two_way_step;
use crate::uploads::{uploads_prepared, UploadsView};
use vstd::prelude::*;

verus! {

/// A file that is put in the place of a remote file with the `i`-th request of a run, right after
/// what was downloaded was found to have the size and the digest of that file.
pub open spec fn verified_install(
    sync: SyncConfigView,
    path: Seq<char>,
    file: RemoteFileView,
    asked: Seq<RequestView>,
    replies: Seq<ReplyView>,
    i: int,
) -> bool {
    &&& 1 < i <= replies.len()
    &&& verified(sync, path, file, asked[i - 2], replies[i - 2], asked[i - 1], replies[i - 1], asked[i])
}

/// A file that is put in the place of a remote file, after a request for the size and a request for
/// the digest of what is put there, and replies that are those of the remote file.
pub open spec fn verified(
    sync: SyncConfigView,
    path: Seq<char>,
    file: RemoteFileView,
    measure: RequestView,
    measured: ReplyView,
    hash: RequestView,
    hashed: ReplyView,
    request: RequestView,
) -> bool {
    &&& request matches RequestView::Install { staged, target }
    &&& target == local_path_of(sync.local, path)
    &&& measure == RequestView::Stat { path: staged }
    &&& measured matches ReplyView::Stat(stat)
    &&& stat.size == file.claimed_size
    &&& hash == RequestView::Hash { path: staged }
    &&& hashed matches ReplyView::Digest(digest)
    &&& same_ignoring_case(digest, file.sha1)
}

spec fn downloads_at_hand(run: FetchView, sync: SyncConfigView, items: Seq<FetchItemView>) -> bool {
    &&& run.sync == sync
    &&& run.items == items
    &&& run.stage matches FetchStage::Downloading(download) ==> run.at < items.len()
        && download.target == local_path_of(sync.local, items[run.at as int].path) && download.file
        == items[run.at as int].file
}

spec fn not_yet_staged(run: FetchView) -> bool {
    run.stage matches FetchStage::Downloading(download) ==> download.stage is Staging
}

spec fn verifying(
    run: FetchView,
    before: RequestView,
    answer: ReplyView,
    request: RequestView,
) -> bool {
    run.stage matches FetchStage::Downloading(download) ==> match download.stage {
        DownloadStage::Measuring { staged } => request == RequestView::Stat { path: staged },
        DownloadStage::Hashing { staged } => {
            &&& before == RequestView::Stat { path: staged }
            &&& answer matches ReplyView::Stat(stat)
            &&& stat.size == download.file.claimed_size
            &&& request == RequestView::Hash { path: staged }
        },
        _ => true,
    }
}

spec fn verified_among(
    sync: SyncConfigView,
    items: Seq<FetchItemView>,
    measure: RequestView,
    measured: ReplyView,
    hash: RequestView,
    hashed: ReplyView,
    request: RequestView,
) -> bool {
    request is Install ==> exists|k: int|
        0 <= k < items.len() && verified(
            sync,
            (#[trigger] items[k]).path,
            items[k].file,
            measure,
            measured,
            hash,
            hashed,
            request,
        )
}

proof fn advanced_fetch_stages(run: FetchView, sync: SyncConfigView, items: Seq<FetchItemView>)
    requires
        run.sync == sync,
        run.items == items,
    ensures
        run.advanced() matches Ok(Progress::Ask(next, asked)) ==> downloads_at_hand(
            next,
            sync,
            items,
        ) && not_yet_staged(next) && asked !is Install,
{
}

proof fn fetch_stages(
    run: FetchView,
    sync: SyncConfigView,
    items: Seq<FetchItemView>,
    request: RequestView,
    reply: ReplyView,
)
    requires
        downloads_at_hand(run, sync, items),
        not_yet_staged(run),
    ensures
        run.stepped(reply) matches Ok(Progress::Ask(next, asked)) ==> downloads_at_hand(
            next,
            sync,
            items,
        ) && verifying(next, request, reply, asked) && asked !is Install,
{
}

proof fn fetch_verifies(
    run: FetchView,
    sync: SyncConfigView,
    items: Seq<FetchItemView>,
    before: RequestView,
    answer: ReplyView,
    request: RequestView,
    reply: ReplyView,
)
    requires
        downloads_at_hand(run, sync, items),
        verifying(run, before, answer, request),
    ensures
        run.stepped(reply) matches Ok(Progress::Ask(next, asked)) ==> {
            &&& downloads_at_hand(next, sync, items)
            &&& verifying(next, request, reply, asked)
            &&& verified_among(sync, items, before, answer, request, reply, asked)
        },
{
    if run.stepped(reply) matches Ok(Progress::Ask(_, asked)) && asked is Install {
        let item = items[run.at as int];
        assert(verified(
            sync,
            item.path,
            item.file,
            before,
            answer,
            request,
            reply,
            run.stepped(reply)->Ok_0->Ask_1,
        ));
    }
}

/// Whatever a pull puts in its place was verified: it is the place of a remote file, and the size
/// and the digest of what was downloaded are those of that file.
pub proof fn pulled_content_is_verified(
    sync: SyncConfigView,
    scanned: ScannedView,
    tree: RemoteTreeView,
    replies: Seq<ReplyView>,
    i: int,
)
    requires
        PullView::listed(sync, scanned, tree) is Ok,
        ({
            let asked = requests(pull_step(), PullView::listed(sync, scanned, tree)->Ok_0, replies);
            0 <= i < asked.len() && asked[i] is Install
        }),
    ensures
        ({
            let asked = requests(pull_step(), PullView::listed(sync, scanned, tree)->Ok_0, replies);
            exists|path: Seq<char>|
                pulled_paths(scanned.patterns, tree).contains(path) && #[trigger] verified_install(
                    sync,
                    path,
                    tree.files[path],
                    asked,
                    replies,
                    i,
                )
        }),
{
    let start = PullView::listed(sync, scanned, tree)->Ok_0;
    let paths = pulled_paths(scanned.patterns, tree);
    let items = fetch_items(paths, tree, scanned.files);
    let step = pull_step();
    let asked = requests(step, start, replies);
    advanced_fetch_stages(fetch_prepared(sync, items), sync, items);
    let first = |run: PullView, request: RequestView|
        request !is Install && match run.stage {
            PullStageView::Fetching { fetch, .. } => downloads_at_hand(fetch, sync, items)
                && not_yet_staged(fetch),
            PullStageView::Removing { .. } => true,
            PullStageView::Forgetting { .. } => true,
            _ => false,
        };
    let sound = |run: PullView, before: RequestView, answer: ReplyView, request: RequestView|
        match run.stage {
            PullStageView::Fetching { fetch, .. } => downloads_at_hand(fetch, sync, items)
                && verifying(fetch, before, answer, request),
            PullStageView::Removing { .. } => true,
            PullStageView::Forgetting { .. } => true,
            _ => false,
        };
    let reason = |
        before: RequestView,
        answer: ReplyView,
        request: RequestView,
        reply: ReplyView,
        asked: RequestView,
    |
        verified_among(sync, items, before, answer, request, reply, asked);
    assert forall|run: PullView, request: RequestView, reply: ReplyView|
        #![trigger first(run, request), step(run, reply)]
        first(run, request) implies (step(run, reply) matches Ok(Progress::Ask(next, asked))
        ==> sound(next, request, reply, asked) && asked !is Install) by {
        if let PullStageView::Fetching { fetch, .. } = run.stage {
            fetch_stages(fetch, sync, items, request, reply);
        }
    }
    assert forall|
        run: PullView,
        before: RequestView,
        answer: ReplyView,
        request: RequestView,
        reply: ReplyView,
    |
        #![trigger sound(run, before, answer, request), step(run, reply)]
        sound(run, before, answer, request) implies (step(run, reply) matches Ok(
        Progress::Ask(next, asked),
    ) ==> sound(next, request, reply, asked) && reason(before, answer, request, reply, asked)) by {
        if let PullStageView::Fetching { fetch, .. } = run.stage {
            fetch_verifies(fetch, sync, items, before, answer, request, reply);
        }
    }
    asked_for_two_reasons(step, first, sound, reason, start, replies);
    assert(first(start->Ask_0, start->Ask_1));
    assert(asked[0] == start->Ask_1);
    if i == 1 {
        second_request(step, start, replies);
    }
    assert(reason(asked[i - 2], replies[i - 2], asked[i - 1], replies[i - 1], asked[i]));
    let k = choose|k: int|
        0 <= k < items.len() && verified(
            sync,
            (#[trigger] items[k]).path,
            items[k].file,
            asked[i - 2],
            replies[i - 2],
            asked[i - 1],
            replies[i - 1],
            asked[i],
        );
    assert(paths.contains(paths[k]));
    assert(verified_install(sync, paths[k], tree.files[paths[k]], asked, replies, i));
}

proof fn downloads_come_from(
    mirror: Seq<char>,
    local: Map<Seq<char>, LocalSnapshot<Seq<char>>>,
    remote: Map<Seq<char>, RemoteFileView>,
    actions: Seq<TwoWayAction<Seq<char>>>,
)
    ensures
        forall|k: int|
            0 <= k < work_for(mirror, local, remote, actions).downloads.len() ==> {
                let item = #[trigger] work_for(mirror, local, remote, actions).downloads[k];
                &&& item.file == remote[item.path]
                &&& actions.contains(TwoWayAction::Download { path: item.path })
            },
    decreases actions.len(),
{
    if actions.len() > 0 {
        let before = work_for(mirror, local, remote, actions.drop_last());
        let work = work_for(mirror, local, remote, actions);
        downloads_come_from(mirror, local, remote, actions.drop_last());
        assert forall|k: int| 0 <= k < work.downloads.len() implies {
            let item = #[trigger] work.downloads[k];
            &&& item.file == remote[item.path]
            &&& actions.contains(TwoWayAction::Download { path: item.path })
        } by {
            if k < before.downloads.len() {
                assert(work.downloads[k] == before.downloads[k]);
                let action = TwoWayAction::Download { path: before.downloads[k].path };
                let j = choose|j: int|
                    0 <= j < actions.drop_last().len() && actions.drop_last()[j] == action;
                assert(actions[j] == action);
            } else {
                assert(actions[actions.len() - 1] == actions.last());
            }
        }
    }
}

proof fn begun_uploads_install_nothing(run: UploadsView)
    ensures
        run.begun() matches Ok(Progress::Ask(_, asked)) ==> asked !is Install,
{
}

/// Whatever a two-way sync puts in its place was verified: its plan is to download there, and the
/// size and the digest of what was downloaded are those of the remote file.
pub proof fn fetched_content_is_verified(
    sync: SyncConfigView,
    states: Map<Seq<char>, FileState<Seq<char>>>,
    scanned: ScannedView,
    local: Map<Seq<char>, LocalSnapshot<Seq<char>>>,
    tree: RemoteTreeView,
    replies: Seq<ReplyView>,
    i: int,
)
    requires
        TwoWayRun::listed(sync, states, scanned, local, tree) is Ok,
        ({
            let start = TwoWayRun::listed(sync, states, scanned, local, tree)->Ok_0;
            let asked = requests(two_way_step(), start, replies);
            0 <= i < asked.len() && asked[i] is Install
        }),
    ensures
        ({
            let start = TwoWayRun::listed(sync, states, scanned, local, tree)->Ok_0;
            let asked = requests(two_way_step(), start, replies);
            let remote = unexcluded(scanned.patterns, tree.files);
            exists|path: Seq<char>|
                {
                    &&& two_way_view(sync, local, remote, states).plan()->Ok_0.contains(
                        TwoWayAction::Download { path },
                    )
                    &&& #[trigger] verified_install(sync, path, remote[path], asked, replies, i)
                }
        }),
{
    let start = TwoWayRun::listed(sync, states, scanned, local, tree)->Ok_0;
    let remote = unexcluded(scanned.patterns, tree.files);
    let actions = two_way_view(sync, local, remote, states).plan()->Ok_0;
    let work = work_for(sync.name, local, remote, actions);
    let items = work.downloads;
    let step = two_way_step();
    let asked = requests(step, start, replies);
    downloads_come_from(sync.name, local, remote, actions);
    advanced_fetch_stages(fetch_prepared(sync, items), sync, items);
    begun_uploads_install_nothing(uploads_prepared(sync, work.uploads));
    let first = |run: TwoWayRun, request: RequestView|
        request !is Install && run.sync == sync && match run.stage {
            TwoWayStageView::Committing { downloads, .. } => downloads == items,
            TwoWayStageView::Uploading { downloads, .. } => downloads == items,
            TwoWayStageView::Fetching { fetch, .. } => downloads_at_hand(fetch, sync, items)
                && not_yet_staged(fetch),
            TwoWayStageView::Trashing { .. } => true,
            TwoWayStageView::Removing { .. } => true,
            _ => false,
        };
    let sound = |run: TwoWayRun, before: RequestView, answer: ReplyView, request: RequestView|
        run.sync == sync && match run.stage {
            TwoWayStageView::Committing { downloads, .. } => downloads == items,
            TwoWayStageView::Uploading { downloads, .. } => downloads == items,
            TwoWayStageView::Fetching { fetch, .. } => downloads_at_hand(fetch, sync, items)
                && verifying(fetch, before, answer, request),
            TwoWayStageView::Trashing { .. } => true,
            TwoWayStageView::Removing { .. } => true,
            _ => false,
        };
    let reason = |
        before: RequestView,
        answer: ReplyView,
        request: RequestView,
        reply: ReplyView,
        asked: RequestView,
    |
        verified_among(sync, items, before, answer, request, reply, asked);
    assert forall|run: TwoWayRun, request: RequestView, reply: ReplyView|
        #![trigger first(run, request), step(run, reply)]
        first(run, request) implies (step(run, reply) matches Ok(Progress::Ask(next, asked))
        ==> sound(next, request, reply, asked) && asked !is Install) by {
        match run.stage {
            TwoWayStageView::Committing { pending, .. } => begun_uploads_install_nothing(
                uploads_prepared(sync, pending),
            ),
            TwoWayStageView::Uploading { uploads, .. } => uploads_ask(uploads, reply),
            TwoWayStageView::Fetching { fetch, .. } => fetch_stages(
                fetch,
                sync,
                items,
                request,
                reply,
            ),
            _ => {},
        }
    }
    assert forall|
        run: TwoWayRun,
        before: RequestView,
        answer: ReplyView,
        request: RequestView,
        reply: ReplyView,
    |
        #![trigger sound(run, before, answer, request), step(run, reply)]
        sound(run, before, answer, request) implies (step(run, reply) matches Ok(
        Progress::Ask(next, asked),
    ) ==> sound(next, request, reply, asked) && reason(before, answer, request, reply, asked)) by {
        match run.stage {
            TwoWayStageView::Committing { pending, .. } => begun_uploads_install_nothing(
                uploads_prepared(sync, pending),
            ),
            TwoWayStageView::Uploading { uploads, .. } => uploads_ask(uploads, reply),
            TwoWayStageView::Fetching { fetch, .. } => fetch_verifies(
                fetch,
                sync,
                items,
                before,
                answer,
                request,
                reply,
            ),
            _ => {},
        }
    }
    asked_for_two_reasons(step, first, sound, reason, start, replies);
    assert(first(start->Ask_0, start->Ask_1));
    assert(asked[0] == start->Ask_1);
    if i == 1 {
        second_request(step, start, replies);
    }
    assert(reason(asked[i - 2], replies[i - 2], asked[i - 1], replies[i - 1], asked[i]));
    let k = choose|k: int|
        0 <= k < items.len() && verified(
            sync,
            (#[trigger] items[k]).path,
            items[k].file,
            asked[i - 2],
            replies[i - 2],
            asked[i - 1],
            replies[i - 1],
            asked[i],
        );
    assert(verified_install(sync, items[k].path, remote[items[k].path], asked, replies, i));
}

} // verus!
