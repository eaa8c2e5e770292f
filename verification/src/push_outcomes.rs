//! What a push does, told the world as it is.

use crate::cleanup::{cleanup_prepared, CleanupView, TrashItemView};
use crate::config::{DeletePolicy, SyncConfigView};
use crate::drive::RemoteFileView;
use crate::exchange::{Progress, ReplyView, RequestView};
use crate::excludes::{excluded, managed, managed_contains};
use crate::inventory::RemoteTreeView;
use crate::inventory_laws::{inventory_starts_told, inventory_stays_told, inventory_told, tree_told};
use crate::plan::LocalFile;
use crate::pull_laws::unseen_comes_from;
use crate::push::{changed_among, changed_files, doomed, items_at, push_started, PushBaseView};
use crate::push::{PushOutcome, PushStageView, PushView};
use crate::push_laws::push_step;
use crate::scan::ScannedView;
use crate::scan_laws::{scan_starts_told, scan_stays_told, scan_told, scanned_told};
use crate::soundness::{inventory_asks, scan_asks};
use crate::state::unseen;
use crate::summary::SummaryView;
use crate::text::{in_order, in_order_is_ordered, in_order_keeps_count, text_lt};
use crate::text::text_lt_irreflexive;
use crate::trace::{ending, kept_when_told, requests, settled_when_told};
use crate::uploads::{uploads_prepared, PendingUpload};
use crate::work_laws::{cleanup_goes_on_owing, cleanup_starts_doomed, doomed_cleanup};
use crate::work_laws::{doomed_cleanup_begins, doomed_cleanup_goes_on, owes_item, owes_path};
use crate::work_laws::{path_of_doomed, prepared_cleanup_owes_item, prepared_uploads_owe_path};
use crate::work_laws::{saved_as_wanted, sends_path, sent_as_wanted, trashed_as_doomed};
use crate::work_laws::{trashes_item, uploads_go_on_owing, uploads_start_wanted, wanted_uploads};
use crate::work_laws::{wanted_uploads_begin, wanted_uploads_go_on};
use crate::world::{all_told, described, left_alone, local_file_at, one_place_each, remote_file_at};
use crate::world::{stat_at, told, World};
use vstd::prelude::*;

verus! {

/// Whether a local file is to be sent: nothing is remembered of it, or another size, or another
/// modification time.
pub open spec fn to_be_sent(world: World, sync: SyncConfigView, path: Seq<char>) -> bool {
    let stat = stat_at(world, sync, path);
    &&& local_file_at(world, sync, path)
    &&& {
        ||| !world.states.contains_key(path)
        ||| world.states[path].size != stat.size
        ||| !(stat.modified matches Some((seconds, nanos)) && world.states[path].mtime_ns == seconds
            * 1_000_000_000 + nanos)
    }
}

/// An upload of a push: a local file that is to be sent, as it is, with no digest.
pub open spec fn is_upload(world: World, sync: SyncConfigView) -> spec_fn(
    PendingUpload<Seq<char>>,
) -> bool {
    |upload: PendingUpload<Seq<char>>|
        {
            &&& described(world, sync, upload.file.relative, upload.file)
            &&& to_be_sent(world, sync, upload.file.relative)
            &&& upload.checkpoint_sha1 is None
        }
}

/// Whether a remote file is to go: deletions are carried over, it is not left alone, there is no
/// local file at its path, and it was pushed before or the remote tree was never compared.
pub open spec fn to_be_trashed(
    world: World,
    sync: SyncConfigView,
    path: Seq<char>,
    file: RemoteFileView,
) -> bool {
    &&& sync.delete == DeletePolicy::Trash
    &&& remote_file_at(world, sync, path, file)
    &&& !left_alone(sync, path)
    &&& !local_file_at(world, sync, path)
    &&& world.known.contains(path) || world.baseline != Some("1"@)
}

/// A remote file that is to go.
pub open spec fn is_gone(world: World, sync: SyncConfigView) -> spec_fn(TrashItemView) -> bool {
    |item: TrashItemView| to_be_trashed(world, sync, item.path, item.file)
}

/// Whether a path is to be forgotten without more: it is remembered, but there is no local file, and
/// if deletions are carried over no remote file either. Paths that are left alone are not forgotten.
pub open spec fn to_be_forgotten(world: World, sync: SyncConfigView, path: Seq<char>) -> bool {
    &&& world.known.contains(path)
    &&& !local_file_at(world, sync, path)
    &&& !left_alone(sync, path)
    &&& sync.delete == DeletePolicy::Trash && one_place_each(world, sync) ==> forall|
        file: RemoteFileView,
    | !#[trigger] remote_file_at(world, sync, path, file)
}

/// What a push may ask for.
pub open spec fn push_asks(world: World, sync: SyncConfigView, request: RequestView) -> bool {
    match request {
        RequestView::Upload { files, parent } => forall|k: int|
            0 <= k < files.len() ==> sent_as_wanted(
                sync,
                #[trigger] files[k],
                parent,
                is_upload(world, sync),
            ),
        RequestView::Commit { checkpoints } => forall|k: int|
            0 <= k < checkpoints.len() ==> saved_as_wanted(
                sync,
                #[trigger] checkpoints[k],
                is_upload(world, sync),
            ),
        RequestView::TrashRemote { targets } => forall|k: int|
            0 <= k < targets.len() ==> trashed_as_doomed(
                sync,
                #[trigger] targets[k],
                is_gone(world, sync),
            ),
        RequestView::DeleteStates { mirror, paths } => mirror == sync.name && forall|k: int|
            0 <= k < paths.len() ==> path_of_doomed(#[trigger] paths[k], is_gone(world, sync))
                || to_be_forgotten(world, sync, paths[k]),
        RequestView::LoadStates { mirror } => mirror == sync.name,
        RequestView::StatePaths { mirror } => mirror == sync.name,
        RequestView::LoadMetadata { key } => key == "baseline:"@ + sync.name,
        RequestView::SaveMetadata { key, value } => key == "baseline:"@ + sync.name && value
            == "1"@,
        RequestView::Install { .. } => false,
        RequestView::TrashLocal { .. } => false,
        RequestView::Hash { .. } => false,
        RequestView::Stage { .. } => false,
        RequestView::Download { .. } => false,
        RequestView::LoadState { .. } => false,
        _ => true,
    }
}

spec fn base_told(world: World, sync: SyncConfigView, base: PushBaseView) -> bool {
    &&& scanned_told(world, sync, base.scanned)
    &&& base.baseline == (world.baseline == Some("1"@))
    &&& base.tree is Some == (!base.baseline && sync.delete == DeletePolicy::Trash)
    &&& base.tree matches Some(tree) ==> tree_told(world, sync, tree)
}

spec fn gone_items(world: World, sync: SyncConfigView, items: Seq<TrashItemView>) -> bool {
    forall|k: int| 0 <= k < items.len() ==> is_gone(world, sync)(#[trigger] items[k])
}

spec fn push_told(world: World, sync: SyncConfigView, run: PushView, request: RequestView) -> bool {
    &&& run.sync == sync
    &&& push_asks(world, sync, request)
    &&& match run.stage {
        PushStageView::Checking(_) => true,
        PushStageView::Scanning(scan) => scan_told(world, sync, scan, request),
        PushStageView::LoadingStates { scanned } => scanned_told(world, sync, scanned)
            && request is LoadStates,
        PushStageView::LoadingBaseline { scanned, states } => {
            &&& scanned_told(world, sync, scanned)
            &&& states == world.states
            &&& request is LoadMetadata
        },
        PushStageView::Comparing { scanned, states, inventory } => {
            &&& scanned_told(world, sync, scanned)
            &&& states == world.states
            &&& world.baseline != Some("1"@)
            &&& sync.delete == DeletePolicy::Trash
            &&& inventory_told(world, sync, inventory, request)
        },
        PushStageView::Uploading { base, uploads } => base_told(world, sync, base)
            && wanted_uploads(sync, uploads, is_upload(world, sync)),
        PushStageView::ListingStale { base } => base_told(world, sync, base)
            && request is StatePaths,
        PushStageView::Locating { base, stale, inventory } => {
            &&& base_told(world, sync, base)
            &&& sync.delete == DeletePolicy::Trash
            &&& stale == unseen(world.known, base.scanned.files.dom())
            &&& inventory_told(world, sync, inventory, request)
        },
        PushStageView::Forgetting { items, .. } => gone_items(world, sync, items),
        PushStageView::Trashing { cleanup, .. } => doomed_cleanup(
            sync,
            cleanup,
            is_gone(world, sync),
        ),
        PushStageView::Finishing { .. } => true,
    }
}

spec fn goes_on_told(world: World, sync: SyncConfigView, outcome: PushOutcome) -> bool {
    outcome matches Ok(Progress::Ask(next, asked)) ==> push_told(world, sync, next, asked)
}

/// Whether a path is excluded says nothing but that some pattern matches it.
pub proof fn excluded_is_left_alone(sync: SyncConfigView, path: Seq<char>)
    ensures
        excluded(sync.exclude, path) <==> left_alone(sync, path),
{
}

proof fn changed_are_uploads(
    world: World,
    sync: SyncConfigView,
    files: Map<Seq<char>, LocalFile<Seq<char>>>,
    paths: Seq<Seq<char>>,
    count: nat,
)
    requires
        count <= paths.len(),
        forall|path: Seq<char>| #[trigger]
            files.contains_key(path) ==> described(world, sync, path, files[path])
                && local_file_at(world, sync, path),
        forall|k: int| 0 <= k < paths.len() ==> files.contains_key(#[trigger] paths[k]),
    ensures
        forall|u: int|
            0 <= u < changed_among(files, world.states, paths, count).len() ==> is_upload(
                world,
                sync,
            )(#[trigger] changed_among(files, world.states, paths, count)[u]),
        forall|k: int|
            0 <= k < count && to_be_sent(world, sync, #[trigger] paths[k]) ==> changed_among(
                files,
                world.states,
                paths,
                count,
            ).contains(PendingUpload { file: files[paths[k]], checkpoint_sha1: None }),
    decreases count,
{
    if count > 0 {
        let all = changed_among(files, world.states, paths, count);
        let rest = changed_among(files, world.states, paths, (count - 1) as nat);
        let path = paths[count - 1];
        changed_are_uploads(world, sync, files, paths, (count - 1) as nat);
        assert(files.contains_key(path));
        assert(described(world, sync, path, files[path]));
        assert forall|u: int| 0 <= u < all.len() implies is_upload(world, sync)(
            #[trigger] all[u],
        ) by {
            if u < rest.len() {
                assert(all[u] == rest[u]);
            }
        }
        assert forall|k: int|
            0 <= k < count && to_be_sent(world, sync, #[trigger] paths[k]) implies all.contains(
            PendingUpload { file: files[paths[k]], checkpoint_sha1: None },
        ) by {
            let upload = PendingUpload { file: files[paths[k]], checkpoint_sha1: None };
            if k < count - 1 {
                assert(rest.contains(upload));
                let u = choose|u: int| 0 <= u < rest.len() && rest[u] == upload;
                assert(all[u] == upload);
            } else {
                assert(all[all.len() - 1] == upload);
            }
        }
    }
}

proof fn uploads_are_the_changes(world: World, sync: SyncConfigView, scanned: ScannedView)
    requires
        scanned_told(world, sync, scanned),
    ensures
        ({
            let uploads = changed_files(scanned.files, world.states);
            &&& forall|u: int|
                0 <= u < uploads.len() ==> is_upload(world, sync)(#[trigger] uploads[u])
            &&& forall|path: Seq<char>| #[trigger]
                to_be_sent(world, sync, path) ==> uploads.contains(
                    PendingUpload { file: scanned.files[path], checkpoint_sha1: None },
                )
        }),
{
    let uploads = changed_files(scanned.files, world.states);
    let paths = in_order(scanned.files.dom());
    in_order_is_ordered(scanned.files.dom());
    assert forall|k: int| 0 <= k < paths.len() implies scanned.files.contains_key(
        #[trigger] paths[k],
    ) by {
        assert(paths.to_set().contains(paths[k]));
    }
    changed_are_uploads(world, sync, scanned.files, paths, paths.len());
    assert forall|path: Seq<char>| #[trigger]
        to_be_sent(world, sync, path) implies uploads.contains(
        PendingUpload { file: scanned.files[path], checkpoint_sha1: None },
    ) by {
        assert(scanned.files.contains_key(path));
        assert(paths.to_set().contains(path));
        let k = choose|k: int| 0 <= k < paths.len() && paths[k] == path;
        assert(to_be_sent(world, sync, paths[k]));
    }
}

proof fn gone_are_items(
    world: World,
    sync: SyncConfigView,
    base: PushBaseView,
    tree: RemoteTreeView,
)
    requires
        base_told(world, sync, base),
        tree_told(world, sync, tree),
        sync.delete == DeletePolicy::Trash,
    ensures
        ({
            let stale = unseen(world.known, base.scanned.files.dom());
            let gone = doomed(
                base.scanned.patterns,
                base.scanned.files.dom(),
                base.baseline,
                stale,
                tree,
            );
            let items = items_at(tree, gone);
            &&& gone_items(world, sync, items)
            &&& forall|path: Seq<char>|
                (tree.files.contains_key(path) && #[trigger] to_be_trashed(
                    world,
                    sync,
                    path,
                    tree.files[path],
                )) ==> items.contains(TrashItemView { path, file: tree.files[path] })
        }),
{
    let seen = base.scanned.files.dom();
    let stale = unseen(world.known, seen);
    let gone = doomed(base.scanned.patterns, seen, base.baseline, stale, tree);
    let items = items_at(tree, gone);
    let paths = in_order(gone);
    assert(gone.subset_of(tree.files.dom()));
    vstd::set_lib::lemma_set_subset_finite(tree.files.dom(), gone);
    in_order_is_ordered(gone);
    assert forall|k: int| 0 <= k < items.len() implies is_gone(world, sync)(
        #[trigger] items[k],
    ) by {
        let path = paths[k];
        assert(items[k].path == path && items[k].file == tree.files[path]);
        assert(paths.to_set().contains(path));
        assert(gone.contains(path));
        unseen_comes_from(world.known, seen, path);
        assert(base.scanned.files.contains_key(path) == seen.contains(path));
        assert(!seen.contains(path));
        excluded_is_left_alone(sync, path);
    }
    assert forall|path: Seq<char>|
        (tree.files.contains_key(path) && #[trigger] to_be_trashed(
            world,
            sync,
            path,
            tree.files[path],
        )) implies items.contains(TrashItemView { path, file: tree.files[path] }) by {
        unseen_comes_from(world.known, seen, path);
        assert(base.scanned.files.contains_key(path) == seen.contains(path));
        excluded_is_left_alone(sync, path);
        assert(gone.contains(path));
        assert(paths.to_set().contains(path));
        let k = choose|k: int| 0 <= k < paths.len() && paths[k] == path;
        assert(items[k] == (TrashItemView { path, file: tree.files[path] }));
    }
}

proof fn goes_on_to_trash(
    world: World,
    sync: SyncConfigView,
    summary: SummaryView,
    items: Seq<TrashItemView>,
)
    requires
        gone_items(world, sync, items),
    ensures
        goes_on_told(world, sync, PushView::trashed(sync, summary, items)),
{
    cleanup_starts_doomed(sync, items, is_gone(world, sync));
    doomed_cleanup_begins(sync, cleanup_prepared(sync, items), is_gone(world, sync));
}

proof fn forgets_what_is_gone(
    world: World,
    sync: SyncConfigView,
    base: PushBaseView,
    present: Set<Seq<char>>,
)
    requires
        base_told(world, sync, base),
        sync.delete == DeletePolicy::Trash && one_place_each(world, sync) ==> forall|
            path: Seq<char>,
            file: RemoteFileView,
        | #[trigger] remote_file_at(world, sync, path, file) ==> present.contains(path),
    ensures
        ({
            let stale = unseen(world.known, base.scanned.files.dom());
            let paths = managed(base.scanned.patterns, stale, present);
            &&& forall|k: int|
                0 <= k < paths.len() ==> to_be_forgotten(world, sync, #[trigger] paths[k])
            &&& forall|path: Seq<char>|
                (world.known.contains(path) && !local_file_at(world, sync, path) && !left_alone(
                    sync,
                    path,
                ) && !present.contains(path)) ==> #[trigger] paths.contains(path)
        }),
{
    let seen = base.scanned.files.dom();
    let stale = unseen(world.known, seen);
    let paths = managed(base.scanned.patterns, stale, present);
    assert forall|path: Seq<char>| #[trigger] paths.contains(path) == (world.known.contains(path)
        && !local_file_at(world, sync, path) && !left_alone(sync, path) && !present.contains(
        path,
    )) by {
        managed_contains(base.scanned.patterns, stale, present, path);
        unseen_comes_from(world.known, seen, path);
        assert(base.scanned.files.contains_key(path) == seen.contains(path));
        excluded_is_left_alone(sync, path);
    }
    assert forall|k: int| 0 <= k < paths.len() implies to_be_forgotten(
        world,
        sync,
        #[trigger] paths[k],
    ) by {
        assert(paths.contains(paths[k]));
    }
}

proof fn goes_on_located(
    world: World,
    sync: SyncConfigView,
    base: PushBaseView,
    tree: RemoteTreeView,
)
    requires
        base_told(world, sync, base),
        tree_told(world, sync, tree),
        sync.delete == DeletePolicy::Trash,
    ensures
        ({
            let stale = unseen(world.known, base.scanned.files.dom());
            goes_on_told(world, sync, PushView::located(sync, base, stale, tree))
        }),
{
    let seen = base.scanned.files.dom();
    let stale = unseen(world.known, seen);
    let gone = doomed(base.scanned.patterns, seen, base.baseline, stale, tree);
    gone_are_items(world, sync, base, tree);
    forgets_what_is_gone(world, sync, base, tree.files.dom());
    goes_on_to_trash(world, sync, base.summary, items_at(tree, gone));
}

proof fn goes_on_listed(world: World, sync: SyncConfigView, base: PushBaseView)
    requires
        base_told(world, sync, base),
    ensures
        ({
            let stale = unseen(world.known, base.scanned.files.dom());
            goes_on_told(world, sync, PushView::listed(sync, base, stale))
        }),
{
    if sync.delete == DeletePolicy::Trash {
        match base.tree {
            Some(tree) => {
                goes_on_located(world, sync, base, tree);
            },
            None => {
                inventory_starts_told(world, sync, sync.name);
            },
        }
    } else {
        forgets_what_is_gone(world, sync, base, Set::empty());
        goes_on_to_trash(world, sync, base.summary, Seq::empty());
    }
}

proof fn goes_on_reconciled(
    world: World,
    sync: SyncConfigView,
    scanned: ScannedView,
    tree: Option<RemoteTreeView>,
)
    requires
        scanned_told(world, sync, scanned),
        tree is Some == (world.baseline != Some("1"@) && sync.delete == DeletePolicy::Trash),
        tree matches Some(tree) ==> tree_told(world, sync, tree),
    ensures
        goes_on_told(
            world,
            sync,
            PushView::reconciled(
                sync,
                scanned,
                world.states,
                world.baseline == Some("1"@),
                tree,
            ),
        ),
{
    let uploads = changed_files(scanned.files, world.states);
    uploads_are_the_changes(world, sync, scanned);
    uploads_start_wanted(sync, uploads, is_upload(world, sync));
    wanted_uploads_begin(sync, uploads_prepared(sync, uploads), is_upload(world, sync));
}

proof fn push_stays_told(
    world: World,
    sync: SyncConfigView,
    run: PushView,
    request: RequestView,
    reply: ReplyView,
)
    requires
        push_told(world, sync, run, request),
        told(world, request, reply),
    ensures
        goes_on_told(world, sync, run.stepped(reply)),
{
    match run.stage {
        PushStageView::Checking(check) => {
            scan_starts_told(world, sync);
        },
        PushStageView::Scanning(scan) => {
            scan_asks(scan, reply);
            scan_stays_told(world, sync, scan, request, reply);
        },
        PushStageView::LoadingBaseline { scanned, .. } => {
            inventory_starts_told(world, sync, sync.name);
            if world.baseline == Some("1"@) || sync.delete != DeletePolicy::Trash {
                goes_on_reconciled(world, sync, scanned, None);
            }
        },
        PushStageView::Comparing { scanned, inventory, .. } => {
            inventory_asks(inventory, reply);
            inventory_stays_told(world, sync, inventory, request, reply);
            if let Ok(Progress::Done(tree)) = inventory.stepped(reply) {
                goes_on_reconciled(world, sync, scanned, Some(tree));
            }
        },
        PushStageView::Uploading { uploads, .. } => {
            wanted_uploads_go_on(sync, uploads, is_upload(world, sync), reply);
        },
        PushStageView::ListingStale { base } => {
            goes_on_listed(world, sync, base);
        },
        PushStageView::Locating { base, inventory, .. } => {
            inventory_asks(inventory, reply);
            inventory_stays_told(world, sync, inventory, request, reply);
            if let Ok(Progress::Done(tree)) = inventory.stepped(reply) {
                goes_on_located(world, sync, base, tree);
            }
        },
        PushStageView::Forgetting { summary, items } => {
            goes_on_to_trash(world, sync, summary, items);
        },
        PushStageView::Trashing { cleanup, .. } => {
            doomed_cleanup_goes_on(sync, cleanup, is_gone(world, sync), reply);
        },
        _ => {},
    }
}

/// A push that is told the world as it is asks for nothing but this: it sends local files that are
/// new or that have another size or another modification time than what is remembered, each to the
/// folder that it is in; it remembers those as they are, without a digest; it moves to the trash, if
/// deletions are carried over, remote files that have no local one, that are not left alone, and that
/// were pushed before or were never compared; and it forgets paths that are gone locally.
pub proof fn a_push_does_nothing_else(
    world: World,
    sync: SyncConfigView,
    replies: Seq<ReplyView>,
)
    requires
        all_told(world, requests(push_step(), push_started(sync), replies), replies),
    ensures
        forall|i: int|
            #![trigger requests(push_step(), push_started(sync), replies)[i]]
            0 <= i < requests(push_step(), push_started(sync), replies).len() ==> push_asks(
                world,
                sync,
                requests(push_step(), push_started(sync), replies)[i],
            ),
{
    let answered = |request: RequestView, reply: ReplyView| told(world, request, reply);
    let fine = |request: RequestView| push_asks(world, sync, request);
    let sound = |run: PushView, request: RequestView| push_told(world, sync, run, request);
    assert forall|run: PushView, request: RequestView, reply: ReplyView|
        #![trigger sound(run, request), push_step()(run, reply)]
        sound(run, request) && answered(request, reply) implies match push_step()(run, reply) {
        Err(_) => true,
        Ok(Progress::Ask(next, asked)) => sound(next, asked),
        Ok(Progress::Done(_)) => true,
    } by {
        push_stays_told(world, sync, run, request, reply);
    }
    kept_when_told(
        push_step(),
        answered,
        sound,
        fine,
        |summary: SummaryView| true,
        push_started(sync),
        replies,
    );
    let asked = requests(push_step(), push_started(sync), replies);
    assert forall|i: int| 0 <= i < asked.len() implies push_asks(world, sync, #[trigger] asked[i]) by {
        assert(fine(asked[i]));
    }
}

spec fn owes_sending(world: World, sync: SyncConfigView, run: PushView, path: Seq<char>) -> bool {
    match run.stage {
        PushStageView::Checking(_) => true,
        PushStageView::Scanning(_) => true,
        PushStageView::LoadingStates { .. } => true,
        PushStageView::LoadingBaseline { .. } => true,
        PushStageView::Comparing { .. } => true,
        PushStageView::Uploading { base, uploads } => base.scanned.files.contains_key(path)
            && owes_path(
            uploads,
            PendingUpload { file: base.scanned.files[path], checkpoint_sha1: None },
        ),
        _ => false,
    }
}

proof fn reconciled_owes_sending(
    world: World,
    sync: SyncConfigView,
    scanned: ScannedView,
    baseline: bool,
    tree: Option<RemoteTreeView>,
    path: Seq<char>,
)
    requires
        scanned_told(world, sync, scanned),
        to_be_sent(world, sync, path),
    ensures
        PushView::reconciled(sync, scanned, world.states, baseline, tree) matches Ok(
            Progress::Ask(next, asked),
        ) && (owes_sending(world, sync, next, path) || sends_path(sync, asked, path)),
{
    let uploads = changed_files(scanned.files, world.states);
    let upload = PendingUpload { file: scanned.files[path], checkpoint_sha1: None };
    uploads_are_the_changes(world, sync, scanned);
    assert(scanned.files.contains_key(path));
    assert(uploads.contains(upload));
    let u = choose|u: int| 0 <= u < uploads.len() && uploads[u] == upload;
    prepared_uploads_owe_path(sync, uploads, is_upload(world, sync), u);
}

proof fn push_owes_sending(
    world: World,
    sync: SyncConfigView,
    run: PushView,
    request: RequestView,
    reply: ReplyView,
    path: Seq<char>,
)
    requires
        push_told(world, sync, run, request),
        told(world, request, reply),
        to_be_sent(world, sync, path),
        owes_sending(world, sync, run, path),
    ensures
        match run.stepped(reply) {
            Err(_) => true,
            Ok(Progress::Done(_)) => false,
            Ok(Progress::Ask(next, asked)) => owes_sending(world, sync, next, path) || sends_path(
                sync,
                asked,
                path,
            ),
        },
{
    match run.stage {
        PushStageView::LoadingBaseline { scanned, .. } => {
            reconciled_owes_sending(
                world,
                sync,
                scanned,
                world.baseline == Some("1"@),
                None,
                path,
            );
        },
        PushStageView::Comparing { scanned, inventory, .. } => {
            if let Ok(Progress::Done(tree)) = inventory.stepped(reply) {
                reconciled_owes_sending(world, sync, scanned, false, Some(tree), path);
            }
        },
        PushStageView::Uploading { base, uploads } => {
            assert(described(world, sync, path, base.scanned.files[path]));
            uploads_go_on_owing(
                sync,
                uploads,
                is_upload(world, sync),
                PendingUpload { file: base.scanned.files[path], checkpoint_sha1: None },
                reply,
            );
        },
        _ => {},
    }
}

/// A push that is told the world as it is, and that comes to a good end, has sent every local file
/// that is new, or that has another size or another modification time than what is remembered.
pub proof fn a_push_sends_every_change(
    world: World,
    sync: SyncConfigView,
    replies: Seq<ReplyView>,
    path: Seq<char>,
)
    requires
        all_told(world, requests(push_step(), push_started(sync), replies), replies),
        ending(push_step(), push_started(sync), replies) matches Some(Ok(_)),
        to_be_sent(world, sync, path),
    ensures
        exists|i: int|
            0 <= i < requests(push_step(), push_started(sync), replies).len() && sends_path(
                sync,
                #[trigger] requests(push_step(), push_started(sync), replies)[i],
                path,
            ),
{
    let step = push_step();
    let start = push_started(sync);
    let answered = |request: RequestView, reply: ReplyView| told(world, request, reply);
    let owes = |run: PushView, request: RequestView|
        push_told(world, sync, run, request) && owes_sending(world, sync, run, path);
    let met = |request: RequestView| sends_path(sync, request, path);
    let excused = |request: RequestView, reply: ReplyView| false;
    assert forall|run: PushView, request: RequestView, reply: ReplyView|
        #![trigger owes(run, request), step(run, reply)]
        owes(run, request) && answered(request, reply) && !excused(
            request,
            reply,
        ) implies match step(run, reply) {
        Err(_) => true,
        Ok(Progress::Done(_)) => false,
        Ok(Progress::Ask(next, asked)) => owes(next, asked) || met(asked),
    } by {
        push_stays_told(world, sync, run, request, reply);
        push_owes_sending(world, sync, run, request, reply, path);
    }
    settled_when_told(step, answered, owes, met, excused, start, replies);
    let asked = requests(step, start, replies);
    let i = choose|i: int|
        0 <= i < asked.len() && (met(#[trigger] asked[i]) || (i < replies.len() && excused(
            asked[i],
            replies[i],
        )));
    assert(sends_path(sync, asked[i], path));
}

/// A remote file at a path is moved to the trash by a request.
pub open spec fn trashes_path(
    world: World,
    sync: SyncConfigView,
    request: RequestView,
    path: Seq<char>,
) -> bool {
    exists|file: RemoteFileView| #[trigger]
        remote_file_at(world, sync, path, file) && trashes_item(
            sync,
            request,
            TrashItemView { path, file },
        )
}

spec fn holds_path(items: Seq<TrashItemView>, path: Seq<char>) -> bool {
    exists|k: int| 0 <= k < items.len() && (#[trigger] items[k]).path == path
}

spec fn owes_gone(
    world: World,
    sync: SyncConfigView,
    cleanup: CleanupView,
    path: Seq<char>,
) -> bool {
    exists|item: TrashItemView| #[trigger]
        owes_item(cleanup, item) && item.path == path && is_gone(world, sync)(item)
}

spec fn owes_trashing(world: World, sync: SyncConfigView, run: PushView, path: Seq<char>) -> bool {
    match run.stage {
        PushStageView::Forgetting { items, .. } => holds_path(items, path),
        PushStageView::Trashing { cleanup, .. } => owes_gone(world, sync, cleanup, path),
        PushStageView::Finishing { .. } => false,
        _ => true,
    }
}

proof fn trashed_owes_trashing(
    world: World,
    sync: SyncConfigView,
    summary: SummaryView,
    items: Seq<TrashItemView>,
    path: Seq<char>,
)
    requires
        gone_items(world, sync, items),
        holds_path(items, path),
    ensures
        PushView::trashed(sync, summary, items) matches Ok(Progress::Ask(next, asked)) && (
        owes_trashing(world, sync, next, path) || trashes_path(world, sync, asked, path)),
{
    let k = choose|k: int| 0 <= k < items.len() && (#[trigger] items[k]).path == path;
    let item = items[k];
    assert(is_gone(world, sync)(item));
    assert(item == (TrashItemView { path, file: item.file }));
    assert(remote_file_at(world, sync, path, item.file));
    prepared_cleanup_owes_item(sync, items, is_gone(world, sync), k);
    let (next, asked) = (
        cleanup_prepared(sync, items).begun()->Ok_0->Ask_0,
        cleanup_prepared(sync, items).begun()->Ok_0->Ask_1,
    );
    if trashes_item(sync, asked, item) {
        assert(trashes_path(world, sync, asked, path));
    } else {
        assert(owes_item(next, item));
        assert(owes_gone(world, sync, next, path));
    }
}

proof fn located_owes_trashing(
    world: World,
    sync: SyncConfigView,
    base: PushBaseView,
    tree: RemoteTreeView,
    path: Seq<char>,
    file: RemoteFileView,
)
    requires
        base_told(world, sync, base),
        tree_told(world, sync, tree),
        one_place_each(world, sync),
        to_be_trashed(world, sync, path, file),
    ensures
        ({
            let stale = unseen(world.known, base.scanned.files.dom());
            PushView::located(sync, base, stale, tree) matches Ok(Progress::Ask(next, asked)) && (
            owes_trashing(world, sync, next, path) || trashes_path(world, sync, asked, path))
        }),
{
    let seen = base.scanned.files.dom();
    let stale = unseen(world.known, seen);
    let gone = doomed(base.scanned.patterns, seen, base.baseline, stale, tree);
    let items = items_at(tree, gone);
    gone_are_items(world, sync, base, tree);
    assert(tree.files.contains_key(path));
    assert(to_be_trashed(world, sync, path, tree.files[path]));
    let item = TrashItemView { path, file: tree.files[path] };
    assert(items.contains(item));
    let k = choose|k: int| 0 <= k < items.len() && items[k] == item;
    assert(items[k].path == path);
    trashed_owes_trashing(world, sync, base.summary, items, path);
}

proof fn stale_is_listed(
    world: World,
    sync: SyncConfigView,
    base: PushBaseView,
    path: Seq<char>,
)
    requires
        base_told(world, sync, base),
        world.known.contains(path),
        !local_file_at(world, sync, path),
    ensures
        unseen(world.known, base.scanned.files.dom()).len() > 0,
{
    let seen = base.scanned.files.dom();
    unseen_comes_from(world.known, seen, path);
    assert(base.scanned.files.contains_key(path) == seen.contains(path));
    assert(unseen(world.known, seen).contains(path));
}

proof fn push_owes_trashing(
    world: World,
    sync: SyncConfigView,
    run: PushView,
    request: RequestView,
    reply: ReplyView,
    path: Seq<char>,
    file: RemoteFileView,
)
    requires
        push_told(world, sync, run, request),
        told(world, request, reply),
        one_place_each(world, sync),
        to_be_trashed(world, sync, path, file),
        owes_trashing(world, sync, run, path),
    ensures
        match run.stepped(reply) {
            Err(_) => true,
            Ok(Progress::Done(_)) => false,
            Ok(Progress::Ask(next, asked)) => owes_trashing(world, sync, next, path)
                || trashes_path(world, sync, asked, path),
        },
{
    match run.stage {
        PushStageView::ListingStale { base } => {
            match base.tree {
                Some(tree) => {
                    located_owes_trashing(world, sync, base, tree, path, file);
                },
                None => {
                    stale_is_listed(world, sync, base, path);
                },
            }
        },
        PushStageView::Locating { base, inventory, .. } => {
            inventory_stays_told(world, sync, inventory, request, reply);
            if let Ok(Progress::Done(tree)) = inventory.stepped(reply) {
                located_owes_trashing(world, sync, base, tree, path, file);
            }
        },
        PushStageView::Forgetting { summary, items } => {
            trashed_owes_trashing(world, sync, summary, items, path);
        },
        PushStageView::Trashing { cleanup, .. } => {
            let item = choose|item: TrashItemView| #[trigger]
                owes_item(cleanup, item) && item.path == path && is_gone(world, sync)(item);
            assert(item == (TrashItemView { path, file: item.file }));
            assert(remote_file_at(world, sync, path, item.file));
            cleanup_goes_on_owing(sync, cleanup, is_gone(world, sync), item, reply);
        },
        _ => {},
    }
}

/// A push that is told the world as it is, and that comes to a good end, has moved to the trash, if
/// deletions are carried over, every remote file that has no local one, that is not left alone, and
/// that was pushed before or was never compared.
pub proof fn a_push_trashes_what_is_gone(
    world: World,
    sync: SyncConfigView,
    replies: Seq<ReplyView>,
    path: Seq<char>,
    file: RemoteFileView,
)
    requires
        all_told(world, requests(push_step(), push_started(sync), replies), replies),
        ending(push_step(), push_started(sync), replies) matches Some(Ok(_)),
        one_place_each(world, sync),
        to_be_trashed(world, sync, path, file),
    ensures
        exists|i: int|
            0 <= i < requests(push_step(), push_started(sync), replies).len() && trashes_path(
                world,
                sync,
                #[trigger] requests(push_step(), push_started(sync), replies)[i],
                path,
            ),
{
    let step = push_step();
    let start = push_started(sync);
    let answered = |request: RequestView, reply: ReplyView| told(world, request, reply);
    let owes = |run: PushView, request: RequestView|
        push_told(world, sync, run, request) && owes_trashing(world, sync, run, path);
    let met = |request: RequestView| trashes_path(world, sync, request, path);
    let excused = |request: RequestView, reply: ReplyView| false;
    assert forall|run: PushView, request: RequestView, reply: ReplyView|
        #![trigger owes(run, request), step(run, reply)]
        owes(run, request) && answered(request, reply) && !excused(
            request,
            reply,
        ) implies match step(run, reply) {
        Err(_) => true,
        Ok(Progress::Done(_)) => false,
        Ok(Progress::Ask(next, asked)) => owes(next, asked) || met(asked),
    } by {
        push_stays_told(world, sync, run, request, reply);
        push_owes_trashing(world, sync, run, request, reply, path, file);
    }
    settled_when_told(step, answered, owes, met, excused, start, replies);
    let asked = requests(step, start, replies);
    let i = choose|i: int|
        0 <= i < asked.len() && (met(#[trigger] asked[i]) || (i < replies.len() && excused(
            asked[i],
            replies[i],
        )));
    assert(trashes_path(world, sync, asked[i], path));
}

/// A path is forgotten by a request.
pub open spec fn forgets_path(sync: SyncConfigView, request: RequestView, path: Seq<char>) -> bool {
    request matches RequestView::DeleteStates { mirror, paths } && mirror == sync.name
        && paths.contains(path)
}

spec fn may_forget(run: PushView) -> bool {
    !(run.stage is Forgetting || run.stage is Trashing || run.stage is Finishing)
}

proof fn push_owes_forgetting(
    world: World,
    sync: SyncConfigView,
    run: PushView,
    request: RequestView,
    reply: ReplyView,
    path: Seq<char>,
)
    requires
        push_told(world, sync, run, request),
        told(world, request, reply),
        may_forget(run),
        world.known.contains(path),
        !local_file_at(world, sync, path),
        !left_alone(sync, path),
        sync.delete == DeletePolicy::Trash ==> forall|file: RemoteFileView|
            !#[trigger] remote_file_at(world, sync, path, file),
    ensures
        match run.stepped(reply) {
            Err(_) => true,
            Ok(Progress::Done(_)) => false,
            Ok(Progress::Ask(next, asked)) => may_forget(next) || forgets_path(sync, asked, path),
        },
{
    match run.stage {
        PushStageView::ListingStale { base } => {
            let stale = unseen(world.known, base.scanned.files.dom());
            stale_is_listed(world, sync, base, path);
            match base.tree {
                Some(tree) => {
                    assert(!tree.files.contains_key(path));
                    forgets_what_is_gone(world, sync, base, tree.files.dom());
                    assert(managed(base.scanned.patterns, stale, tree.files.dom()).contains(path));
                },
                None => {
                    if sync.delete != DeletePolicy::Trash {
                        forgets_what_is_gone(world, sync, base, Set::empty());
                        assert(managed(base.scanned.patterns, stale, Set::empty()).contains(path));
                    }
                },
            }
        },
        PushStageView::Locating { base, inventory, .. } => {
            inventory_stays_told(world, sync, inventory, request, reply);
            if let Ok(Progress::Done(tree)) = inventory.stepped(reply) {
                let stale = unseen(world.known, base.scanned.files.dom());
                assert(!tree.files.contains_key(path));
                forgets_what_is_gone(world, sync, base, tree.files.dom());
                assert(managed(base.scanned.patterns, stale, tree.files.dom()).contains(path));
            }
        },
        _ => {},
    }
}

/// A push that is told the world as it is, and that comes to a good end, has forgotten every path
/// that is remembered but has no local file and is not left alone, and, if deletions are carried over,
/// that has no remote file either.
pub proof fn a_push_forgets_what_is_gone(
    world: World,
    sync: SyncConfigView,
    replies: Seq<ReplyView>,
    path: Seq<char>,
)
    requires
        all_told(world, requests(push_step(), push_started(sync), replies), replies),
        ending(push_step(), push_started(sync), replies) matches Some(Ok(_)),
        world.known.contains(path),
        !local_file_at(world, sync, path),
        !left_alone(sync, path),
        sync.delete == DeletePolicy::Trash ==> forall|file: RemoteFileView|
            !#[trigger] remote_file_at(world, sync, path, file),
    ensures
        exists|i: int|
            0 <= i < requests(push_step(), push_started(sync), replies).len() && forgets_path(
                sync,
                #[trigger] requests(push_step(), push_started(sync), replies)[i],
                path,
            ),
{
    let step = push_step();
    let start = push_started(sync);
    let answered = |request: RequestView, reply: ReplyView| told(world, request, reply);
    let owes = |run: PushView, request: RequestView|
        push_told(world, sync, run, request) && may_forget(run);
    let met = |request: RequestView| forgets_path(sync, request, path);
    let excused = |request: RequestView, reply: ReplyView| false;
    assert forall|run: PushView, request: RequestView, reply: ReplyView|
        #![trigger owes(run, request), step(run, reply)]
        owes(run, request) && answered(request, reply) && !excused(
            request,
            reply,
        ) implies match step(run, reply) {
        Err(_) => true,
        Ok(Progress::Done(_)) => false,
        Ok(Progress::Ask(next, asked)) => owes(next, asked) || met(asked),
    } by {
        push_stays_told(world, sync, run, request, reply);
        push_owes_forgetting(world, sync, run, request, reply, path);
    }
    settled_when_told(step, answered, owes, met, excused, start, replies);
    let asked = requests(step, start, replies);
    let i = choose|i: int|
        0 <= i < asked.len() && (met(#[trigger] asked[i]) || (i < replies.len() && excused(
            asked[i],
            replies[i],
        )));
    assert(forgets_path(sync, asked[i], path));
}

/// The paths of the local files.
pub open spec fn local_paths(world: World, sync: SyncConfigView) -> Set<Seq<char>> {
    Set::new(|path: Seq<char>| local_file_at(world, sync, path))
}

/// The paths of the local files that are to be sent.
pub open spec fn paths_to_send(world: World, sync: SyncConfigView) -> Set<Seq<char>> {
    Set::new(|path: Seq<char>| to_be_sent(world, sync, path))
}

spec fn sent_among(
    world: World,
    sync: SyncConfigView,
    paths: Seq<Seq<char>>,
    count: nat,
) -> Set<Seq<char>> {
    Set::new(
        |path: Seq<char>| to_be_sent(world, sync, path) && paths.take(count as int).contains(path),
    )
}

proof fn changes_are_counted(
    world: World,
    sync: SyncConfigView,
    files: Map<Seq<char>, LocalFile<Seq<char>>>,
    paths: Seq<Seq<char>>,
    count: nat,
)
    requires
        count <= paths.len(),
        paths.no_duplicates(),
        forall|path: Seq<char>| #[trigger]
            files.contains_key(path) ==> described(world, sync, path, files[path])
                && local_file_at(world, sync, path),
        forall|k: int| 0 <= k < paths.len() ==> files.contains_key(#[trigger] paths[k]),
    ensures
        sent_among(world, sync, paths, count).finite(),
        sent_among(world, sync, paths, count).len() == changed_among(
            files,
            world.states,
            paths,
            count,
        ).len(),
    decreases count,
{
    let all = sent_among(world, sync, paths, count);
    if count == 0 {
        assert(paths.take(0) =~= Seq::<Seq<char>>::empty());
        assert(all =~= Set::<Seq<char>>::empty());
    } else {
        let before = (count - 1) as nat;
        let path = paths[count - 1];
        let some = sent_among(world, sync, paths, before);
        let (less, more) = (paths.take(count - 1), paths.take(count as int));
        changes_are_counted(world, sync, files, paths, before);
        assert(files.contains_key(path));
        assert(described(world, sync, path, files[path]));
        assert forall|other: Seq<char>| more.contains(other) == (less.contains(other) || other
            == path) by {
            if less.contains(other) {
                let k = choose|k: int| 0 <= k < less.len() && less[k] == other;
                assert(more[k] == other);
            }
            if more.contains(other) && other != path {
                let k = choose|k: int| 0 <= k < more.len() && more[k] == other;
                assert(less[k] == other);
            }
            assert(more[count - 1] == path);
        }
        assert(!less.contains(path)) by {
            if less.contains(path) {
                let k = choose|k: int| 0 <= k < less.len() && less[k] == path;
                assert(paths[k] == paths[count - 1]);
            }
        }
        if to_be_sent(world, sync, path) {
            assert(all =~= some.insert(path));
        } else {
            assert(all =~= some);
        }
    }
}

proof fn findings_are_counted(world: World, sync: SyncConfigView, scanned: ScannedView)
    requires
        scanned_told(world, sync, scanned),
    ensures
        local_paths(world, sync).finite(),
        paths_to_send(world, sync).finite(),
        in_order(scanned.files.dom()).len() == local_paths(world, sync).len(),
        changed_files(scanned.files, world.states).len() == paths_to_send(world, sync).len(),
        paths_to_send(world, sync).len() <= local_paths(world, sync).len(),
{
    let paths = in_order(scanned.files.dom());
    in_order_is_ordered(scanned.files.dom());
    in_order_keeps_count(scanned.files.dom());
    assert(scanned.files.dom() =~= local_paths(world, sync)) by {
        assert forall|path: Seq<char>| #[trigger] scanned.files.dom().contains(path)
            == local_paths(world, sync).contains(path) by {
            assert(scanned.files.contains_key(path) == local_file_at(world, sync, path));
        }
    }
    assert forall|k: int| 0 <= k < paths.len() implies scanned.files.contains_key(
        #[trigger] paths[k],
    ) by {
        assert(paths.to_set().contains(paths[k]));
    }
    assert forall|i: int, j: int| 0 <= i < j < paths.len() implies paths[i] != paths[j] by {
        assert(text_lt(paths[i], paths[j]));
        text_lt_irreflexive(paths[i]);
    }
    changes_are_counted(world, sync, scanned.files, paths, paths.len());
    assert(paths.take(paths.len() as int) =~= paths);
    assert(sent_among(world, sync, paths, paths.len()) =~= paths_to_send(world, sync)) by {
        assert forall|path: Seq<char>| to_be_sent(world, sync, path) implies #[trigger]
            paths.contains(path) by {
            assert(scanned.files.contains_key(path));
            assert(paths.to_set().contains(path));
        }
    }
    assert(paths_to_send(world, sync).subset_of(local_paths(world, sync)));
    vstd::set_lib::lemma_len_subset(paths_to_send(world, sync), local_paths(world, sync));
}

spec fn finds(world: World, sync: SyncConfigView, summary: SummaryView) -> bool {
    &&& summary.scanned == local_paths(world, sync).len()
    &&& summary.unchanged + paths_to_send(world, sync).len() == local_paths(world, sync).len()
}

spec fn has_found(world: World, sync: SyncConfigView, run: PushView) -> bool {
    match run.stage {
        PushStageView::Uploading { base, .. } => finds(world, sync, base.summary),
        PushStageView::ListingStale { base } => finds(world, sync, base.summary),
        PushStageView::Locating { base, .. } => finds(world, sync, base.summary),
        PushStageView::Forgetting { summary, .. } => finds(world, sync, summary),
        PushStageView::Trashing { summary, .. } => finds(world, sync, summary),
        PushStageView::Finishing { summary } => finds(world, sync, summary),
        _ => true,
    }
}

proof fn push_keeps_what_it_found(
    world: World,
    sync: SyncConfigView,
    run: PushView,
    request: RequestView,
    reply: ReplyView,
)
    requires
        push_told(world, sync, run, request),
        told(world, request, reply),
        has_found(world, sync, run),
    ensures
        match run.stepped(reply) {
            Err(_) => true,
            Ok(Progress::Ask(next, _)) => has_found(world, sync, next),
            Ok(Progress::Done(summary)) => finds(world, sync, summary),
        },
{
    match run.stage {
        PushStageView::LoadingBaseline { scanned, .. } => {
            findings_are_counted(world, sync, scanned);
        },
        PushStageView::Comparing { scanned, .. } => {
            findings_are_counted(world, sync, scanned);
        },
        _ => {},
    }
}

/// The summary of a push that was told the world as it is says how many local files there are, and how
/// many of them were not to be sent.
pub proof fn what_a_push_finds(world: World, sync: SyncConfigView, replies: Seq<ReplyView>)
    requires
        all_told(world, requests(push_step(), push_started(sync), replies), replies),
    ensures
        ending(push_step(), push_started(sync), replies) matches Some(Ok(summary)) ==> {
            &&& summary.scanned == local_paths(world, sync).len()
            &&& summary.unchanged + paths_to_send(world, sync).len() == local_paths(
                world,
                sync,
            ).len()
        },
{
    let answered = |request: RequestView, reply: ReplyView| told(world, request, reply);
    let sound = |run: PushView, request: RequestView|
        push_told(world, sync, run, request) && has_found(world, sync, run);
    assert forall|run: PushView, request: RequestView, reply: ReplyView|
        #![trigger sound(run, request), push_step()(run, reply)]
        sound(run, request) && answered(request, reply) implies match push_step()(run, reply) {
        Err(_) => true,
        Ok(Progress::Ask(next, asked)) => sound(next, asked),
        Ok(Progress::Done(summary)) => finds(world, sync, summary),
    } by {
        push_stays_told(world, sync, run, request, reply);
        push_keeps_what_it_found(world, sync, run, request, reply);
    }
    kept_when_told(
        push_step(),
        answered,
        sound,
        |request: RequestView| true,
        |summary: SummaryView| finds(world, sync, summary),
        push_started(sync),
        replies,
    );
}

} // verus!
