//! A second two-way sync right after a first one changes nothing.

use crate::cleanup::TrashItemView;
use crate::completeness::{carries_out, every_action_is_carried_out, installs, removes, sends};
use crate::completeness::trashes;
use crate::config::SyncConfigView;
use crate::drive::{RemoteFileView, TrashTargetView};
use crate::error::Fault;
use crate::exchange::{Progress, ReplyView, RequestView};
use crate::fetch::{fetch_prepared, FetchItemView, FetchView};
use crate::findings::{findings, findings_come_first, findings_from, Findings};
use crate::integrity::{fetched_content_is_verified, verified_install};
use crate::memory::{every_digest_is_remembered, knows, leaves_digest, remembered, remembered_after};
use crate::paths::{drive_path, drive_path_is_injective, file_name_of};
use crate::plan::{contents_agree, lookup, LocalSnapshot, TwoWayAction, TwoWayView};
use crate::restraint::{is_planned, is_planned_trash, is_planned_upload};
use crate::restraint::only_planned_changes_are_made;
use crate::scan::local_path_of;
use crate::state::{committed, FileCheckpoint, FileState};
use crate::summary::{scan_summary, SummaryView};
use crate::text::{begins_with, in_order, in_order_is_ordered, same_ignoring_case};
use crate::text::{same_ignoring_case_symmetric, same_ignoring_case_transitive, text_lt};
use crate::text::text_lt_irreflexive;
use crate::trace::{ending, requests};
use crate::two_way::{remembered_digest, two_way_started, work_for, TwoWayOutcome, TwoWayRun};
use crate::two_way::{TwoWayStageView, WorkView};
use crate::two_way_laws::{harmless, two_way_requests, two_way_step};
use crate::uploads::{failed_name, upload_jobs, uploads_prepared, PendingUpload, UploadsView};
use vstd::prelude::*;

verus! {

/// A local file in an upload command that was not reported to have failed.
pub open spec fn upload_reported(
    request: RequestView,
    reply: ReplyView,
    root: Seq<char>,
    path: Seq<char>,
) -> bool {
    &&& sends(request, root, path)
    &&& reply matches ReplyView::Uploaded(result)
    &&& file_name_of(local_path_of(root, path)) matches Some(name) ==> !failed_name(
        result.failures,
        name,
    )
}

/// A remote file in a trash command that was not reported to have failed.
pub open spec fn trash_reported(
    request: RequestView,
    reply: ReplyView,
    remote: Seq<char>,
    item: TrashItemView,
) -> bool {
    &&& trashes(request, remote, item)
    &&& reply matches ReplyView::Trashed(result)
    &&& !result.failed_uids.contains(item.file.uid)
}

/// A run of a two-way sync: what it found, what it asked, and what it was answered.
pub struct Run {
    pub sync: SyncConfigView,
    pub found: Findings,
    pub asked: Seq<RequestView>,
    pub replies: Seq<ReplyView>,
}

impl Run {
    /// The remote file at a path was moved to the trash.
    pub open spec fn trashed(self, path: Seq<char>) -> bool {
        exists|i: int|
            0 <= i < self.asked.len() && trash_reported(
                #[trigger] self.asked[i],
                self.replies[i],
                self.sync.remote,
                TrashItemView { path, file: self.found.remote()[path] },
            )
    }

    /// The local file at a path was uploaded.
    pub open spec fn uploaded(self, path: Seq<char>) -> bool {
        exists|i: int|
            0 <= i < self.asked.len() && upload_reported(
                #[trigger] self.asked[i],
                self.replies[i],
                self.sync.local,
                path,
            )
    }

    /// The local file at a path was moved to the trash.
    pub open spec fn removed(self, path: Seq<char>) -> bool {
        exists|i: int|
            0 <= i < self.asked.len() && removes(#[trigger] self.asked[i], self.sync.local, path)
    }

    /// A file was put in the local place of a path.
    pub open spec fn installed(self, path: Seq<char>) -> bool {
        exists|i: int|
            0 <= i < self.asked.len() && installs(#[trigger] self.asked[i], self.sync.local, path)
    }

    /// How the remote side of a path stands after the run, if nobody else changed it: a file that
    /// was trashed is gone, one that was uploaded has the size and the digest of the local file,
    /// and any other is as it was.
    pub open spec fn left_remotely(self, after: Findings, path: Seq<char>) -> bool {
        if self.trashed(path) {
            !after.remote().contains_key(path)
        } else if self.uploaded(path) {
            &&& after.remote().contains_key(path)
            &&& after.remote()[path].claimed_size == self.found.local[path].file.size
            &&& same_ignoring_case(after.remote()[path].sha1, self.found.local[path].sha1)
        } else {
            lookup(after.remote(), path) == lookup(self.found.remote(), path)
        }
    }

    /// How the local side of a path stands after the run, if nobody else changed it: a file that
    /// was trashed is gone, one that was put in its place has the size and the digest that were
    /// found of it before, and any other is as it was. A digest that is remembered is not computed
    /// again.
    pub open spec fn left_locally(self, after: Findings, path: Seq<char>) -> bool {
        if self.removed(path) {
            !after.scanned.files.contains_key(path)
        } else if self.installed(path) {
            &&& after.scanned.files.contains_key(path)
            &&& forall|i: int|
                1 < i < self.asked.len() && installs(
                    #[trigger] self.asked[i],
                    self.sync.local,
                    path,
                ) ==> {
                    &&& after.scanned.files[path].size == self.replies[i - 2]->Stat_0.size
                    &&& has_digest(after, path, self.replies[i - 1]->Digest_0)
                }
        } else {
            &&& lookup(after.scanned.files, path) == lookup(self.found.scanned.files, path)
            &&& after.scanned.files.contains_key(path) ==> has_digest(
                after,
                path,
                self.found.local[path].sha1,
            )
        }
    }

    /// What was found later is what the run left behind: what it reported to have done was done,
    /// what it remembered is remembered, and nothing else has changed.
    pub open spec fn left(self, after: Findings) -> bool {
        &&& after.states == remembered(self.found.states, self.asked)
        &&& forall|path: Seq<char>|
            #![trigger after.local.contains_key(path)]
            #![trigger after.remote().contains_key(path)]
            self.left_remotely(after, path) && self.left_locally(after, path)
    }
}

/// A local file whose digest is remembered, or is found to be `sha1`.
pub open spec fn has_digest(after: Findings, path: Seq<char>, sha1: Seq<char>) -> bool {
    remembered_digest(after.states, after.scanned.files[path]) is None ==> same_ignoring_case(
        after.local[path].sha1,
        sha1,
    )
}

/// Paths that are below the root.
pub open spec fn below_root(found: Findings) -> bool {
    forall|path: Seq<char>|
        #![trigger found.local.contains_key(path)]
        #![trigger found.remote().contains_key(path)]
        found.local.contains_key(path) || found.remote().contains_key(path) ==> !begins_with(
            path,
            '/',
        )
}

proof fn places_differ(root: Seq<char>, a: Seq<char>, b: Seq<char>)
    requires
        !begins_with(a, '/'),
        !begins_with(b, '/'),
        local_path_of(root, a) == local_path_of(root, b),
    ensures
        a == b,
{
    reveal_strlit("/");
    if a.len() > 0 && b.len() > 0 {
        if root.len() == 0 {
        } else if root.last() == '/' {
            assert((root + a).skip(root.len() as int) =~= a);
            assert((root + b).skip(root.len() as int) =~= b);
        } else {
            assert((root + "/"@ + a).skip(root.len() as int + 1) =~= a);
            assert((root + "/"@ + b).skip(root.len() as int + 1) =~= b);
        }
    } else {
        assert(a.len() > 0 ==> local_path_of(root, a).len() > root.len());
        assert(b.len() > 0 ==> local_path_of(root, b).len() > root.len());
        assert(a =~= b);
    }
}

/// A reply that reports no failure.
pub open spec fn reports_no_failure(request: RequestView, reply: ReplyView) -> bool {
    match request {
        RequestView::Upload { .. } => reply matches ReplyView::Uploaded(result)
            && result.failures.len() == 0,
        RequestView::TrashRemote { .. } => reply matches ReplyView::Trashed(result)
            && result.failed_uids.len() == 0,
        _ => true,
    }
}

spec fn in_place(run: TwoWayRun, request: RequestView) -> bool {
    match run.stage {
        TwoWayStageView::Uploading { uploads, .. } => {
            &&& request !is TrashRemote
            &&& request is Upload ==> uploads.stage is Sending
        },
        TwoWayStageView::Trashing { cleanup, .. } => {
            &&& request !is Upload
            &&& request is TrashRemote ==> !cleanup.forgetting
        },
        _ => !run.before_plan() && request !is Upload && request !is TrashRemote,
    }
}

spec fn failing(run: TwoWayRun) -> bool {
    match run.stage {
        TwoWayStageView::Uploading { uploads, .. } => uploads.failures.len() > 0,
        TwoWayStageView::Trashing { cleanup, .. } => cleanup.failed.len() > 0,
        _ => false,
    }
}

spec fn leads_in_place(outcome: TwoWayOutcome) -> bool {
    outcome matches Ok(Progress::Ask(next, asked)) ==> in_place(next, asked)
}

proof fn begun_uploads_are_in_place(run: UploadsView)
    ensures
        match run.begun() {
            Err(_) => true,
            Ok(Progress::Ask(next, asked)) => {
                &&& asked !is TrashRemote
                &&& asked is Upload ==> next.stage is Sending
                &&& next.failures == run.failures
            },
            Ok(Progress::Done(_)) => run.failures.len() == 0,
        },
{
}

proof fn uploads_are_in_place(run: UploadsView, request: RequestView, reply: ReplyView)
    requires
        request !is TrashRemote,
        request is Upload ==> run.stage is Sending,
    ensures
        match run.stepped(reply) {
            Err(_) => true,
            Ok(Progress::Ask(next, asked)) => {
                &&& asked !is TrashRemote
                &&& asked is Upload ==> next.stage is Sending
                &&& run.failures.len() > 0 || !reports_no_failure(request, reply)
                    ==> next.failures.len() > 0
            },
            Ok(Progress::Done(_)) => run.failures.len() == 0 && reports_no_failure(request, reply),
        },
{
    if run.at < run.jobs.len() {
        begun_uploads_are_in_place(UploadsView { at: run.at + 1, ..run });
        if let ReplyView::Uploaded(result) = reply {
            begun_uploads_are_in_place(UploadsView { at: run.at + 1, ..run.tallied(result) });
        }
    }
}

proof fn after_fetch_in_place(
    sync: SyncConfigView,
    summary: SummaryView,
    remote_trash: Seq<TrashItemView>,
    local_trash: Seq<Seq<char>>,
    fetched: crate::fetch::FetchedView,
)
    ensures
        leads_in_place(TwoWayRun::fetched(sync, summary, remote_trash, local_trash, fetched)),
{
}

proof fn after_uploads_in_place(
    sync: SyncConfigView,
    summary: SummaryView,
    downloads: Seq<FetchItemView>,
    remote_trash: Seq<TrashItemView>,
    local_trash: Seq<Seq<char>>,
    tally: crate::uploads::UploadTallyView,
)
    ensures
        leads_in_place(
            TwoWayRun::uploaded(sync, summary, downloads, remote_trash, local_trash, tally),
        ),
{
    let counted = SummaryView {
        uploaded: tally.uploaded,
        matched_remote: tally.matched_remote,
        ..summary
    };
    if let Ok(Progress::Done(fetched)) = fetch_prepared(sync, downloads).advanced() {
        after_fetch_in_place(sync, counted, remote_trash, local_trash, fetched);
    }
}

proof fn after_commits_in_place(
    sync: SyncConfigView,
    summary: SummaryView,
    pending: Seq<PendingUpload<Seq<char>>>,
    downloads: Seq<FetchItemView>,
    remote_trash: Seq<TrashItemView>,
    local_trash: Seq<Seq<char>>,
)
    ensures
        leads_in_place(
            TwoWayRun::committed(sync, summary, pending, downloads, remote_trash, local_trash),
        ),
{
    begun_uploads_are_in_place(uploads_prepared(sync, pending));
    if let Ok(Progress::Done(tally)) = uploads_prepared(sync, pending).begun() {
        after_uploads_in_place(sync, summary, downloads, remote_trash, local_trash, tally);
    }
}

proof fn fetch_stays_in_place(run: FetchView, reply: ReplyView)
    ensures
        run.stepped(reply) matches Ok(Progress::Ask(_, asked)) ==> asked !is Upload && asked
            !is TrashRemote,
{
}

proof fn step_in_place(run: TwoWayRun, request: RequestView, reply: ReplyView)
    requires
        in_place(run, request),
    ensures
        leads_in_place(run.stepped(reply)),
        failing(run) || !reports_no_failure(request, reply) ==> match run.stepped(reply) {
            Err(_) => true,
            Ok(Progress::Ask(next, _)) => failing(next),
            Ok(Progress::Done(_)) => false,
        },
{
    match run.stage {
        TwoWayStageView::Committing {
            summary,
            pending,
            downloads,
            remote_trash,
            local_trash,
            ..
        } => after_commits_in_place(
            run.sync,
            summary,
            pending,
            downloads,
            remote_trash,
            local_trash,
        ),
        TwoWayStageView::Uploading { summary, downloads, remote_trash, local_trash, uploads } => {
            uploads_are_in_place(uploads, request, reply);
            if let Ok(Progress::Done(tally)) = uploads.stepped(reply) {
                after_uploads_in_place(
                    run.sync,
                    summary,
                    downloads,
                    remote_trash,
                    local_trash,
                    tally,
                );
            }
        },
        TwoWayStageView::Fetching { summary, remote_trash, local_trash, fetch } => {
            fetch_stays_in_place(fetch, reply);
            if let Ok(Progress::Done(fetched)) = fetch.stepped(reply) {
                after_fetch_in_place(run.sync, summary, remote_trash, local_trash, fetched);
            }
        },
        _ => {},
    }
}

proof fn failing_never_ends_well(
    at: Progress<TwoWayRun, RequestView, SummaryView>,
    replies: Seq<ReplyView>,
)
    requires
        at matches Progress::Ask(run, request) && in_place(run, request) && failing(run),
    ensures
        !(ending(two_way_step(), at, replies) matches Some(Ok(_))),
    decreases replies.len(),
{
    if replies.len() > 0 {
        step_in_place(at->Ask_0, at->Ask_1, replies[0]);
        if let Ok(next) = two_way_step()(at->Ask_0, replies[0]) {
            failing_never_ends_well(next, replies.drop_first());
        }
    }
}

proof fn no_failure_from(
    at: Progress<TwoWayRun, RequestView, SummaryView>,
    replies: Seq<ReplyView>,
)
    requires
        at matches Progress::Ask(run, request) ==> in_place(run, request),
        ending(two_way_step(), at, replies) matches Some(Ok(_)),
    ensures
        requests(two_way_step(), at, replies).len() <= replies.len(),
        forall|i: int|
            0 <= i < requests(two_way_step(), at, replies).len() ==> reports_no_failure(
                #[trigger] requests(two_way_step(), at, replies)[i],
                replies[i],
            ),
    decreases replies.len(),
{
    let step = two_way_step();
    let all = requests(step, at, replies);
    if let Progress::Ask(run, request) = at {
        step_in_place(run, request, replies[0]);
        let next = step(run, replies[0])->Ok_0;
        let left = replies.drop_first();
        let rest = requests(step, next, left);
        if !reports_no_failure(request, replies[0]) {
            failing_never_ends_well(next, left);
        }
        no_failure_from(next, left);
        assert(all =~= seq![request] + rest);
        assert forall|i: int| 0 <= i < all.len() implies reports_no_failure(
            #[trigger] all[i],
            replies[i],
        ) by {
            if i > 0 {
                assert(all[i] == rest[i - 1]);
                assert(replies[i] == left[i - 1]);
            }
        }
    } else {
        assert(all.len() == 0);
    }
}

proof fn planned_starts_in_place(sync: SyncConfigView, found: Findings)
    ensures
        leads_in_place(found.planned(sync)),
{
    if let Ok(actions) = found.sides(sync).plan() {
        let work = work_for(sync.name, found.local, found.remote(), actions);
        let summary = SummaryView {
            unchanged: work.checkpoints.len(),
            ..scan_summary(in_order(found.local.dom()).len(), found.scanned.symlinks.len())
        };
        after_commits_in_place(
            sync,
            summary,
            work.uploads,
            work.downloads,
            work.remote_trash,
            work.local_trash,
        );
    }
}

/// In a two-way sync that comes to a good end every request was answered, and no upload and no trash
/// command reported a failure.
pub proof fn a_good_end_has_no_failures(sync: SyncConfigView, replies: Seq<ReplyView>)
    requires
        ending(two_way_step(), two_way_started(sync), replies) matches Some(Ok(_)),
    ensures
        two_way_requests(sync, replies).len() <= replies.len(),
        forall|i: int|
            0 <= i < two_way_requests(sync, replies).len() ==> reports_no_failure(
                #[trigger] two_way_requests(sync, replies)[i],
                replies[i],
            ),
{
    findings_come_first(sync, replies);
    let (found, rest) = findings_from(two_way_started(sync), replies)->Some_0;
    let asked = two_way_requests(sync, replies);
    let n = replies.len() - rest.len();
    planned_starts_in_place(sync, found);
    let start = found.planned(sync)->Ok_0;
    no_failure_from(start, rest);
    let more = requests(two_way_step(), start, rest);
    assert(asked.len() == n + more.len());
    assert forall|i: int| 0 <= i < asked.len() implies reports_no_failure(
        #[trigger] asked[i],
        replies[i],
    ) by {
        if i >= n {
            assert(asked.skip(n)[i - n] == asked[i]);
            assert(replies.skip(n)[i - n] == replies[i]);
        } else {
            assert(harmless(asked[i]));
        }
    }
}

proof fn looking_forgets_nothing(
    states: Map<Seq<char>, FileState<Seq<char>>>,
    asked: Seq<RequestView>,
    n: int,
)
    requires
        0 <= n <= asked.len(),
        forall|i: int| 0 <= i < n ==> harmless(#[trigger] asked[i]),
    ensures
        remembered(states, asked) == remembered(states, asked.skip(n)),
    decreases n,
{
    if n > 0 {
        let rest = asked.drop_first();
        assert(harmless(asked[0]));
        assert forall|i: int| 0 <= i < n - 1 implies harmless(#[trigger] rest[i]) by {
            assert(rest[i] == asked[i + 1]);
        }
        looking_forgets_nothing(states, rest, n - 1);
        assert(rest.skip(n - 1) =~= asked.skip(n));
    } else {
        assert(asked.skip(0) =~= asked);
    }
}

/// A two-way sync that came to a good end.
spec fn good(run: Run) -> bool {
    &&& ending(two_way_step(), two_way_started(run.sync), run.replies) matches Some(Ok(_))
    &&& findings(run.sync, run.replies) == Some(run.found)
    &&& run.asked == two_way_requests(run.sync, run.replies)
    &&& run.found.states.dom().finite()
    &&& below_root(run.found)
}

spec fn rest_of(run: Run) -> Seq<ReplyView> {
    findings_from(two_way_started(run.sync), run.replies)->Some_0.1
}

spec fn start_of(run: Run) -> Progress<TwoWayRun, RequestView, SummaryView> {
    run.found.planned(run.sync)->Ok_0
}

spec fn looked(run: Run) -> int {
    run.replies.len() - rest_of(run).len()
}

proof fn good_run_goes_on(run: Run)
    requires
        good(run),
    ensures
        run.found.consistent(run.sync),
        run.found.planned(run.sync) is Ok,
        run.found.sides(run.sync).plan() is Ok,
        0 <= looked(run) <= run.asked.len(),
        rest_of(run) == run.replies.skip(looked(run)),
        forall|i: int| 0 <= i < looked(run) ==> harmless(#[trigger] run.asked[i]),
        run.asked.skip(looked(run)) == requests(two_way_step(), start_of(run), rest_of(run)),
        ending(two_way_step(), start_of(run), rest_of(run)) matches Some(Ok(_)),
        run.asked.len() <= run.replies.len(),
{
    findings_come_first(run.sync, run.replies);
    a_good_end_has_no_failures(run.sync, run.replies);
}

proof fn request_is_planned(run: Run, i: int)
    requires
        good(run),
        0 <= i < run.asked.len(),
    ensures
        is_planned(
            run.asked[i],
            run.sync,
            run.found.local,
            run.found.remote(),
            run.found.sides(run.sync).plan()->Ok_0,
        ),
{
    good_run_goes_on(run);
    let found = run.found;
    only_planned_changes_are_made(
        run.sync,
        found.states,
        found.scanned,
        found.local,
        found.tree,
        rest_of(run),
    );
    if i >= looked(run) {
        assert(run.asked.skip(looked(run))[i - looked(run)] == run.asked[i]);
        assert(is_planned(
            requests(two_way_step(), start_of(run), rest_of(run))[i - looked(run)],
            run.sync,
            found.local,
            found.remote(),
            found.sides(run.sync).plan()->Ok_0,
        ));
    } else {
        assert(harmless(run.asked[i]));
    }
}

spec fn decided(run: Run, path: Seq<char>, action: TwoWayAction<Seq<char>>) -> bool {
    run.found.sides(run.sync).decision(path) == Ok::<
        Option<TwoWayAction<Seq<char>>>,
        Fault<Seq<char>>,
    >(Some(action))
}

proof fn planned_is_decided(run: Run, action: TwoWayAction<Seq<char>>)
    requires
        good(run),
        run.found.sides(run.sync).plan()->Ok_0.contains(action),
    ensures
        decided(run, action.target(), action),
        action is Checkpoint || action is Upload || action is TrashLocal
            ==> run.found.local.contains_key(action.target()),
        action is Download || action is TrashRemote ==> run.found.remote().contains_key(
            action.target(),
        ),
        !begins_with(action.target(), '/'),
        run.found.local.contains_key(action.target())
            ==> run.found.local[action.target()].file.relative == action.target(),
{
    good_run_goes_on(run);
    let sides = run.found.sides(run.sync);
    sides.plan_has_reasons();
    let actions = sides.plan()->Ok_0;
    let i = choose|i: int| 0 <= i < actions.len() && actions[i] == action;
    assert(sides.decision(sides.plan()->Ok_0[i].target()) is Ok);
    sides.decision_is_about(action.target(), action);
    if run.found.local.contains_key(action.target()) {
        assert(run.found.scanned.files.contains_key(action.target()));
    }
}

proof fn installed_means_download(run: Run, path: Seq<char>, i: int)
    requires
        good(run),
        !begins_with(path, '/'),
        0 <= i < run.asked.len(),
        installs(run.asked[i], run.sync.local, path),
    ensures
        decided(run, path, TwoWayAction::Download { path }),
        i > 1,
        run.replies[i - 2]->Stat_0.size == run.found.remote()[path].claimed_size,
        same_ignoring_case(run.replies[i - 1]->Digest_0, run.found.remote()[path].sha1),
{
    good_run_goes_on(run);
    let n = looked(run);
    let found = run.found;
    if i < n {
        assert(harmless(run.asked[i]));
    }
    let more = requests(two_way_step(), start_of(run), rest_of(run));
    assert(run.asked.skip(n)[i - n] == run.asked[i]);
    fetched_content_is_verified(
        run.sync,
        found.states,
        found.scanned,
        found.local,
        found.tree,
        rest_of(run),
        i - n,
    );
    let actions = found.sides(run.sync).plan()->Ok_0;
    let other = choose|other: Seq<char>|
        actions.contains(TwoWayAction::Download { path: other }) && #[trigger] verified_install(
            run.sync,
            other,
            found.remote()[other],
            more,
            rest_of(run),
            i - n,
        );
    planned_is_decided(run, TwoWayAction::Download { path: other });
    places_differ(run.sync.local, path, other);
    assert(rest_of(run)[i - n - 2] == run.replies[i - 2]);
    assert(rest_of(run)[i - n - 1] == run.replies[i - 1]);
}

proof fn removed_means_trash_local(run: Run, path: Seq<char>)
    requires
        good(run),
        !begins_with(path, '/'),
        run.removed(path),
    ensures
        decided(run, path, TwoWayAction::TrashLocal { path }),
{
    let i = choose|i: int|
        0 <= i < run.asked.len() && removes(#[trigger] run.asked[i], run.sync.local, path);
    request_is_planned(run, i);
    let actions = run.found.sides(run.sync).plan()->Ok_0;
    let place = local_path_of(run.sync.local, path);
    let other = choose|other: Seq<char>| #[trigger]
        actions.contains(TwoWayAction::TrashLocal { path: other }) && place == local_path_of(
            run.sync.local,
            other,
        );
    planned_is_decided(run, TwoWayAction::TrashLocal { path: other });
    places_differ(run.sync.local, path, other);
}

proof fn uploaded_means_upload(run: Run, path: Seq<char>)
    requires
        good(run),
        !begins_with(path, '/'),
        run.uploaded(path),
    ensures
        run.found.local.contains_key(path),
        decided(
            run,
            path,
            TwoWayAction::Upload { path, sha1: run.found.local[path].sha1 },
        ),
{
    let i = choose|i: int|
        0 <= i < run.asked.len() && upload_reported(
            #[trigger] run.asked[i],
            run.replies[i],
            run.sync.local,
            path,
        );
    request_is_planned(run, i);
    let actions = run.found.sides(run.sync).plan()->Ok_0;
    let place = local_path_of(run.sync.local, path);
    let files = run.asked[i]->Upload_files;
    let k = choose|k: int| 0 <= k < files.len() && files[k] == place;
    assert(is_planned_upload(files[k], run.sync.local, run.found.local, actions));
    let (other, sha1) = choose|other: Seq<char>, sha1: Seq<char>| #[trigger]
        actions.contains(TwoWayAction::Upload { path: other, sha1 }) && place == local_path_of(
            run.sync.local,
            run.found.local[other].file.relative,
        );
    planned_is_decided(run, TwoWayAction::Upload { path: other, sha1 });
    places_differ(run.sync.local, path, other);
}

proof fn trashed_means_trash_remote(run: Run, path: Seq<char>)
    requires
        good(run),
        run.trashed(path),
    ensures
        decided(run, path, TwoWayAction::TrashRemote { path }),
{
    let item = TrashItemView { path, file: run.found.remote()[path] };
    let i = choose|i: int|
        0 <= i < run.asked.len() && trash_reported(
            #[trigger] run.asked[i],
            run.replies[i],
            run.sync.remote,
            item,
        );
    request_is_planned(run, i);
    let actions = run.found.sides(run.sync).plan()->Ok_0;
    let targets = run.asked[i]->TrashRemote_targets;
    let target = TrashTargetView {
        remote_path: drive_path(run.sync.remote, path),
        uid: item.file.uid,
    };
    let k = choose|k: int| 0 <= k < targets.len() && targets[k] == target;
    assert(is_planned_trash(targets[k], run.sync.remote, run.found.remote(), actions));
    let other = choose|other: Seq<char>| #[trigger]
        actions.contains(TwoWayAction::TrashRemote { path: other }) && target == (TrashTargetView {
            remote_path: drive_path(run.sync.remote, other),
            uid: run.found.remote()[other].uid,
        });
    planned_is_decided(run, TwoWayAction::TrashRemote { path: other });
    drive_path_is_injective(run.sync.remote, path, other);
}

proof fn decided_is_done(run: Run, path: Seq<char>, action: TwoWayAction<Seq<char>>)
    requires
        good(run),
        decided(run, path, action),
    ensures
        action.target() == path,
        match action {
            TwoWayAction::Checkpoint { .. } => true,
            TwoWayAction::Upload { .. } => run.uploaded(path),
            TwoWayAction::Download { .. } => run.installed(path),
            TwoWayAction::TrashRemote { .. } => run.trashed(path),
            TwoWayAction::TrashLocal { .. } => run.removed(path),
        },
{
    good_run_goes_on(run);
    let found = run.found;
    let sides = found.sides(run.sync);
    found.sides_are_finite(run.sync);
    sides.plan_is_exact();
    sides.decision_is_about(path, action);
    assert(sides.plan()->Ok_0.contains(action));
    planned_is_decided(run, action);
    every_action_is_carried_out(
        run.sync,
        found.states,
        found.scanned,
        found.local,
        found.tree,
        rest_of(run),
        action,
    );
    let more = requests(two_way_step(), start_of(run), rest_of(run));
    let j = choose|j: int|
        0 <= j < more.len() && carries_out(
            #[trigger] more[j],
            run.sync,
            found.local,
            found.remote(),
            action,
        );
    let i = looked(run) + j;
    assert(run.asked.skip(looked(run))[j] == run.asked[i]);
    a_good_end_has_no_failures(run.sync, run.replies);
    assert(reports_no_failure(two_way_requests(run.sync, run.replies)[i], run.replies[i]));
    match action {
        TwoWayAction::Upload { .. } => {
            assert(upload_reported(run.asked[i], run.replies[i], run.sync.local, path));
        },
        TwoWayAction::Download { .. } => {
            assert(installs(run.asked[i], run.sync.local, path));
        },
        TwoWayAction::TrashRemote { .. } => {
            let item = TrashItemView { path, file: found.remote()[path] };
            assert(trash_reported(run.asked[i], run.replies[i], run.sync.remote, item));
        },
        TwoWayAction::TrashLocal { .. } => {
            assert(removes(run.asked[i], run.sync.local, path));
        },
        _ => {},
    }
}

proof fn digest_is_kept(
    run: Run,
    after: Findings,
    path: Seq<char>,
    action: TwoWayAction<Seq<char>>,
    sha1: Seq<char>,
    digest: Seq<char>,
)
    requires
        good(run),
        after.consistent(run.sync),
        after.states == remembered(run.found.states, run.asked),
        decided(run, path, action),
        leaves_digest(action, run.found.remote(), sha1),
        after.local.contains_key(path),
        has_digest(after, path, digest),
    ensures
        after.local[path].sha1 == sha1 || same_ignoring_case(after.local[path].sha1, digest),
{
    good_run_goes_on(run);
    let found = run.found;
    let sides = found.sides(run.sync);
    found.sides_are_finite(run.sync);
    sides.plan_is_exact();
    sides.decision_is_about(path, action);
    assert(sides.plan()->Ok_0.contains(action));
    every_digest_is_remembered(run.sync, found, rest_of(run), action, sha1);
    looking_forgets_nothing(found.states, run.asked, looked(run));
    assert(knows(after.states, path, sha1));
    assert(after.scanned.files.contains_key(path));
    assert(after.scanned.files[path].relative == path);
}

/// A path at which both sides have the same content, or neither has a file.
pub open spec fn settled(sides: TwoWayView, path: Seq<char>) -> bool {
    &&& sides.local.contains_key(path) == sides.remote.contains_key(path)
    &&& sides.local.contains_key(path) ==> contents_agree(sides.local[path], sides.remote[path])
}

proof fn path_is_settled(run: Run, after: Findings, path: Seq<char>)
    requires
        good(run),
        after.consistent(run.sync),
        below_root(after),
        run.left(after),
    ensures
        settled(after.sides(run.sync), path),
{
    let found = run.found;
    good_run_goes_on(run);
    let sides = found.sides(run.sync);
    assert(after.local.contains_key(path) == after.scanned.files.contains_key(path));
    assert(found.local.contains_key(path) == found.scanned.files.contains_key(path));
    if begins_with(path, '/') {
        assert(!after.local.contains_key(path) && !after.remote().contains_key(path));
    } else {
        assert(run.left_remotely(after, path) && run.left_locally(after, path));
        found.sides_are_finite(run.sync);
        sides.no_plan_with_a_conflict();
        assert(sides.decision(path) is Ok);
        if run.removed(path) {
            removed_means_trash_local(run, path);
        }
        if run.installed(path) {
            let i = choose|i: int|
                0 <= i < run.asked.len() && installs(#[trigger] run.asked[i], run.sync.local, path);
            installed_means_download(run, path, i);
        }
        if run.uploaded(path) {
            uploaded_means_upload(run, path);
        }
        if run.trashed(path) {
            trashed_means_trash_remote(run, path);
        }
        if let Some(action) = sides.decision(path)->Ok_0 {
            decided_is_done(run, path, action);
            sides.decision_is_about(path, action);
            match action {
                TwoWayAction::Checkpoint { sha1, .. } => {
                    let digest = found.local[path].sha1;
                    assert(sha1 == digest);
                    digest_is_kept(run, after, path, action, sha1, digest);
                    if after.local[path].sha1 != sha1 {
                        same_ignoring_case_transitive(
                            after.local[path].sha1,
                            digest,
                            found.remote()[path].sha1,
                        );
                    }
                    assert(after.local[path].file == found.local[path].file);
                },
                TwoWayAction::Upload { sha1, .. } => {
                    let digest = found.local[path].sha1;
                    assert(sha1 == digest);
                    digest_is_kept(run, after, path, action, sha1, digest);
                    same_ignoring_case_symmetric(after.remote()[path].sha1, digest);
                    if after.local[path].sha1 != sha1 {
                        same_ignoring_case_transitive(
                            after.local[path].sha1,
                            digest,
                            after.remote()[path].sha1,
                        );
                    }
                    assert(after.local[path].file == found.local[path].file);
                },
                TwoWayAction::Download { .. } => {
                    let i = choose|i: int|
                        0 <= i < run.asked.len() && installs(
                            #[trigger] run.asked[i],
                            run.sync.local,
                            path,
                        );
                    installed_means_download(run, path, i);
                    let (digest, sha1) = (
                        run.replies[i - 1]->Digest_0,
                        found.remote()[path].sha1,
                    );
                    assert(has_digest(after, path, digest));
                    digest_is_kept(run, after, path, action, sha1, digest);
                    same_ignoring_case_symmetric(digest, sha1);
                    same_ignoring_case_transitive(sha1, digest, sha1);
                    if after.local[path].sha1 != sha1 {
                        same_ignoring_case_transitive(after.local[path].sha1, digest, sha1);
                    }
                },
                TwoWayAction::TrashRemote { .. } => {
                    assert(!found.local.contains_key(path));
                },
                TwoWayAction::TrashLocal { .. } => {
                    assert(!found.remote().contains_key(path));
                },
            }
        } else {
            assert(!found.local.contains_key(path) && !found.remote().contains_key(path));
        }
    }
}

proof fn settled_sides_have_an_idle_plan(sides: TwoWayView)
    requires
        sides.finite(),
        forall|path: Seq<char>| #[trigger] settled(sides, path),
    ensures
        sides.plan() matches Ok(actions) && {
            &&& actions.len() == in_order(sides.local.dom()).len()
            &&& forall|i: int| 0 <= i < actions.len() ==> (#[trigger] actions[i]) is Checkpoint
        },
{
    assert forall|path: Seq<char>| (#[trigger] sides.decision(path)) is Ok && (sides.decision(
        path,
    )->Ok_0 matches Some(action) ==> action is Checkpoint && sides.local.contains_key(path)) && (
    sides.local.contains_key(path) ==> sides.decision(path)->Ok_0 is Some) by {
        assert(settled(sides, path));
    }
    sides.no_plan_with_a_conflict();
    sides.plan_is_exact();
    let actions = sides.plan()->Ok_0;
    let targets = actions.map_values(|action: TwoWayAction<Seq<char>>| action.target());
    assert forall|i: int| 0 <= i < actions.len() implies (#[trigger] actions[i]) is Checkpoint
        && sides.local.contains_key(targets[i]) by {
        assert(sides.decision(sides.plan()->Ok_0[i].target()) is Ok);
    }
    assert forall|i: int, j: int| 0 <= i < j < targets.len() implies targets[i] != targets[j] by {
        assert(text_lt(sides.plan()->Ok_0[i].target(), sides.plan()->Ok_0[j].target()));
        text_lt_irreflexive(targets[i]);
    }
    assert(targets.to_set() =~= sides.local.dom()) by {
        assert forall|path: Seq<char>| #[trigger] sides.local.dom().contains(path) implies
            targets.to_set().contains(path) by {
            assert(sides.decision(path) is Ok);
            let action = sides.decision(path)->Ok_0->0;
            sides.decision_is_about(path, action);
            assert(sides.plan()->Ok_0.contains(action));
            let i = choose|i: int| 0 <= i < actions.len() && actions[i] == action;
            assert(targets[i] == path);
        }
        assert forall|path: Seq<char>| #[trigger] targets.to_set().contains(path) implies
            sides.local.dom().contains(path) by {
            let i = choose|i: int| 0 <= i < targets.len() && targets[i] == path;
            assert(actions[i] is Checkpoint);
        }
    }
    let paths = in_order(sides.local.dom());
    in_order_is_ordered(sides.local.dom());
    assert forall|i: int, j: int| 0 <= i < j < paths.len() implies paths[i] != paths[j] by {
        assert(text_lt(paths[i], paths[j]));
        text_lt_irreflexive(paths[i]);
    }
    targets.unique_seq_to_set();
    paths.unique_seq_to_set();
}

proof fn idle_work(
    mirror: Seq<char>,
    local: Map<Seq<char>, LocalSnapshot<Seq<char>>>,
    remote: Map<Seq<char>, RemoteFileView>,
    actions: Seq<TwoWayAction<Seq<char>>>,
)
    requires
        forall|i: int| 0 <= i < actions.len() ==> (#[trigger] actions[i]) is Checkpoint,
    ensures
        ({
            let work = work_for(mirror, local, remote, actions);
            &&& work.checkpoints.len() == actions.len()
            &&& work.uploads.len() == 0
            &&& work.downloads.len() == 0
            &&& work.remote_trash.len() == 0
            &&& work.local_trash.len() == 0
        }),
    decreases actions.len(),
{
    if actions.len() > 0 {
        let before = actions.drop_last();
        assert forall|i: int| 0 <= i < before.len() implies (#[trigger] before[i]) is Checkpoint by {
            assert(before[i] == actions[i]);
        }
        idle_work(mirror, local, remote, before);
        assert(actions[actions.len() - 1] is Checkpoint);
    }
}

/// The summary of a sync that found both sides the same.
pub open spec fn idle(summary: SummaryView) -> bool {
    &&& summary.uploaded == 0
    &&& summary.matched_remote == 0
    &&& summary.downloaded == 0
    &&& summary.trashed == 0
    &&& summary.trashed_local == 0
    &&& summary.unchanged == summary.scanned
}

proof fn nothing_left_to_do(sync: SyncConfigView, summary: SummaryView, work: WorkView)
    requires
        work.uploads.len() == 0,
        work.downloads.len() == 0,
        work.remote_trash.len() == 0,
        work.local_trash.len() == 0,
    ensures
        TwoWayRun::committed(
            sync,
            summary,
            work.uploads,
            work.downloads,
            work.remote_trash,
            work.local_trash,
        ) matches Ok(Progress::Done(end)) && end == (SummaryView {
            uploaded: 0,
            matched_remote: 0,
            downloaded: 0,
            trashed: 0,
            trashed_local: 0,
            ..summary
        }),
{
    in_order_is_ordered(Set::<Seq<char>>::empty());
    let parents = in_order(Set::<Seq<char>>::empty());
    assert(parents.len() == 0) by {
        if parents.len() > 0 {
            assert(parents.to_set().contains(parents[0]));
        }
    }
    assert(upload_jobs(work.uploads).len() == 0);
}

spec fn idling(sync: SyncConfigView, at: Progress<TwoWayRun, RequestView, SummaryView>) -> bool {
    match at {
        Progress::Done(summary) => idle(summary),
        Progress::Ask(run, request) => {
            &&& request is Commit
            &&& run.sync == sync
            &&& run.stage matches TwoWayStageView::Committing {
                summary,
                pending,
                downloads,
                remote_trash,
                local_trash,
                ..
            } && {
                &&& summary.unchanged == summary.scanned
                &&& pending.len() == 0
                &&& downloads.len() == 0
                &&& remote_trash.len() == 0
                &&& local_trash.len() == 0
            }
        },
    }
}

/// A transaction that the database did not answer.
pub open spec fn refused(request: RequestView, reply: ReplyView) -> bool {
    request is Commit && reply !is Done
}

proof fn idles_to_the_end(
    sync: SyncConfigView,
    at: Progress<TwoWayRun, RequestView, SummaryView>,
    replies: Seq<ReplyView>,
)
    requires
        idling(sync, at),
    ensures
        forall|i: int|
            0 <= i < requests(two_way_step(), at, replies).len() ==> (#[trigger] requests(
                two_way_step(),
                at,
                replies,
            )[i]) is Commit,
        match ending(two_way_step(), at, replies) {
            None => true,
            Some(Ok(summary)) => idle(summary),
            Some(Err(_)) => exists|i: int|
                0 <= i < requests(two_way_step(), at, replies).len() && i < replies.len()
                    && refused(#[trigger] requests(two_way_step(), at, replies)[i], replies[i]),
        },
    decreases replies.len(),
{
    let step = two_way_step();
    let all = requests(step, at, replies);
    if let Progress::Ask(run, request) = at {
        assert(all[0] == request);
        if replies.len() > 0 {
            if let TwoWayStageView::Committing {
                summary,
                pending,
                downloads,
                remote_trash,
                local_trash,
                ..
            } = run.stage {
                let work = WorkView {
                    checkpoints: Seq::empty(),
                    uploads: pending,
                    downloads,
                    remote_trash,
                    local_trash,
                };
                nothing_left_to_do(sync, summary, work);
            }
            match step(run, replies[0]) {
                Ok(next) => {
                    let left = replies.drop_first();
                    let rest = requests(step, next, left);
                    idles_to_the_end(sync, next, left);
                    assert(all =~= seq![request] + rest);
                    if ending(step, at, replies) matches Some(Err(_)) {
                        let i = choose|i: int|
                            0 <= i < rest.len() && i < left.len() && refused(
                                #[trigger] rest[i],
                                left[i],
                            );
                        assert(all[i + 1] == rest[i]);
                        assert(refused(all[i + 1], replies[i + 1]));
                    }
                },
                Err(_) => {
                    assert(refused(all[0], replies[0]));
                },
            }
        }
    }
}

proof fn settled_findings_are_idle(sync: SyncConfigView, after: Findings)
    requires
        after.consistent(sync),
        after.states.dom().finite(),
        forall|path: Seq<char>| #[trigger] settled(after.sides(sync), path),
    ensures
        after.planned(sync) matches Ok(next) && idling(sync, next),
{
    let sides = after.sides(sync);
    after.sides_are_finite(sync);
    settled_sides_have_an_idle_plan(sides);
    let actions = sides.plan()->Ok_0;
    let (local, remote) = (after.local, after.remote());
    idle_work(sync.name, local, remote, actions);
    let work = work_for(sync.name, local, remote, actions);
    let summary = SummaryView {
        unchanged: work.checkpoints.len(),
        ..scan_summary(in_order(local.dom()).len(), after.scanned.symlinks.len())
    };
    nothing_left_to_do(sync, summary, work);
}

proof fn memory_stays_finite(
    states: Map<Seq<char>, FileState<Seq<char>>>,
    asked: Seq<RequestView>,
)
    requires
        states.dom().finite(),
    ensures
        remembered(states, asked).dom().finite(),
    decreases asked.len(),
{
    if asked.len() > 0 {
        let next = remembered_after(states, asked[0]);
        match asked[0] {
            RequestView::Commit { checkpoints } => commits_stay_finite(states, checkpoints),
            RequestView::DeleteStates { paths, .. } => {
                assert(next.dom().subset_of(states.dom()));
                vstd::set_lib::lemma_set_subset_finite(states.dom(), next.dom());
            },
            _ => {},
        }
        memory_stays_finite(next, asked.drop_first());
    }
}

proof fn commits_stay_finite(
    states: Map<Seq<char>, FileState<Seq<char>>>,
    checkpoints: Seq<FileCheckpoint<Seq<char>>>,
)
    requires
        states.dom().finite(),
    ensures
        committed(states, checkpoints).dom().finite(),
    decreases checkpoints.len(),
{
    if checkpoints.len() > 0 {
        commits_stay_finite(states, checkpoints.drop_last());
    }
}

/// A second two-way sync changes nothing. A first one came to a good end; what it reported to have
/// uploaded, downloaded and trashed is so, what it remembered is remembered, and nothing has changed
/// since. Then a second sync that gets to see both sides neither uploads nor downloads, makes no
/// folder, puts no file in its place and trashes none, whatever the policies for deletions and
/// conflicts are: it looks, and remembers again what it remembered. Unless the database refuses
/// that, it ends well, with every file counted as unchanged.
///
/// A file that the local scan passes over, such as the readiness marker, is never among what a
/// second sync finds, so that a remote file at its path keeps being downloaded.
pub proof fn a_second_sync_changes_nothing(
    sync: SyncConfigView,
    replies: Seq<ReplyView>,
    again: Seq<ReplyView>,
)
    requires
        ending(two_way_step(), two_way_started(sync), replies) matches Some(Ok(_)),
        findings(sync, again) is Some,
        findings(sync, replies)->0.states.dom().finite(),
        below_root(findings(sync, replies)->0),
        below_root(findings(sync, again)->0),
        (Run {
            sync,
            found: findings(sync, replies)->0,
            asked: two_way_requests(sync, replies),
            replies,
        }).left(findings(sync, again)->0),
    ensures
        forall|i: int|
            0 <= i < two_way_requests(sync, again).len() ==> {
                let request = #[trigger] two_way_requests(sync, again)[i];
                harmless(request) || request is Commit
            },
        match ending(two_way_step(), two_way_started(sync), again) {
            None => true,
            Some(Ok(summary)) => idle(summary),
            Some(Err(_)) => exists|i: int|
                0 <= i < two_way_requests(sync, again).len() && i < again.len() && refused(
                    #[trigger] two_way_requests(sync, again)[i],
                    again[i],
                ),
        },
{
    findings_come_first(sync, replies);
    findings_come_first(sync, again);
    let run = Run {
        sync,
        found: findings(sync, replies)->0,
        asked: two_way_requests(sync, replies),
        replies,
    };
    let (after, rest) = findings_from(two_way_started(sync), again)->Some_0;
    assert(good(run));
    assert forall|path: Seq<char>| #[trigger] settled(after.sides(sync), path) by {
        path_is_settled(run, after, path);
    }
    memory_stays_finite(run.found.states, run.asked);
    settled_findings_are_idle(sync, after);
    let next = after.planned(sync)->Ok_0;
    idles_to_the_end(sync, next, rest);
    let asked = two_way_requests(sync, again);
    let n = again.len() - rest.len();
    let more = requests(two_way_step(), next, rest);
    assert forall|i: int| 0 <= i < asked.len() implies {
        let request = #[trigger] asked[i];
        harmless(request) || request is Commit
    } by {
        if i >= n {
            assert(asked.skip(n)[i - n] == asked[i]);
            assert(more[i - n] is Commit);
        } else {
            assert(harmless(asked[i]));
        }
    }
    if ending(two_way_step(), two_way_started(sync), again) matches Some(Err(_)) {
        let j = choose|j: int|
            0 <= j < more.len() && j < rest.len() && refused(#[trigger] more[j], rest[j]);
        assert(asked.skip(n)[j] == asked[n + j]);
        assert(rest[j] == again[n + j]);
        assert(refused(asked[n + j], again[n + j]));
    }
}

} // verus!
