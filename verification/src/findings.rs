//! What a two-way sync finds before it plans.

use crate::config::SyncConfigView;
use crate::drive::RemoteFileView;
use crate::error::Fault;
use crate::exchange::{Progress, ReplyView, RequestView};
use crate::inventory::RemoteTreeView;
use crate::plan::{two_way_view, LocalSnapshot, TwoWayView};
use crate::scan::ScannedView;
use crate::soundness::{inventory_steps, scan_steps, sound_scan, sound_scanned};
use crate::state::FileState;
use crate::summary::SummaryView;
use crate::text::{in_order, in_order_is_ordered};
use crate::trace::{ending, requests};
use crate::two_way::{remembered_digest, two_way_started, unexcluded, TwoWayOutcome, TwoWayRun};
use crate::two_way::TwoWayStageView;
use crate::two_way_laws::{harmless, planning_is_harmless, two_way_step};
use vstd::prelude::*;

verus! {

/// What a two-way sync found: what is remembered, the local files and their digests, and the remote
/// tree.
#[verifier::ext_equal]
pub struct Findings {
    pub states: Map<Seq<char>, FileState<Seq<char>>>,
    pub scanned: ScannedView,
    pub local: Map<Seq<char>, LocalSnapshot<Seq<char>>>,
    pub tree: RemoteTreeView,
}

impl Findings {
    /// The remote files that are not excluded.
    pub open spec fn remote(self) -> Map<Seq<char>, RemoteFileView> {
        unexcluded(self.scanned.patterns, self.tree.files)
    }

    /// What is planned from.
    pub open spec fn sides(self, sync: SyncConfigView) -> TwoWayView {
        two_way_view(sync, self.local, self.remote(), self.states)
    }

    /// What the sync does with it.
    pub open spec fn planned(self, sync: SyncConfigView) -> TwoWayOutcome {
        TwoWayRun::listed(sync, self.states, self.scanned, self.local, self.tree)
    }

    /// The local files are those of the scan, with the digest that is remembered where one is.
    pub open spec fn consistent(self, sync: SyncConfigView) -> bool {
        &&& sound_scanned(sync, self.scanned)
        &&& self.tree.files.dom().finite()
        &&& self.local.dom() == self.scanned.files.dom()
        &&& digested(self.states, self.scanned, self.local)
    }
}

impl Findings {
    /// What is planned from is finite.
    pub proof fn sides_are_finite(self, sync: SyncConfigView)
        requires
            self.consistent(sync),
            self.states.dom().finite(),
        ensures
            self.sides(sync).finite(),
    {
        assert(self.remote().dom().subset_of(self.tree.files.dom()));
        vstd::set_lib::lemma_set_subset_finite(self.tree.files.dom(), self.remote().dom());
    }
}

/// What a two-way sync has found once the reply completes the remote tree.
pub open spec fn found_by(run: TwoWayRun, reply: ReplyView) -> Option<Findings> {
    match run.stage {
        TwoWayStageView::Listing { states, scanned, local, inventory } => {
            match inventory.stepped(reply) {
                Ok(Progress::Done(tree)) => Some(Findings { states, scanned, local, tree }),
                _ => None,
            }
        },
        _ => None,
    }
}

/// What a two-way sync that is given `replies` one by one finds before it plans, and the replies
/// that are left then.
pub open spec fn findings_from(
    at: Progress<TwoWayRun, RequestView, SummaryView>,
    replies: Seq<ReplyView>,
) -> Option<(Findings, Seq<ReplyView>)>
    decreases replies.len(),
{
    match at {
        Progress::Done(_) => None,
        Progress::Ask(run, _) => if replies.len() == 0 {
            None
        } else {
            match found_by(run, replies[0]) {
                Some(found) => Some((found, replies.drop_first())),
                None => match run.stepped(replies[0]) {
                    Ok(next) => findings_from(next, replies.drop_first()),
                    Err(_) => None,
                },
            }
        },
    }
}

/// What a two-way sync that is given `replies` one by one finds before it plans; nothing if it does
/// not get that far.
pub open spec fn findings(sync: SyncConfigView, replies: Seq<ReplyView>) -> Option<Findings> {
    match findings_from(two_way_started(sync), replies) {
        Some((found, _)) => Some(found),
        None => None,
    }
}

/// Every local file has the digest that is remembered of it, if one is.
pub open spec fn digested(
    states: Map<Seq<char>, FileState<Seq<char>>>,
    scanned: ScannedView,
    local: Map<Seq<char>, LocalSnapshot<Seq<char>>>,
) -> bool {
    forall|path: Seq<char>| #[trigger]
        local.contains_key(path) ==> {
            &&& local[path].file == scanned.files[path]
            &&& remembered_digest(states, scanned.files[path]) matches Some(sha1)
                ==> local[path].sha1 == sha1
        }
}

spec fn digested_up_to(
    states: Map<Seq<char>, FileState<Seq<char>>>,
    scanned: ScannedView,
    local: Map<Seq<char>, LocalSnapshot<Seq<char>>>,
    at: nat,
) -> bool {
    &&& at <= in_order(scanned.files.dom()).len()
    &&& local.dom() == in_order(scanned.files.dom()).take(at as int).to_set()
    &&& digested(states, scanned, local)
}

spec fn looking(sync: SyncConfigView, run: TwoWayRun) -> bool {
    run.sync == sync && match run.stage {
        TwoWayStageView::Checking(_) => true,
        TwoWayStageView::LoadingStates => true,
        TwoWayStageView::Scanning { scan, .. } => sound_scan(sync, scan),
        TwoWayStageView::Hashing { states, scanned, local, at } => {
            &&& sound_scanned(sync, scanned)
            &&& digested_up_to(states, scanned, local, at)
            &&& at < in_order(scanned.files.dom()).len()
            &&& remembered_digest(
                states,
                scanned.files[in_order(scanned.files.dom())[at as int]],
            ) is None
        },
        TwoWayStageView::Listing { states, scanned, local, inventory } => {
            &&& sound_scanned(sync, scanned)
            &&& local.dom() == scanned.files.dom()
            &&& digested(states, scanned, local)
            &&& inventory.tree.files.dom().finite()
        },
        _ => false,
    }
}

proof fn one_more_digest(
    states: Map<Seq<char>, FileState<Seq<char>>>,
    scanned: ScannedView,
    local: Map<Seq<char>, LocalSnapshot<Seq<char>>>,
    at: nat,
    sha1: Seq<char>,
)
    requires
        scanned.files.dom().finite(),
        digested_up_to(states, scanned, local, at),
        at < in_order(scanned.files.dom()).len(),
        remembered_digest(
            states,
            scanned.files[in_order(scanned.files.dom())[at as int]],
        ) matches Some(remembered) ==> sha1 == remembered,
    ensures
        ({
            let path = in_order(scanned.files.dom())[at as int];
            digested_up_to(
                states,
                scanned,
                local.insert(path, LocalSnapshot { file: scanned.files[path], sha1 }),
                at + 1,
            )
        }),
{
    let paths = in_order(scanned.files.dom());
    let path = paths[at as int];
    let more = local.insert(path, LocalSnapshot { file: scanned.files[path], sha1 });
    let (some, next) = (paths.take(at as int), paths.take((at + 1) as int));
    assert(next =~= some.push(path));
    assert forall|other: Seq<char>| #[trigger] next.to_set().contains(other) implies
        some.to_set().insert(path).contains(other) by {
        let k = choose|k: int| 0 <= k < next.len() && next[k] == other;
        if k < at {
            assert(some[k] == other);
        }
    }
    assert forall|other: Seq<char>| #[trigger]
        some.to_set().insert(path).contains(other) implies next.to_set().contains(other) by {
        if other == path {
            assert(next[at as int] == other);
        } else {
            let k = choose|k: int| 0 <= k < some.len() && some[k] == other;
            assert(next[k] == other);
        }
    }
    assert(more.dom() =~= next.to_set());
}

proof fn hashing_looks(
    sync: SyncConfigView,
    states: Map<Seq<char>, FileState<Seq<char>>>,
    scanned: ScannedView,
    local: Map<Seq<char>, LocalSnapshot<Seq<char>>>,
    at: nat,
)
    requires
        sound_scanned(sync, scanned),
        digested_up_to(states, scanned, local, at),
    ensures
        TwoWayRun::hashing(sync, states, scanned, local, at) matches Ok(Progress::Ask(next, _))
            && looking(sync, next),
    decreases in_order(scanned.files.dom()).len() - at,
{
    let paths = in_order(scanned.files.dom());
    in_order_is_ordered(scanned.files.dom());
    if at >= paths.len() {
        assert(paths.take(at as int) =~= paths);
    } else {
        let path = paths[at as int];
        let file = scanned.files[path];
        if let Some(sha1) = remembered_digest(states, file) {
            one_more_digest(states, scanned, local, at, sha1);
            hashing_looks(
                sync,
                states,
                scanned,
                local.insert(path, LocalSnapshot { file, sha1 }),
                at + 1,
            );
        }
    }
}

proof fn looks_on(sync: SyncConfigView, run: TwoWayRun, reply: ReplyView)
    requires
        looking(sync, run),
    ensures
        match found_by(run, reply) {
            Some(found) => found.consistent(sync) && run.stepped(reply) == found.planned(sync),
            None => match run.stepped(reply) {
                Ok(Progress::Ask(next, _)) => looking(sync, next),
                Ok(Progress::Done(_)) => false,
                Err(_) => true,
            },
        },
{
    match run.stage {
        TwoWayStageView::Scanning { states, scan } => {
            scan_steps(sync, scan, reply);
            if let Ok(Progress::Done(scanned)) = scan.stepped(reply) {
                let none = Map::<Seq<char>, LocalSnapshot<Seq<char>>>::empty();
                assert(none.dom() =~= in_order(scanned.files.dom()).take(0).to_set()) by {
                    assert(in_order(scanned.files.dom()).take(0) =~= Seq::<Seq<char>>::empty());
                }
                hashing_looks(sync, states, scanned, none, 0);
            }
        },
        TwoWayStageView::Hashing { states, scanned, local, at } => {
            if reply is Digest {
                let path = in_order(scanned.files.dom())[at as int];
                let sha1 = reply->Digest_0;
                one_more_digest(states, scanned, local, at, sha1);
                hashing_looks(
                    sync,
                    states,
                    scanned,
                    local.insert(path, LocalSnapshot { file: scanned.files[path], sha1 }),
                    at + 1,
                );
            }
        },
        TwoWayStageView::Listing { inventory, .. } => {
            inventory_steps(inventory, reply);
        },
        _ => {},
    }
}

/// A run that found something goes on from there: what it asked before changes nothing, and what it
/// asks after, and how it ends, is a matter of what it found and of the replies that were left.
pub open spec fn goes_on_from(
    sync: SyncConfigView,
    at: Progress<TwoWayRun, RequestView, SummaryView>,
    replies: Seq<ReplyView>,
    found: Findings,
    rest: Seq<ReplyView>,
) -> bool {
    let asked = requests(two_way_step(), at, replies);
    let before = replies.len() - rest.len();
    &&& 0 <= before <= asked.len()
    &&& rest == replies.skip(before)
    &&& forall|i: int| 0 <= i < before ==> harmless(#[trigger] asked[i])
    &&& match found.planned(sync) {
        Err(fault) => asked.len() == before && ending(two_way_step(), at, replies) == Some(
            Err::<SummaryView, Fault<Seq<char>>>(fault),
        ),
        Ok(next) => asked.skip(before) == requests(two_way_step(), next, rest) && ending(
            two_way_step(),
            at,
            replies,
        ) == ending(two_way_step(), next, rest),
    }
}

proof fn goes_on_from_findings(
    sync: SyncConfigView,
    at: Progress<TwoWayRun, RequestView, SummaryView>,
    replies: Seq<ReplyView>,
)
    requires
        at matches Progress::Ask(run, request) && looking(sync, run) && harmless(request),
    ensures
        match findings_from(at, replies) {
            Some((found, rest)) => found.consistent(sync) && goes_on_from(
                sync,
                at,
                replies,
                found,
                rest,
            ),
            None => !(ending(two_way_step(), at, replies) matches Some(Ok(_))),
        },
    decreases replies.len(),
{
    let step = two_way_step();
    let (run, request) = (at->Ask_0, at->Ask_1);
    let all = requests(step, at, replies);
    assert(all[0] == request);
    if replies.len() > 0 {
        let left = replies.drop_first();
        looks_on(sync, run, replies[0]);
        planning_is_harmless(run, replies[0]);
        match found_by(run, replies[0]) {
            Some(found) => {
                assert(replies.skip(1) =~= left);
                match found.planned(sync) {
                    Ok(next) => {
                        assert(all.skip(1) =~= requests(step, next, left));
                    },
                    Err(_) => {},
                }
            },
            None => {
                if let Ok(next) = run.stepped(replies[0]) {
                    goes_on_from_findings(sync, next, left);
                    let more = requests(step, next, left);
                    assert(all =~= seq![request] + more);
                    if let Some((found, rest)) = findings_from(next, left) {
                        let before = left.len() - rest.len();
                        assert(left.skip(before) =~= replies.skip(before + 1));
                        assert forall|i: int| 0 <= i < before + 1 implies harmless(
                            #[trigger] all[i],
                        ) by {
                            if i > 0 {
                                assert(all[i] == more[i - 1]);
                            }
                        }
                        assert(all.skip(before + 1) =~= more.skip(before));
                    }
                }
            },
        }
    }
}

/// A two-way sync finds things out first, and changes nothing until it has. What it asks after that,
/// and how it ends, is a matter of what it found; without having found it all out it does not end
/// well.
pub proof fn findings_come_first(sync: SyncConfigView, replies: Seq<ReplyView>)
    ensures
        match findings_from(two_way_started(sync), replies) {
            Some((found, rest)) => found.consistent(sync) && goes_on_from(
                sync,
                two_way_started(sync),
                replies,
                found,
                rest,
            ),
            None => !(ending(two_way_step(), two_way_started(sync), replies) matches Some(Ok(_))),
        },
{
    goes_on_from_findings(sync, two_way_started(sync), replies);
}

} // verus!
