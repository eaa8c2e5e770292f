//! How the entries of a configuration are synced: each by its mode, one after the other.

use crate::config::{SyncConfigView, SyncMode};
use crate::error::Fault;
use crate::exchange::{Progress, ReplyView, RequestView};
use crate::pull::{pull_started, PullView};
use crate::pull_laws::pull_step;
use crate::push::{push_started, PushView};
use crate::push_laws::push_step;
use crate::summary::SummaryView;
use crate::sync::{entry_started, sync_all_step, EntryRunView, SyncAllView};
use crate::trace::{ending, goes_on_after, holds_a_run, requests, Step};
use crate::two_way::{two_way_started, TwoWayRun};
use crate::two_way_laws::two_way_step;
use vstd::prelude::*;

verus! {

/// The step function of the sync of an entry.
pub open spec fn entry_step() -> Step<EntryRunView, SummaryView> {
    |run: EntryRunView, reply: ReplyView| run.stepped(reply)
}

proof fn pushes(run: PushView, request: RequestView, replies: Seq<ReplyView>)
    ensures
        ({
            let at = Progress::Ask(run, request);
            let entry = Progress::Ask(EntryRunView::Push(run), request);
            &&& requests(entry_step(), entry, replies) == requests(push_step(), at, replies)
            &&& ending(entry_step(), entry, replies) == ending(push_step(), at, replies)
        }),
{
    let hold = |run: PushView| EntryRunView::Push(run);
    let fault = |fault: Fault<Seq<char>>| fault;
    let after = |summary: SummaryView| Ok(Progress::Done(summary));
    holds_a_run(push_step(), entry_step(), hold, fault, after, run, request, replies);
    let asked = requests(push_step(), Progress::Ask(run, request), replies);
    let none = Seq::<RequestView>::empty();
    assert(asked + none =~= asked);
}

proof fn pulls(run: PullView, request: RequestView, replies: Seq<ReplyView>)
    ensures
        ({
            let at = Progress::Ask(run, request);
            let entry = Progress::Ask(EntryRunView::Pull(run), request);
            &&& requests(entry_step(), entry, replies) == requests(pull_step(), at, replies)
            &&& ending(entry_step(), entry, replies) == ending(pull_step(), at, replies)
        }),
{
    let hold = |run: PullView| EntryRunView::Pull(run);
    let fault = |fault: Fault<Seq<char>>| fault;
    let after = |summary: SummaryView| Ok(Progress::Done(summary));
    holds_a_run(pull_step(), entry_step(), hold, fault, after, run, request, replies);
    let asked = requests(pull_step(), Progress::Ask(run, request), replies);
    let none = Seq::<RequestView>::empty();
    assert(asked + none =~= asked);
}

proof fn syncs_both_ways(run: TwoWayRun, request: RequestView, replies: Seq<ReplyView>)
    ensures
        ({
            let at = Progress::Ask(run, request);
            let entry = Progress::Ask(EntryRunView::TwoWay(run), request);
            &&& requests(entry_step(), entry, replies) == requests(two_way_step(), at, replies)
            &&& ending(entry_step(), entry, replies) == ending(two_way_step(), at, replies)
        }),
{
    let hold = |run: TwoWayRun| EntryRunView::TwoWay(run);
    let fault = |fault: Fault<Seq<char>>| fault;
    let after = |summary: SummaryView| Ok(Progress::Done(summary));
    holds_a_run(two_way_step(), entry_step(), hold, fault, after, run, request, replies);
    let asked = requests(two_way_step(), Progress::Ask(run, request), replies);
    let none = Seq::<RequestView>::empty();
    assert(asked + none =~= asked);
}

/// An entry is synced by its mode: it is pushed, pulled or synced both ways, request by request, and
/// ends as that ends.
pub proof fn an_entry_is_synced_by_its_mode(sync: SyncConfigView, replies: Seq<ReplyView>)
    ensures
        ({
            let asked = requests(entry_step(), entry_started(sync), replies);
            let end = ending(entry_step(), entry_started(sync), replies);
            &&& sync.mode == SyncMode::Push ==> asked == requests(
                push_step(),
                push_started(sync),
                replies,
            ) && end == ending(push_step(), push_started(sync), replies)
            &&& sync.mode == SyncMode::Pull ==> asked == requests(
                pull_step(),
                pull_started(sync),
                replies,
            ) && end == ending(pull_step(), pull_started(sync), replies)
            &&& sync.mode == SyncMode::TwoWay ==> asked == requests(
                two_way_step(),
                two_way_started(sync),
                replies,
            ) && end == ending(two_way_step(), two_way_started(sync), replies)
        }),
{
    match sync.mode {
        SyncMode::Push => {
            pushes(push_started(sync)->Ask_0, push_started(sync)->Ask_1, replies);
        },
        SyncMode::Pull => {
            pulls(pull_started(sync)->Ask_0, pull_started(sync)->Ask_1, replies);
        },
        SyncMode::TwoWay => {
            syncs_both_ways(two_way_started(sync)->Ask_0, two_way_started(sync)->Ask_1, replies);
        },
    }
}

/// The entries of a configuration are synced one after the other. What is asked is what the entry at
/// hand asks; if that ends in a fault, so does it all, with the name of the entry; if it ends well, its
/// summary is taken down under its name and the next entry is up, and after the last one it is done.
pub proof fn entries_are_synced_one_after_the_other(
    syncs: Seq<SyncConfigView>,
    at: nat,
    summaries: Seq<(Seq<char>, SummaryView)>,
    replies: Seq<ReplyView>,
)
    requires
        at < syncs.len(),
    ensures
        SyncAllView::turned(syncs, at, summaries) matches Ok(whole) && goes_on_after(
            entry_step(),
            sync_all_step(),
            |fault: Fault<Seq<char>>|
                Fault::SyncFailed { name: syncs[at as int].name, fault: Box::new(fault) },
            |summary: SummaryView|
                {
                    let more = summaries.push((syncs[at as int].name, summary));
                    if at + 1 == syncs.len() {
                        Ok(Progress::Done(more))
                    } else {
                        SyncAllView::turned(syncs, at + 1, more)
                    }
                },
            entry_started(syncs[at as int]),
            whole,
            replies,
        ),
{
    let entry = entry_started(syncs[at as int]);
    let hold = |run: EntryRunView| SyncAllView { syncs, at, summaries, run };
    let fault = |fault: Fault<Seq<char>>|
        Fault::SyncFailed { name: syncs[at as int].name, fault: Box::new(fault) };
    let after = |summary: SummaryView|
        {
            let more = summaries.push((syncs[at as int].name, summary));
            if at + 1 == syncs.len() {
                Ok(Progress::Done(more))
            } else {
                SyncAllView::turned(syncs, at + 1, more)
            }
        };
    holds_a_run(
        entry_step(),
        sync_all_step(),
        hold,
        fault,
        after,
        entry->Ask_0,
        entry->Ask_1,
        replies,
    );
}

} // verus!
