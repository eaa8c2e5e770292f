//! Syncing every entry of a configuration.

use crate::config::{config_fault, validate_config, Config, SyncConfig, SyncConfigView, SyncMode};
use crate::error::{outcome, Fault, SyncError};
use crate::exchange::{Progress, Reply, ReplyView, Request, RequestView};
use crate::pull::{pull_started, sync_pull, Pull, PullView};
use crate::push::{push_started, sync_push, Push, PushView};
use crate::summary::{SummaryView, SyncSummary};
use crate::text::{views, views_push};
use crate::trace::{ending, kept_to_the_end, Step};
use crate::two_way::{sync_two_way, two_way_started, TwoWay, TwoWayRun};
use vstd::prelude::*;

verus! {

/// The sync of one entry, in the mode that it asks for.
pub enum EntryRun {
    Push(Push),
    Pull(Pull),
    TwoWay(TwoWay),
}

/// The view of the sync of one entry.
#[verifier::ext_equal]
pub enum EntryRunView {
    Push(PushView),
    Pull(PullView),
    TwoWay(TwoWayRun),
}

impl View for EntryRun {
    type V = EntryRunView;

    open spec fn view(&self) -> EntryRunView {
        match *self {
            EntryRun::Push(run) => EntryRunView::Push(run@),
            EntryRun::Pull(run) => EntryRunView::Pull(run@),
            EntryRun::TwoWay(run) => EntryRunView::TwoWay(run@),
        }
    }
}

/// What a step of the sync of one entry leads to.
pub type EntryOutcome = Result<Progress<EntryRunView, RequestView, SummaryView>, Fault<Seq<char>>>;

impl EntryRunView {
    /// Whether the counts stay in range when `reply` is added to them.
    pub open spec fn accepts(self, reply: ReplyView) -> bool {
        match self {
            EntryRunView::Push(run) => run.accepts(reply),
            EntryRunView::Pull(_) => true,
            EntryRunView::TwoWay(run) => run.accepts(reply),
        }
    }

    /// One step.
    pub open spec fn stepped(self, reply: ReplyView) -> EntryOutcome {
        match self {
            EntryRunView::Push(run) => match run.stepped(reply) {
                Err(fault) => Err(fault),
                Ok(Progress::Ask(run, request)) => Ok(
                    Progress::Ask(EntryRunView::Push(run), request),
                ),
                Ok(Progress::Done(summary)) => Ok(Progress::Done(summary)),
            },
            EntryRunView::Pull(run) => match run.stepped(reply) {
                Err(fault) => Err(fault),
                Ok(Progress::Ask(run, request)) => Ok(
                    Progress::Ask(EntryRunView::Pull(run), request),
                ),
                Ok(Progress::Done(summary)) => Ok(Progress::Done(summary)),
            },
            EntryRunView::TwoWay(run) => match run.stepped(reply) {
                Err(fault) => Err(fault),
                Ok(Progress::Ask(run, request)) => Ok(
                    Progress::Ask(EntryRunView::TwoWay(run), request),
                ),
                Ok(Progress::Done(summary)) => Ok(Progress::Done(summary)),
            },
        }
    }
}

/// The sync of an entry before anything was looked at.
pub open spec fn entry_started(sync: SyncConfigView) -> Progress<
    EntryRunView,
    RequestView,
    SummaryView,
> {
    match sync.mode {
        SyncMode::Push => match push_started(sync) {
            Progress::Ask(run, request) => Progress::Ask(EntryRunView::Push(run), request),
            Progress::Done(summary) => Progress::Done(summary),
        },
        SyncMode::Pull => match pull_started(sync) {
            Progress::Ask(run, request) => Progress::Ask(EntryRunView::Pull(run), request),
            Progress::Done(summary) => Progress::Done(summary),
        },
        SyncMode::TwoWay => match two_way_started(sync) {
            Progress::Ask(run, request) => Progress::Ask(EntryRunView::TwoWay(run), request),
            Progress::Done(summary) => Progress::Done(summary),
        },
    }
}

/// Starts to sync an entry.
pub fn sync_entry(sync: &SyncConfig) -> (r: (EntryRun, Request))
    ensures
        Progress::<EntryRunView, RequestView, SummaryView>::Ask(r.0@, r.1@) == entry_started(sync@),
{
    match sync.mode {
        SyncMode::Push => {
            let (run, request) = sync_push(sync);
            (EntryRun::Push(run), request)
        },
        SyncMode::Pull => {
            let (run, request) = sync_pull(sync);
            (EntryRun::Pull(run), request)
        },
        SyncMode::TwoWay => {
            let (run, request) = sync_two_way(sync);
            (EntryRun::TwoWay(run), request)
        },
    }
}

impl EntryRun {
    /// Whether the counts stay in range when `reply` is added to them.
    pub fn fits(&self, reply: &Reply) -> (r: bool)
        ensures
            r == self@.accepts(reply@),
    {
        match self {
            EntryRun::Push(run) => run.fits(reply),
            EntryRun::Pull(_) => true,
            EntryRun::TwoWay(run) => run.fits(reply),
        }
    }

    /// Takes the reply to the last request, and goes on.
    pub fn next(self, reply: Reply) -> (r: Result<
        Progress<EntryRun, Request, SyncSummary>,
        SyncError,
    >)
        requires
            self@.accepts(reply@),
        ensures
            outcome(r) == self@.stepped(reply@),
    {
        match self {
            EntryRun::Push(run) => match run.next(reply) {
                Err(error) => Err(error),
                Ok(Progress::Ask(run, request)) => Ok(Progress::Ask(EntryRun::Push(run), request)),
                Ok(Progress::Done(summary)) => Ok(Progress::Done(summary)),
            },
            EntryRun::Pull(run) => match run.next(reply) {
                Err(error) => Err(error),
                Ok(Progress::Ask(run, request)) => Ok(Progress::Ask(EntryRun::Pull(run), request)),
                Ok(Progress::Done(summary)) => Ok(Progress::Done(summary)),
            },
            EntryRun::TwoWay(run) => match run.next(reply) {
                Err(error) => Err(error),
                Ok(Progress::Ask(run, request)) => Ok(
                    Progress::Ask(EntryRun::TwoWay(run), request),
                ),
                Ok(Progress::Done(summary)) => Ok(Progress::Done(summary)),
            },
        }
    }
}

/// What every entry did, by name.
#[derive(Debug)]
pub struct Summaries {
    pub entries: Vec<(String, SyncSummary)>,
}

impl View for Summaries {
    type V = Seq<(Seq<char>, SummaryView)>;

    open spec fn view(&self) -> Seq<(Seq<char>, SummaryView)> {
        self.entries@.map_values(|entry: (String, SyncSummary)| (entry.0@, entry.1@))
    }
}

/// The syncs of a configuration in progress, one entry after the other.
pub struct SyncAll {
    syncs: Vec<SyncConfig>,
    at: usize,
    summaries: Summaries,
    run: EntryRun,
}

/// The view of the syncs of a configuration in progress.
#[verifier::ext_equal]
pub struct SyncAllView {
    pub syncs: Seq<SyncConfigView>,
    /// The entry at hand.
    pub at: nat,
    pub summaries: Seq<(Seq<char>, SummaryView)>,
    pub run: EntryRunView,
}

impl View for SyncAll {
    type V = SyncAllView;

    closed spec fn view(&self) -> SyncAllView {
        SyncAllView {
            syncs: views(self.syncs@),
            at: self.at as nat,
            summaries: self.summaries@,
            run: self.run@,
        }
    }
}

impl SyncAll {
    #[verifier::type_invariant]
    spec fn within(self) -> bool {
        self.at < self.syncs.len()
    }
}

/// What a step of the syncs leads to.
pub type SyncAllOutcome = Result<
    Progress<SyncAllView, RequestView, Seq<(Seq<char>, SummaryView)>>,
    Fault<Seq<char>>,
>;

impl SyncAllView {
    /// The fault of the entry at hand.
    pub open spec fn entry_fault(self, fault: Fault<Seq<char>>) -> Fault<Seq<char>> {
        Fault::SyncFailed { name: self.syncs[self.at as int].name, fault: Box::new(fault) }
    }

    /// Turns to the entry at `at`, if there is one.
    pub open spec fn turned(
        syncs: Seq<SyncConfigView>,
        at: nat,
        summaries: Seq<(Seq<char>, SummaryView)>,
    ) -> SyncAllOutcome {
        if at >= syncs.len() {
            Ok(Progress::Done(summaries))
        } else {
            match entry_started(syncs[at as int]) {
                Progress::Ask(run, request) => Ok(
                    Progress::Ask(SyncAllView { syncs, at, summaries, run }, request),
                ),
                Progress::Done(_) => Err(Fault::UnexpectedReply),
            }
        }
    }

    /// One step.
    pub open spec fn stepped(self, reply: ReplyView) -> SyncAllOutcome {
        match self.run.stepped(reply) {
            Err(fault) => Err(self.entry_fault(fault)),
            Ok(Progress::Ask(run, request)) => Ok(
                Progress::Ask(SyncAllView { run, ..self }, request),
            ),
            Ok(Progress::Done(summary)) => SyncAllView::turned(
                self.syncs,
                self.at + 1,
                self.summaries.push((self.syncs[self.at as int].name, summary)),
            ),
        }
    }
}

/// Starts to sync every entry of a configuration. The configuration is validated first; an entry
/// that fails ends it all.
pub fn sync_all(config: &Config) -> (r: Result<Progress<SyncAll, Request, Summaries>, SyncError>)
    ensures
        outcome(r) == (match config_fault(config@) {
            Some(fault) => Err(fault),
            None => SyncAllView::turned(config@.syncs, 0, Seq::empty()),
        }),
{
    if let Err(error) = validate_config(config) {
        return Err(error);
    }
    let mut syncs: Vec<SyncConfig> = Vec::new();
    let mut i: usize = 0;
    while i < config.syncs.len()
        invariant
            i <= config.syncs.len(),
            views(syncs@) == config@.syncs.take(i as int),
        decreases config.syncs.len() - i,
    {
        let sync = config.syncs[i].clone();
        proof {
            views_push(syncs@, sync);
            assert(config@.syncs.take(i + 1) =~= config@.syncs.take(i as int).push(sync@));
        }
        syncs.push(sync);
        i += 1;
    }
    assert(config@.syncs.take(i as int) =~= config@.syncs);
    let summaries = Summaries { entries: Vec::new() };
    assert(summaries@ =~= Seq::<(Seq<char>, SummaryView)>::empty());
    SyncAll::turn(syncs, 0, summaries)
}

impl SyncAll {
    fn turn(syncs: Vec<SyncConfig>, at: usize, summaries: Summaries) -> (r: Result<
        Progress<SyncAll, Request, Summaries>,
        SyncError,
    >)
        ensures
            outcome(r) == SyncAllView::turned(views(syncs@), at as nat, summaries@),
    {
        if at >= syncs.len() {
            return Ok(Progress::Done(summaries));
        }
        assert(views(syncs@)[at as int] == syncs@[at as int]@);
        let (run, request) = sync_entry(&syncs[at]);
        Ok(Progress::Ask(SyncAll { syncs, at, summaries, run }, request))
    }

    /// Says which entry an error belongs to.
    pub fn failed(&self, error: SyncError) -> (r: SyncError)
        ensures
            r@ == self@.entry_fault(error@),
    {
        proof {
            use_type_invariant(self);
        }
        assert(self@.syncs[self.at as int] == self.syncs@[self.at as int]@);
        Fault::SyncFailed { name: self.syncs[self.at].name.clone(), fault: Box::new(error) }
    }

    /// Whether the counts stay in range when `reply` is added to them.
    pub fn fits(&self, reply: &Reply) -> (r: bool)
        ensures
            r == self@.run.accepts(reply@),
    {
        self.run.fits(reply)
    }

    /// Takes the reply to the last request, and goes on.
    pub fn next(self, reply: Reply) -> (r: Result<Progress<SyncAll, Request, Summaries>, SyncError>)
        requires
            self@.run.accepts(reply@),
        ensures
            outcome(r) == self@.stepped(reply@),
    {
        proof {
            use_type_invariant(&self);
        }
        assert(self@.syncs[self.at as int] == self.syncs@[self.at as int]@);
        let SyncAll { syncs, at, summaries, run } = self;
        match run.next(reply) {
            Err(error) => Err(
                Fault::SyncFailed { name: syncs[at].name.clone(), fault: Box::new(error) },
            ),
            Ok(Progress::Ask(run, request)) => Ok(
                Progress::Ask(SyncAll { syncs, at, summaries, run }, request),
            ),
            Ok(Progress::Done(summary)) => {
                let mut summaries = summaries;
                let ghost before = summaries@;
                summaries.entries.push((syncs[at].name.clone(), summary));
                assert(summaries@ =~= before.push((syncs@[at as int]@.name, summary@)));
                SyncAll::turn(syncs, at + 1, summaries)
            },
        }
    }
}

/// The step function of the syncs of a configuration.
pub open spec fn sync_all_step() -> Step<SyncAllView, Seq<(Seq<char>, SummaryView)>> {
    |run: SyncAllView, reply: ReplyView| run.stepped(reply)
}

/// Syncs that come to a good end have a summary of every entry, in the order of the configuration.
pub proof fn every_entry_is_synced(syncs: Seq<SyncConfigView>, replies: Seq<ReplyView>)
    requires
        syncs.len() > 0,
    ensures
        SyncAllView::turned(syncs, 0, Seq::empty()) matches Ok(start) && (ending(
            sync_all_step(),
            start,
            replies,
        ) matches Some(Ok(summaries)) ==> summaries.len() == syncs.len() && forall|i: int|
            0 <= i < syncs.len() ==> (#[trigger] summaries[i]).0 == syncs[i].name),
{
    let start = SyncAllView::turned(syncs, 0, Seq::empty())->Ok_0;
    let step = sync_all_step();
    let sound = |run: SyncAllView|
        {
            &&& run.syncs == syncs
            &&& run.at < syncs.len()
            &&& run.summaries.len() == run.at
            &&& forall|i: int| 0 <= i < run.at ==> (#[trigger] run.summaries[i]).0 == syncs[i].name
        };
    let good = |summaries: Seq<(Seq<char>, SummaryView)>|
        {
            &&& summaries.len() == syncs.len()
            &&& forall|i: int|
                0 <= i < syncs.len() ==> (#[trigger] summaries[i]).0 == syncs[i].name
        };
    kept_to_the_end(step, sound, good, start, replies);
}

} // verus!
