//! A remote folder that is made sure of is there, with every folder above it.

use crate::directories::{ensure_started, EnsureStage, EnsureView};
use crate::exchange::{Progress, ReplyView, RequestView};
use crate::paths::{drive_path, last_slash, name_of, parent_of};
use crate::trace::{asked_for_two_reasons, ending, requests, settled_by_the_end, Step};
use crate::work_laws::{last_slash_is_last, lies_in, paths_lie_in_their_parent};
use vstd::prelude::*;

verus! {

/// The step function of the search for a folder.
pub open spec fn ensure_step() -> Step<EnsureView, ()> {
    |run: EnsureView, reply: ReplyView| run.stepped(reply)
}

/// Whether a folder is the one at a path, or above it.
pub open spec fn at_or_above(path: Seq<char>, folder: Seq<char>) -> bool {
    &&& folder.len() > 0
    &&& folder.len() <= path.len()
    &&& folder == path.take(folder.len() as int)
    &&& folder.len() < path.len() ==> path[folder.len() as int] == '/'
}

/// A folder that was found on record, at or below another.
pub open spec fn found_on_record(
    mirror: Seq<char>,
    path: Seq<char>,
    folder: Seq<char>,
    request: RequestView,
    reply: ReplyView,
) -> bool {
    &&& reply == ReplyView::Flag(true)
    &&& request matches RequestView::KnowsDirectory { mirror: entry, path: known }
    &&& entry == mirror
    &&& at_or_above(path, known)
    &&& at_or_above(known, folder)
}

proof fn above_the_parent(path: Seq<char>, folder: Seq<char>)
    requires
        at_or_above(path, folder),
        folder != path,
    ensures
        parent_of(path).len() > 0,
        at_or_above(parent_of(path), folder),
        at_or_above(path, parent_of(path)),
{
    paths_lie_in_their_parent(path);
    let parent = parent_of(path);
    assert(folder.len() < path.len()) by {
        if folder.len() == path.len() {
            assert(path.take(path.len() as int) =~= path);
        }
    }
    assert(path[folder.len() as int] == '/');
    assert(lies_in(path, parent));
    if parent.len() < folder.len() {
        assert(path[folder.len() as int] != '/');
    }
    assert(parent.len() >= folder.len());
    assert(parent.take(folder.len() as int) =~= folder);
    if folder.len() < parent.len() {
        assert(parent[folder.len() as int] == path[folder.len() as int]);
    }
}

proof fn parent_is_above(path: Seq<char>)
    requires
        parent_of(path).len() > 0,
    ensures
        at_or_above(path, parent_of(path)),
{
    paths_lie_in_their_parent(path);
}

proof fn above_is_transitive(path: Seq<char>, middle: Seq<char>, folder: Seq<char>)
    requires
        at_or_above(path, middle),
        at_or_above(middle, folder),
    ensures
        at_or_above(path, folder),
{
    assert(path.take(folder.len() as int) =~= folder);
    if folder.len() < middle.len() {
        assert(middle[folder.len() as int] == path[folder.len() as int]);
    }
}

spec fn climbs(run: EnsureView, path: Seq<char>) -> bool {
    forall|k: int|
        0 <= k < run.pending.len() ==> at_or_above(path, #[trigger] run.pending[k])
}

spec fn owes(
    mirror: Seq<char>,
    path: Seq<char>,
    folder: Seq<char>,
    run: EnsureView,
    request: RequestView,
) -> bool {
    &&& run.mirror == mirror
    &&& run.pending.len() > 0
    &&& climbs(run, path)
    &&& match run.stage {
        EnsureStage::Climbing => {
            &&& request == RequestView::KnowsDirectory { mirror, path: run.pending.last() }
            &&& run.pending.contains(folder) || at_or_above(run.pending.last(), folder)
        },
        EnsureStage::Looking => run.pending.contains(folder),
        EnsureStage::Creating => run.pending.contains(folder),
        EnsureStage::Saving => run.pending.drop_last().contains(folder),
    }
}

proof fn settled_owes(mirror: Seq<char>, path: Seq<char>, folder: Seq<char>, run: EnsureView)
    requires
        run.mirror == mirror,
        run.pending.len() > 0,
        climbs(run, path),
        run.pending.drop_last().contains(folder),
    ensures
        run.settled().descended() matches Progress::Ask(next, asked) && owes(
            mirror,
            path,
            folder,
            next,
            asked,
        ),
{
    let rest = run.settled();
    assert forall|k: int| 0 <= k < rest.pending.len() implies at_or_above(
        path,
        #[trigger] rest.pending[k],
    ) by {
        assert(rest.pending[k] == run.pending[k]);
    }
}

proof fn last_or_before(pending: Seq<Seq<char>>, folder: Seq<char>)
    requires
        pending.len() > 0,
        pending.contains(folder),
    ensures
        folder == pending.last() || pending.drop_last().contains(folder),
{
    let k = choose|k: int| 0 <= k < pending.len() && pending[k] == folder;
    if k < pending.len() - 1 {
        assert(pending.drop_last()[k] == folder);
    }
}

proof fn search_owes(
    mirror: Seq<char>,
    path: Seq<char>,
    folder: Seq<char>,
    run: EnsureView,
    request: RequestView,
    reply: ReplyView,
)
    requires
        owes(mirror, path, folder, run, request),
        !found_on_record(mirror, path, folder, request, reply),
    ensures
        match run.stepped(reply) {
            Err(_) => true,
            Ok(Progress::Done(_)) => false,
            Ok(Progress::Ask(next, asked)) => owes(mirror, path, folder, next, asked) || asked
                == RequestView::SaveDirectory { mirror, path: folder },
        },
{
    let last = run.pending.last();
    assert(last == run.pending[run.pending.len() - 1]);
    assert(at_or_above(path, last));
    if run.pending.contains(folder) {
        last_or_before(run.pending, folder);
    }
    match run.stage {
        EnsureStage::Climbing => {
            if reply == ReplyView::Flag(true) {
                assert(!at_or_above(last, folder));
                assert(at_or_above(last, last)) by {
                    assert(last.take(last.len() as int) =~= last);
                }
                settled_owes(mirror, path, folder, run);
            } else if reply == ReplyView::Flag(false) {
                let parent = parent_of(last);
                if !run.pending.contains(folder) {
                    assert(folder != last);
                    above_the_parent(last, folder);
                }
                if parent.len() > 0 {
                    parent_is_above(last);
                    above_is_transitive(path, last, parent);
                    let more = run.pending.push(parent);
                    if run.pending.contains(folder) {
                        let k = choose|k: int|
                            0 <= k < run.pending.len() && run.pending[k] == folder;
                        assert(more[k] == folder);
                    }
                    assert forall|k: int| 0 <= k < more.len() implies at_or_above(
                        path,
                        #[trigger] more[k],
                    ) by {
                        if k < run.pending.len() {
                            assert(more[k] == run.pending[k]);
                        }
                    }
                }
            }
        },
        EnsureStage::Saving => {
            settled_owes(mirror, path, folder, run);
        },
        _ => {},
    }
}

/// A search for a folder that comes to a good end has made sure of that folder and of every folder
/// above it: each was put on record, or it, or a folder below it on the way, was found on record.
pub proof fn every_folder_on_the_way_is_made_sure_of(
    mirror: Seq<char>,
    remote: Seq<char>,
    path: Seq<char>,
    folder: Seq<char>,
    replies: Seq<ReplyView>,
)
    requires
        at_or_above(path, folder),
        ending(ensure_step(), ensure_started(mirror, remote, path), replies) matches Some(Ok(_)),
    ensures
        ({
            let asked = requests(ensure_step(), ensure_started(mirror, remote, path), replies);
            exists|i: int|
                #![trigger asked[i]]
                0 <= i < asked.len() && (asked[i] == (RequestView::SaveDirectory {
                    mirror,
                    path: folder,
                }) || (i < replies.len() && found_on_record(
                    mirror,
                    path,
                    folder,
                    asked[i],
                    replies[i],
                )))
        }),
{
    let step = ensure_step();
    let start = ensure_started(mirror, remote, path);
    let owing = |run: EnsureView, request: RequestView| owes(mirror, path, folder, run, request);
    let met = |request: RequestView| request == RequestView::SaveDirectory { mirror, path: folder };
    let excused = |request: RequestView, reply: ReplyView|
        found_on_record(mirror, path, folder, request, reply);
    assert(at_or_above(path, path)) by {
        assert(path.take(path.len() as int) =~= path);
    }
    assert(owing(start->Ask_0, start->Ask_1)) by {
        assert(start->Ask_0.pending =~= seq![path]);
    }
    assert forall|run: EnsureView, request: RequestView, reply: ReplyView|
        #![trigger owing(run, request), step(run, reply)]
        owing(run, request) && !excused(request, reply) implies match step(run, reply) {
        Err(_) => true,
        Ok(Progress::Done(_)) => false,
        Ok(Progress::Ask(next, asked)) => owing(next, asked) || met(asked),
    } by {
        search_owes(mirror, path, folder, run, request, reply);
    }
    settled_by_the_end(step, owing, met, excused, start, replies);
    let asked = requests(step, start, replies);
    let i = choose|i: int|
        0 <= i < asked.len() && (met(#[trigger] asked[i]) || (i < replies.len() && excused(
            asked[i],
            replies[i],
        )));
    assert(asked[i] == (RequestView::SaveDirectory { mirror, path: folder }) || (i < replies.len()
        && found_on_record(mirror, path, folder, asked[i], replies[i])));
}

/// A folder is made under the folder that it is in, by the name that stands behind the last slash of
/// its path.
pub open spec fn made_as(
    remote: Seq<char>,
    folder: Seq<char>,
    parent: Seq<char>,
    name: Seq<char>,
) -> bool {
    exists|above: Seq<char>|
        {
            &&& #[trigger] lies_in(folder, above)
            &&& parent == drive_path(remote, above)
            &&& name == if above.len() == 0 && !(folder.len() > 0 && folder[0] == '/') {
                folder
            } else {
                folder.skip(above.len() as int + 1)
            }
        }
}

/// Why a folder is put on record or made: it is put on record right after the drive answered that it
/// is a folder, or right after it was made; and it is made right after the drive answered that there
/// is nothing at its path.
pub open spec fn has_a_reason(
    mirror: Seq<char>,
    remote: Seq<char>,
    before: RequestView,
    answer: ReplyView,
    request: RequestView,
    reply: ReplyView,
    asked: RequestView,
) -> bool {
    match asked {
        RequestView::SaveDirectory { mirror: entry, path } => {
            &&& entry == mirror
            &&& {
                ||| {
                    &&& request == RequestView::Info { path: drive_path(remote, path) }
                    &&& reply matches ReplyView::Node(Some(node))
                    &&& node.kind == "folder"@
                }
                ||| {
                    &&& before == RequestView::Info { path: drive_path(remote, path) }
                    &&& answer == ReplyView::Node(None)
                    &&& request matches RequestView::CreateFolder { parent, name }
                    &&& made_as(remote, path, parent, name)
                    &&& reply is Done
                }
            }
        },
        RequestView::CreateFolder { parent, name } => {
            &&& reply == ReplyView::Node(None)
            &&& exists|path: Seq<char>| #[trigger]
                made_as(remote, path, parent, name) && request == RequestView::Info {
                    path: drive_path(remote, path),
                }
        },
        _ => true,
    }
}

spec fn in_place(
    mirror: Seq<char>,
    remote: Seq<char>,
    run: EnsureView,
    before: RequestView,
    answer: ReplyView,
    request: RequestView,
) -> bool {
    let path = run.pending.last();
    &&& run.mirror == mirror
    &&& run.remote == remote
    &&& run.pending.len() > 0
    &&& match run.stage {
        EnsureStage::Climbing => request is KnowsDirectory,
        EnsureStage::Looking => request == RequestView::Info { path: drive_path(remote, path) },
        EnsureStage::Creating => {
            &&& request matches RequestView::CreateFolder { parent, name }
            &&& made_as(remote, path, parent, name)
            &&& before == RequestView::Info { path: drive_path(remote, path) }
            &&& answer == ReplyView::Node(None)
        },
        EnsureStage::Saving => request is SaveDirectory,
    }
}

proof fn folders_are_made_as(remote: Seq<char>, folder: Seq<char>)
    ensures
        made_as(remote, folder, drive_path(remote, parent_of(folder)), name_of(folder)),
{
    let above = parent_of(folder);
    paths_lie_in_their_parent(folder);
    last_slash_is_last(folder);
    assert(lies_in(folder, above));
    if last_slash(folder) < 0 {
        assert(folder.skip(0) =~= folder);
    } else {
        assert(above.len() == last_slash(folder));
    }
}

proof fn search_has_reasons(
    mirror: Seq<char>,
    remote: Seq<char>,
    run: EnsureView,
    before: RequestView,
    answer: ReplyView,
    request: RequestView,
    reply: ReplyView,
)
    requires
        in_place(mirror, remote, run, before, answer, request),
    ensures
        run.stepped(reply) matches Ok(Progress::Ask(next, asked)) ==> in_place(
            mirror,
            remote,
            next,
            request,
            reply,
            asked,
        ) && has_a_reason(mirror, remote, before, answer, request, reply, asked),
{
    let path = run.pending.last();
    folders_are_made_as(remote, path);
    match run.stage {
        EnsureStage::Climbing => {
            let parent = parent_of(path);
            assert(run.pending.push(parent).last() == parent);
        },
        _ => {},
    }
}

/// In the search for a folder every folder is put on record, and made, for a reason.
pub proof fn folders_are_made_for_a_reason(
    mirror: Seq<char>,
    remote: Seq<char>,
    path: Seq<char>,
    replies: Seq<ReplyView>,
)
    ensures
        ({
            let asked = requests(ensure_step(), ensure_started(mirror, remote, path), replies);
            forall|i: int|
                1 < i < asked.len() ==> has_a_reason(
                    mirror,
                    remote,
                    asked[i - 2],
                    replies[i - 2],
                    asked[i - 1],
                    replies[i - 1],
                    #[trigger] asked[i],
                )
        }),
{
    let step = ensure_step();
    let start = ensure_started(mirror, remote, path);
    let first = |run: EnsureView, request: RequestView|
        run.mirror == mirror && run.remote == remote && run.pending.len() > 0 && run.stage
            is Climbing && request is KnowsDirectory;
    let sound = |run: EnsureView, before: RequestView, answer: ReplyView, request: RequestView|
        in_place(mirror, remote, run, before, answer, request);
    let reason = |
        before: RequestView,
        answer: ReplyView,
        request: RequestView,
        reply: ReplyView,
        asked: RequestView,
    |
        has_a_reason(mirror, remote, before, answer, request, reply, asked);
    assert forall|
        run: EnsureView,
        before: RequestView,
        answer: ReplyView,
        request: RequestView,
        reply: ReplyView,
    |
        #![trigger sound(run, before, answer, request), step(run, reply)]
        sound(run, before, answer, request) implies (step(run, reply) matches Ok(
        Progress::Ask(next, asked),
    ) ==> sound(next, request, reply, asked) && reason(before, answer, request, reply, asked)) by {
        search_has_reasons(mirror, remote, run, before, answer, request, reply);
    }
    asked_for_two_reasons(step, first, sound, reason, start, replies);
    let asked = requests(step, start, replies);
    assert forall|i: int| 1 < i < asked.len() implies has_a_reason(
        mirror,
        remote,
        asked[i - 2],
        replies[i - 2],
        asked[i - 1],
        replies[i - 1],
        #[trigger] asked[i],
    ) by {
        assert(reason(
            asked[i - 2],
            replies[i - 2],
            asked[i - 1],
            replies[i - 1],
            asked[i],
        ));
    }
}

} // verus!
