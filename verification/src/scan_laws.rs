//! A scan finds the local files that there are.

use crate::config::SyncConfigView;
use crate::exchange::{DirEntryView, Progress, ReplyView, RequestView};
use crate::excludes::excluded;
use crate::scan::{by_name, by_name_sorts, file_at, local_path_of, scan_started, ScanChoice};
use crate::scan::{ScanItemView, ScanStage, ScanView, ScannedView};
use crate::trace::{ending, kept_when_told, requests, Step};
use crate::world::{all_told, described, garbled_at, inside, local_file_at, local_link_at};
use crate::world::{local_side, seen_at, seen_below, stat_at, told, Sought, World};
use vstd::prelude::*;
use vstd::utf8::{decode_utf8, valid_utf8};

verus! {

/// The step function of a scan.
pub open spec fn scan_step() -> Step<ScanView, ScannedView> {
    |run: ScanView, reply: ReplyView| run.stepped(reply)
}

spec fn there(world: World, sync: SyncConfigView, sought: Sought, path: Seq<char>) -> bool {
    exists|depth: nat| #[trigger] seen_below(world, sync, Seq::empty(), depth, sought, path)
}

spec fn leads_to(
    world: World,
    sync: SyncConfigView,
    item: ScanItemView,
    sought: Sought,
    path: Seq<char>,
) -> bool {
    exists|depth: nat| #[trigger]
        seen_at(world, sync, item.directory, item.entry, depth, sought, path)
}

spec fn holds_below(
    world: World,
    sync: SyncConfigView,
    directory: Seq<char>,
    sought: Sought,
    path: Seq<char>,
) -> bool {
    exists|depth: nat| #[trigger] seen_below(world, sync, directory, depth, sought, path)
}

spec fn taken(scan: ScanView, sought: Sought, path: Seq<char>) -> bool {
    match sought {
        Sought::File => scan.files.contains_key(path),
        Sought::Link => scan.symlinks.contains(path),
        Sought::Garbled => false,
    }
}

spec fn awaited(
    world: World,
    sync: SyncConfigView,
    todo: Seq<ScanItemView>,
    sought: Sought,
    path: Seq<char>,
) -> bool {
    exists|t: int| 0 <= t < todo.len() && leads_to(world, sync, #[trigger] todo[t], sought, path)
}

/// What is taken up is there, and what waits leads only to what is there.
spec fn sound(world: World, sync: SyncConfigView, scan: ScanView) -> bool {
    &&& scan.root == sync.local
    &&& scan.marker == sync.ready_marker
    &&& scan.patterns == sync.exclude
    &&& scan.files.dom().finite()
    &&& forall|path: Seq<char>| #[trigger]
        scan.files.contains_key(path) ==> described(world, sync, path, scan.files[path])
    &&& forall|sought: Sought, path: Seq<char>| #[trigger]
        taken(scan, sought, path) ==> there(world, sync, sought, path)
    &&& forall|sought: Sought, path: Seq<char>| #[trigger]
        awaited(world, sync, scan.todo, sought, path) ==> there(world, sync, sought, path)
}

spec fn open(world: World, sync: SyncConfigView, scan: ScanView) -> bool {
    &&& sound(world, sync, scan)
    &&& forall|sought: Sought, path: Seq<char>| #[trigger]
        there(world, sync, sought, path) ==> taken(scan, sought, path) || awaited(
            world,
            sync,
            scan.todo,
            sought,
            path,
        )
}

/// A scan that waits for the reply to a request, with the world told so far.
pub closed spec fn scan_told(
    world: World,
    sync: SyncConfigView,
    scan: ScanView,
    request: RequestView,
) -> bool {
    &&& sound(world, sync, scan)
    &&& match scan.stage {
        ScanStage::Listing { directory } => {
            &&& request == RequestView::ListDirectory {
                path: local_path_of(sync.local, directory),
            }
            &&& forall|sought: Sought, path: Seq<char>| #[trigger]
                holds_below(world, sync, directory, sought, path) ==> there(
                    world,
                    sync,
                    sought,
                    path,
                )
            &&& forall|sought: Sought, path: Seq<char>| #[trigger]
                there(world, sync, sought, path) ==> taken(scan, sought, path) || awaited(
                    world,
                    sync,
                    scan.todo,
                    sought,
                    path,
                ) || holds_below(world, sync, directory, sought, path)
        },
        ScanStage::Reading { path: read } => {
            &&& request == RequestView::Stat { path: local_path_of(sync.local, read) }
            &&& there(world, sync, Sought::File, read)
            &&& forall|sought: Sought, path: Seq<char>| #[trigger]
                there(world, sync, sought, path) ==> taken(scan, sought, path) || awaited(
                    world,
                    sync,
                    scan.todo,
                    sought,
                    path,
                ) || (sought is File && path == read)
        },
    }
}

/// A finished scan that found what there is.
pub open spec fn scanned_told(world: World, sync: SyncConfigView, scanned: ScannedView) -> bool {
    &&& scanned.patterns == sync.exclude
    &&& scanned.files.dom().finite()
    &&& local_side(world, sync, scanned.files)
    &&& forall|path: Seq<char>| #[trigger]
        scanned.symlinks.contains(path) <==> local_link_at(world, sync, path)
    &&& forall|path: Seq<char>| !#[trigger] garbled_at(world, sync, path)
}

proof fn rest_is_awaited(
    world: World,
    sync: SyncConfigView,
    todo: Seq<ScanItemView>,
    sought: Sought,
    path: Seq<char>,
)
    requires
        todo.len() > 0,
    ensures
        awaited(world, sync, todo, sought, path) <==> awaited(
            world,
            sync,
            todo.drop_last(),
            sought,
            path,
        ) || leads_to(world, sync, todo.last(), sought, path),
{
    let rest = todo.drop_last();
    if awaited(world, sync, rest, sought, path) {
        let t = choose|t: int|
            0 <= t < rest.len() && leads_to(world, sync, #[trigger] rest[t], sought, path);
        assert(todo[t] == rest[t]);
    }
    if awaited(world, sync, todo, sought, path) {
        let t = choose|t: int|
            0 <= t < todo.len() && leads_to(world, sync, #[trigger] todo[t], sought, path);
        if t < rest.len() {
            assert(rest[t] == todo[t]);
        }
    }
    assert(todo[todo.len() - 1] == todo.last());
}

proof fn directory_leads_below(
    world: World,
    sync: SyncConfigView,
    item: ScanItemView,
    sought: Sought,
    path: Seq<char>,
)
    requires
        item.entry.kind is Directory,
        valid_utf8(item.entry.name),
        !excluded(sync.exclude, inside(item.directory, decode_utf8(item.entry.name))),
    ensures
        leads_to(world, sync, item, sought, path) <==> holds_below(
            world,
            sync,
            inside(item.directory, decode_utf8(item.entry.name)),
            sought,
            path,
        ),
{
    let here = inside(item.directory, decode_utf8(item.entry.name));
    if holds_below(world, sync, here, sought, path) {
        let depth = choose|depth: nat| #[trigger]
            seen_below(world, sync, here, depth, sought, path);
        assert(seen_at(world, sync, item.directory, item.entry, depth + 1, sought, path));
    }
    if leads_to(world, sync, item, sought, path) {
        let depth = choose|depth: nat| #[trigger]
            seen_at(world, sync, item.directory, item.entry, depth, sought, path);
        assert(seen_below(world, sync, here, (depth - 1) as nat, sought, path));
    }
}

proof fn advances_as_told(world: World, sync: SyncConfigView, scan: ScanView)
    requires
        open(world, sync, scan),
    ensures
        match scan.advanced() {
            Err(_) => true,
            Ok(Progress::Ask(next, request)) => scan_told(world, sync, next, request),
            Ok(Progress::Done(scanned)) => scanned_told(world, sync, scanned),
        },
    decreases scan.todo.len(),
{
    if scan.todo.len() == 0 {
        assert forall|sought: Sought, path: Seq<char>|
            !#[trigger] awaited(world, sync, scan.todo, sought, path) by {}
        assert forall|path: Seq<char>| #[trigger]
            scan.files.contains_key(path) <==> local_file_at(world, sync, path) by {
            assert(there(world, sync, Sought::File, path) == local_file_at(world, sync, path));
            assert(taken(scan, Sought::File, path) == scan.files.contains_key(path));
        }
        assert forall|path: Seq<char>| #[trigger]
            scan.symlinks.contains(path) <==> local_link_at(world, sync, path) by {
            assert(there(world, sync, Sought::Link, path) == local_link_at(world, sync, path));
            assert(taken(scan, Sought::Link, path) == scan.symlinks.contains(path));
        }
        assert forall|path: Seq<char>| !#[trigger] garbled_at(world, sync, path) by {
            assert(there(world, sync, Sought::Garbled, path) == garbled_at(world, sync, path));
            assert(!taken(scan, Sought::Garbled, path));
        }
    } else {
        let item = scan.todo.last();
        let path = scan.path_of(item);
        let here = inside(item.directory, decode_utf8(item.entry.name));
        assert(path == here);
        let rest = ScanView { todo: scan.todo.drop_last(), ..scan };
        assert forall|sought: Sought, other: Seq<char>| #[trigger]
            awaited(world, sync, rest.todo, sought, other) implies there(
            world,
            sync,
            sought,
            other,
        ) by {
            rest_is_awaited(world, sync, scan.todo, sought, other);
            assert(awaited(world, sync, scan.todo, sought, other));
        }
        assert forall|sought: Sought, other: Seq<char>| #[trigger]
            taken(rest, sought, other) == taken(scan, sought, other) by {}
        assert(sound(world, sync, rest));
        // what is there is taken up, waits behind the item, or is what the item leads to
        assert forall|sought: Sought, other: Seq<char>| #[trigger]
            there(world, sync, sought, other) implies taken(rest, sought, other) || awaited(
            world,
            sync,
            rest.todo,
            sought,
            other,
        ) || leads_to(world, sync, item, sought, other) by {
            rest_is_awaited(world, sync, scan.todo, sought, other);
            assert(taken(scan, sought, other) || awaited(world, sync, scan.todo, sought, other));
        }
        assert forall|sought: Sought, other: Seq<char>| #[trigger]
            leads_to(world, sync, item, sought, other) implies there(world, sync, sought, other) by {
            rest_is_awaited(world, sync, scan.todo, sought, other);
            assert(awaited(world, sync, scan.todo, sought, other));
        }
        match scan.choice(item) {
            ScanChoice::Reject => {},
            ScanChoice::Skip => {
                assert forall|sought: Sought, other: Seq<char>| !#[trigger]
                    leads_to(world, sync, item, sought, other) by {}
                advances_as_told(world, sync, rest);
            },
            ScanChoice::Count => {
                let next = ScanView { symlinks: scan.symlinks.push(path), ..rest };
                assert(seen_at(world, sync, item.directory, item.entry, 0, Sought::Link, path));
                assert(leads_to(world, sync, item, Sought::Link, path));
                assert forall|sought: Sought, other: Seq<char>| #[trigger]
                    taken(next, sought, other) <==> taken(scan, sought, other) || (sought is Link
                    && other == path) by {
                    let (links, before) = (next.symlinks, scan.symlinks);
                    if before.contains(other) {
                        let k = choose|k: int| 0 <= k < before.len() && before[k] == other;
                        assert(links[k] == other);
                    }
                    if links.contains(other) && other != path {
                        let k = choose|k: int| 0 <= k < links.len() && links[k] == other;
                        assert(before[k] == other);
                    }
                    assert(links[before.len() as int] == path);
                }
                assert forall|sought: Sought, other: Seq<char>| #[trigger]
                    leads_to(world, sync, item, sought, other) implies sought is Link && other
                    == path by {}
                assert(open(world, sync, next));
                advances_as_told(world, sync, next);
            },
            ScanChoice::Enter => {
                let next = ScanView { stage: ScanStage::Listing { directory: path }, ..rest };
                assert forall|sought: Sought, other: Seq<char>| #[trigger]
                    taken(next, sought, other) == taken(scan, sought, other) by {}
                assert forall|sought: Sought, other: Seq<char>| #[trigger]
                    holds_below(world, sync, path, sought, other) == leads_to(
                        world,
                        sync,
                        item,
                        sought,
                        other,
                    ) by {
                    directory_leads_below(world, sync, item, sought, other);
                }
                assert forall|sought: Sought, other: Seq<char>| #[trigger]
                    there(world, sync, sought, other) implies taken(next, sought, other) || awaited(
                    world,
                    sync,
                    next.todo,
                    sought,
                    other,
                ) || holds_below(world, sync, path, sought, other) by {
                    directory_leads_below(world, sync, item, sought, other);
                    assert(taken(rest, sought, other) == taken(next, sought, other));
                }
                assert(sound(world, sync, next));
            },
            ScanChoice::Take => {
                let next = ScanView { stage: ScanStage::Reading { path }, ..rest };
                assert forall|sought: Sought, other: Seq<char>| #[trigger]
                    taken(next, sought, other) == taken(scan, sought, other) by {}
                assert(seen_at(world, sync, item.directory, item.entry, 0, Sought::File, path));
                assert(leads_to(world, sync, item, Sought::File, path));
                assert forall|sought: Sought, other: Seq<char>| #[trigger]
                    leads_to(world, sync, item, sought, other) implies sought is File && other
                    == path by {}
                assert forall|sought: Sought, other: Seq<char>| #[trigger]
                    there(world, sync, sought, other) implies taken(next, sought, other) || awaited(
                    world,
                    sync,
                    next.todo,
                    sought,
                    other,
                ) || (sought is File && other == path) by {
                    assert(taken(rest, sought, other) == taken(next, sought, other));
                }
                assert(sound(world, sync, next));
            },
        }
    }
}

proof fn listing_is_awaited(
    world: World,
    sync: SyncConfigView,
    scan: ScanView,
    directory: Seq<char>,
    sought: Sought,
    path: Seq<char>,
)
    ensures
        ({
            let entries = (world.entries)(local_path_of(sync.local, directory));
            awaited(world, sync, scan.with_listing(directory, entries).todo, sought, path)
                <==> awaited(world, sync, scan.todo, sought, path) || holds_below(
                world,
                sync,
                directory,
                sought,
                path,
            )
        }),
{
    let entries = (world.entries)(local_path_of(sync.local, directory));
    let sorted = by_name(entries);
    let more = sorted.reverse().map_values(
        |entry: DirEntryView| ScanItemView { directory, entry },
    );
    let todo = scan.with_listing(directory, entries).todo;
    assert(todo == scan.todo + more);
    by_name_sorts(entries);
    broadcast use vstd::seq_lib::group_to_multiset_ensures;

    if awaited(world, sync, scan.todo, sought, path) {
        let t = choose|t: int|
            0 <= t < scan.todo.len() && leads_to(
                world,
                sync,
                #[trigger] scan.todo[t],
                sought,
                path,
            );
        assert(todo[t] == scan.todo[t]);
    }
    if holds_below(world, sync, directory, sought, path) {
        let depth = choose|depth: nat| #[trigger]
            seen_below(world, sync, directory, depth, sought, path);
        let k = choose|k: int|
            0 <= k < entries.len() && seen_at(
                world,
                sync,
                directory,
                #[trigger] entries[k],
                depth,
                sought,
                path,
            );
        assert(entries.contains(entries[k]));
        assert(entries.to_multiset().count(entries[k]) > 0);
        assert(sorted.contains(entries[k]));
        let m = choose|m: int| 0 <= m < sorted.len() && sorted[m] == entries[k];
        let t = scan.todo.len() + sorted.len() - 1 - m;
        assert(todo[t] == (ScanItemView { directory, entry: entries[k] }));
        assert(seen_at(
            world,
            sync,
            todo[t].directory,
            todo[t].entry,
            depth,
            sought,
            path,
        ));
        assert(leads_to(world, sync, todo[t], sought, path));
    }
    if awaited(world, sync, todo, sought, path) {
        let t = choose|t: int|
            0 <= t < todo.len() && leads_to(world, sync, #[trigger] todo[t], sought, path);
        if t < scan.todo.len() {
            assert(scan.todo[t] == todo[t]);
        } else {
            let m = sorted.len() - 1 - (t - scan.todo.len());
            assert(todo[t] == (ScanItemView { directory, entry: sorted[m] }));
            assert(sorted.contains(sorted[m]));
            assert(sorted.to_multiset().count(sorted[m]) > 0);
            assert(entries.contains(sorted[m]));
            let k = choose|k: int| 0 <= k < entries.len() && entries[k] == sorted[m];
            let depth = choose|depth: nat| #[trigger]
                seen_at(world, sync, directory, sorted[m], depth, sought, path);
            assert(seen_at(world, sync, directory, entries[k], depth, sought, path));
            assert(seen_below(world, sync, directory, depth, sought, path));
        }
    }
}

/// A scan that is told the world goes on to be told it, and ends with what there is.
pub proof fn scan_stays_told(
    world: World,
    sync: SyncConfigView,
    scan: ScanView,
    request: RequestView,
    reply: ReplyView,
)
    requires
        scan_told(world, sync, scan, request),
        told(world, request, reply),
    ensures
        match scan.stepped(reply) {
            Err(_) => true,
            Ok(Progress::Ask(next, asked)) => scan_told(world, sync, next, asked),
            Ok(Progress::Done(scanned)) => scanned_told(world, sync, scanned),
        },
{
    match scan.stage {
        ScanStage::Listing { directory } => {
            let entries = (world.entries)(local_path_of(sync.local, directory));
            let next = scan.with_listing(directory, entries);
            assert forall|sought: Sought, path: Seq<char>| #[trigger]
                taken(next, sought, path) == taken(scan, sought, path) by {}
            assert forall|sought: Sought, path: Seq<char>| #[trigger]
                awaited(world, sync, next.todo, sought, path) implies there(
                world,
                sync,
                sought,
                path,
            ) by {
                listing_is_awaited(world, sync, scan, directory, sought, path);
                assert(awaited(world, sync, scan.todo, sought, path) || holds_below(
                    world,
                    sync,
                    directory,
                    sought,
                    path,
                ));
            }
            assert forall|sought: Sought, path: Seq<char>| #[trigger]
                there(world, sync, sought, path) implies taken(next, sought, path) || awaited(
                world,
                sync,
                next.todo,
                sought,
                path,
            ) by {
                listing_is_awaited(world, sync, scan, directory, sought, path);
                assert(taken(next, sought, path) == taken(scan, sought, path));
            }
            advances_as_told(world, sync, next);
        },
        ScanStage::Reading { path: read } => {
            let stat = stat_at(world, sync, read);
            if let Ok(file) = file_at(read, stat) {
                let next = ScanView { files: scan.files.insert(read, file), ..scan };
                assert forall|sought: Sought, path: Seq<char>| #[trigger]
                    taken(next, sought, path) <==> taken(scan, sought, path) || (sought is File
                    && path == read) by {}
                assert forall|path: Seq<char>| #[trigger]
                    next.files.contains_key(path) implies described(
                    world,
                    sync,
                    path,
                    next.files[path],
                ) by {
                    if path != read {
                        assert(scan.files.contains_key(path));
                    }
                }
                advances_as_told(world, sync, next);
            }
        },
    }
}

/// A scan that has seen nothing yet was told nothing wrong.
pub proof fn scan_starts_told(world: World, sync: SyncConfigView)
    ensures
        scan_started(sync.local, sync.ready_marker, sync.exclude) matches Progress::Ask(
            scan,
            request,
        ) && scan_told(world, sync, scan, request),
{
    let start = scan_started(sync.local, sync.ready_marker, sync.exclude);
    let scan = start->Ask_0;
    assert forall|sought: Sought, path: Seq<char>| !#[trigger] taken(scan, sought, path) by {}
    assert forall|sought: Sought, path: Seq<char>| !#[trigger]
        awaited(world, sync, scan.todo, sought, path) by {}
    assert forall|sought: Sought, path: Seq<char>| #[trigger]
        holds_below(world, sync, Seq::empty(), sought, path) == there(world, sync, sought, path) by {}
}

/// A scan finds exactly the local files that there are: every regular file that can be reached from
/// the root through directories that are not excluded, that is not excluded itself and that is not
/// the readiness marker, with its size and its modification time; nothing else about a name leaves a
/// file out. The symbolic links are those that can be reached in the same way. A scan that meets a
/// name that is no text does not come to a good end.
pub proof fn a_scan_finds_what_there_is(
    world: World,
    sync: SyncConfigView,
    replies: Seq<ReplyView>,
)
    requires
        all_told(
            world,
            requests(
                scan_step(),
                scan_started(sync.local, sync.ready_marker, sync.exclude),
                replies,
            ),
            replies,
        ),
    ensures
        ending(
            scan_step(),
            scan_started(sync.local, sync.ready_marker, sync.exclude),
            replies,
        ) matches Some(Ok(scanned)) ==> {
            &&& local_side(world, sync, scanned.files)
            &&& forall|path: Seq<char>| #[trigger]
                scanned.symlinks.contains(path) <==> local_link_at(world, sync, path)
            &&& forall|path: Seq<char>| !#[trigger] garbled_at(world, sync, path)
        },
{
    scan_starts_told(world, sync);
    let answered = |request: RequestView, reply: ReplyView| told(world, request, reply);
    let sound = |scan: ScanView, request: RequestView| scan_told(world, sync, scan, request);
    assert forall|scan: ScanView, request: RequestView, reply: ReplyView|
        #![trigger sound(scan, request), scan_step()(scan, reply)]
        sound(scan, request) && answered(request, reply) implies match scan_step()(scan, reply) {
        Err(_) => true,
        Ok(Progress::Ask(next, asked)) => sound(next, asked),
        Ok(Progress::Done(scanned)) => scanned_told(world, sync, scanned),
    } by {
        scan_stays_told(world, sync, scan, request, reply);
    }
    kept_when_told(
        scan_step(),
        answered,
        sound,
        |request: RequestView| true,
        |scanned: ScannedView| scanned_told(world, sync, scanned),
        scan_started(sync.local, sync.ready_marker, sync.exclude),
        replies,
    );
}

} // verus!
