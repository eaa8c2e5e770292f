//! An inventory finds the remote files that there are.

use crate::config::SyncConfigView;
use crate::drive::{RemoteFileView, RemoteNodeView};
use crate::exchange::{Progress, ReplyView, RequestView};
use crate::inventory::{inventory_started, well_named, FoundNodeView, InventoryStage, InventoryView};
use crate::inventory::RemoteTreeView;
use crate::paths::drive_path;
use crate::text::{in_order, in_order_is_ordered};
use crate::trace::{ending, kept_when_told, requests, Step};
use crate::world::{all_told, folder_at, folder_within, held, inside, named, nodes_at};
use crate::world::{one_place_each, remote_file_at, remote_side, told, World};
use vstd::prelude::*;

verus! {

/// The step function of an inventory.
pub open spec fn inventory_step() -> Step<InventoryView, RemoteTreeView> {
    |run: InventoryView, reply: ReplyView| run.stepped(reply)
}

/// A remote tree that is recorded as it is: its files and its folders are at the paths that the names
/// of the folders that lead to them make up, and, as far as no two nodes share an identity, all of
/// them are recorded.
pub open spec fn tree_told(world: World, sync: SyncConfigView, tree: RemoteTreeView) -> bool {
    &&& remote_side(world, sync, tree.files)
    &&& tree.files.dom().finite()
    &&& forall|path: Seq<char>| #[trigger]
        tree.directories.contains(path) ==> folder_at(world, sync, path)
    &&& one_place_each(world, sync) ==> forall|path: Seq<char>| #[trigger]
        folder_at(world, sync, path) ==> tree.directories.contains(path)
}

spec fn in_folder(world: World, sync: SyncConfigView, item: FoundNodeView, k: int) -> bool {
    0 <= k < nodes_at(world, sync, item.directory).len() && nodes_at(
        world,
        sync,
        item.directory,
    )[k] == item.node
}

spec fn comes_from(
    world: World,
    sync: SyncConfigView,
    tree: RemoteTreeView,
    item: FoundNodeView,
) -> bool {
    tree.directories.contains(item.directory) && exists|k: int| #[trigger]
        in_folder(world, sync, item, k)
}

spec fn waits(todo: Seq<FoundNodeView>, directory: Seq<char>, node: RemoteNodeView) -> bool {
    todo.contains(FoundNodeView { directory, node })
}

/// The node is recorded, if it is to be.
spec fn handled(
    world: World,
    sync: SyncConfigView,
    tree: RemoteTreeView,
    folder: Seq<char>,
    k: int,
) -> bool {
    &&& folder_at(world, sync, folder)
    &&& 0 <= k < nodes_at(world, sync, folder).len()
    &&& forall|name: Seq<char>| #[trigger]
        held(world, sync, folder, k, name) ==> {
            let node = nodes_at(world, sync, folder)[k];
            &&& node.kind == "folder"@ ==> tree.directories.contains(inside(folder, name))
            &&& node.kind == "file"@ && node.content is Some ==> tree.files.contains_key(
                inside(folder, name),
            )
        }
}

spec fn accounted(
    world: World,
    sync: SyncConfigView,
    tree: RemoteTreeView,
    uid: Seq<char>,
) -> bool {
    exists|folder: Seq<char>, k: int| #[trigger]
        handled(world, sync, tree, folder, k) && nodes_at(world, sync, folder)[k].uid == uid
}

spec fn looked_into(world: World, sync: SyncConfigView, run: InventoryView, folder: Seq<char>) -> bool {
    forall|k: int|
        #![trigger nodes_at(world, sync, folder)[k]]
        0 <= k < nodes_at(world, sync, folder).len() ==> run.visited.contains(
            nodes_at(world, sync, folder)[k].uid,
        ) || waits(run.todo, folder, nodes_at(world, sync, folder)[k])
}

spec fn sound(world: World, sync: SyncConfigView, run: InventoryView) -> bool {
    &&& run.remote == sync.remote
    &&& run.tree.files.dom().finite()
    &&& run.tree.directories.finite()
    &&& run.tree.directories.contains(Seq::empty())
    &&& forall|path: Seq<char>| #[trigger]
        run.tree.files.contains_key(path) ==> remote_file_at(
            world,
            sync,
            path,
            run.tree.files[path],
        )
    &&& forall|path: Seq<char>| #[trigger]
        run.tree.directories.contains(path) ==> folder_at(world, sync, path)
    &&& forall|t: int|
        0 <= t < run.todo.len() ==> comes_from(world, sync, run.tree, #[trigger] run.todo[t])
    &&& forall|uid: Seq<char>| #[trigger]
        run.visited.contains(uid) ==> accounted(world, sync, run.tree, uid)
}

/// An inventory that waits for the reply to a request, with the world told so far.
pub closed spec fn inventory_told(
    world: World,
    sync: SyncConfigView,
    run: InventoryView,
    request: RequestView,
) -> bool {
    &&& sound(world, sync, run)
    &&& match run.stage {
        InventoryStage::Listing { directory } => {
            &&& request == RequestView::List { path: drive_path(sync.remote, directory) }
            &&& run.tree.directories.contains(directory)
            &&& forall|folder: Seq<char>| #[trigger]
                run.tree.directories.contains(folder) && folder != directory ==> looked_into(
                    world,
                    sync,
                    run,
                    folder,
                )
        },
        InventoryStage::Recording => {
            &&& request matches RequestView::ReplaceDirectories { paths, .. }
            &&& paths == in_order(run.tree.directories)
            &&& tree_told(world, sync, run.tree)
        },
        InventoryStage::Releasing => request is ReleaseSession && tree_told(world, sync, run.tree),
    }
}

/// What an inventory asks: the nodes of a remote folder, or that the folders found are put on record.
pub open spec fn looks_into_folders(
    world: World,
    sync: SyncConfigView,
    request: RequestView,
) -> bool {
    match request {
        RequestView::List { path } => exists|folder: Seq<char>| #[trigger]
            folder_at(world, sync, folder) && path == drive_path(sync.remote, folder),
        RequestView::ReplaceDirectories { paths, .. } => {
            &&& forall|i: int|
                0 <= i < paths.len() ==> folder_at(world, sync, #[trigger] paths[i])
            &&& one_place_each(world, sync) ==> forall|path: Seq<char>| #[trigger]
                folder_at(world, sync, path) ==> paths.contains(path)
        },
        _ => request is ReleaseSession,
    }
}

proof fn inventory_looks(
    world: World,
    sync: SyncConfigView,
    run: InventoryView,
    request: RequestView,
)
    requires
        inventory_told(world, sync, run, request),
    ensures
        looks_into_folders(world, sync, request),
{
    match run.stage {
        InventoryStage::Listing { directory } => {
            assert(folder_at(world, sync, directory));
        },
        InventoryStage::Recording => {
            let paths = request->ReplaceDirectories_paths;
            in_order_is_ordered(run.tree.directories);
            assert forall|i: int| 0 <= i < paths.len() implies folder_at(
                world,
                sync,
                #[trigger] paths[i],
            ) by {
                assert(paths.to_set().contains(paths[i]));
                assert(run.tree.directories.contains(paths[i]));
            }
            if one_place_each(world, sync) {
                assert forall|path: Seq<char>| #[trigger]
                    folder_at(world, sync, path) implies paths.contains(path) by {
                    assert(run.tree.directories.contains(path));
                    assert(paths.to_set().contains(path));
                }
            }
        },
        InventoryStage::Releasing => {},
    }
}

proof fn accounted_in_more(
    world: World,
    sync: SyncConfigView,
    tree: RemoteTreeView,
    more: RemoteTreeView,
    uid: Seq<char>,
)
    requires
        accounted(world, sync, tree, uid),
        forall|path: Seq<char>| #[trigger]
            tree.files.contains_key(path) ==> more.files.contains_key(path),
        forall|path: Seq<char>| #[trigger]
            tree.directories.contains(path) ==> more.directories.contains(path),
    ensures
        accounted(world, sync, more, uid),
{
    let (folder, k) = choose|folder: Seq<char>, k: int| #[trigger]
        handled(world, sync, tree, folder, k) && nodes_at(world, sync, folder)[k].uid == uid;
    assert(handled(world, sync, more, folder, k));
}

/// All folders are recorded once every recorded folder was looked into.
proof fn folders_are_recorded(
    world: World,
    sync: SyncConfigView,
    run: InventoryView,
    depth: nat,
    path: Seq<char>,
)
    requires
        sound(world, sync, run),
        run.todo.len() == 0,
        one_place_each(world, sync),
        forall|folder: Seq<char>| #[trigger]
            run.tree.directories.contains(folder) ==> looked_into(world, sync, run, folder),
        folder_within(world, sync, depth, path),
    ensures
        run.tree.directories.contains(path),
    decreases depth,
{
    if depth == 0 {
        assert(path =~= Seq::empty());
    } else {
        let (folder, k, name) = choose|folder: Seq<char>, k: int, name: Seq<char>|
            #![trigger held(world, sync, folder, k, name)]
            {
                &&& folder_within(world, sync, (depth - 1) as nat, folder)
                &&& held(world, sync, folder, k, name)
                &&& nodes_at(world, sync, folder)[k].kind == "folder"@
                &&& path == inside(folder, name)
            };
        folders_are_recorded(world, sync, run, (depth - 1) as nat, folder);
        node_is_handled(world, sync, run, folder, k);
    }
}

proof fn node_is_handled(
    world: World,
    sync: SyncConfigView,
    run: InventoryView,
    folder: Seq<char>,
    k: int,
)
    requires
        sound(world, sync, run),
        run.todo.len() == 0,
        one_place_each(world, sync),
        run.tree.directories.contains(folder),
        looked_into(world, sync, run, folder),
        0 <= k < nodes_at(world, sync, folder).len(),
    ensures
        handled(world, sync, run.tree, folder, k),
{
    let node = nodes_at(world, sync, folder)[k];
    assert(run.visited.contains(node.uid));
    assert(accounted(world, sync, run.tree, node.uid));
    let (other, j) = choose|other: Seq<char>, j: int| #[trigger]
        handled(world, sync, run.tree, other, j) && nodes_at(world, sync, other)[j].uid
            == node.uid;
    assert(folder_at(world, sync, folder));
    assert(other == folder && nodes_at(world, sync, other)[j] == node);
    assert forall|name: Seq<char>| #[trigger] held(world, sync, folder, k, name) implies {
        &&& node.kind == "folder"@ ==> run.tree.directories.contains(inside(folder, name))
        &&& node.kind == "file"@ && node.content is Some ==> run.tree.files.contains_key(
            inside(folder, name),
        )
    } by {
        assert(held(world, sync, folder, j, name));
    }
}

proof fn everything_is_recorded(world: World, sync: SyncConfigView, run: InventoryView)
    requires
        sound(world, sync, run),
        run.todo.len() == 0,
        forall|folder: Seq<char>| #[trigger]
            run.tree.directories.contains(folder) ==> looked_into(world, sync, run, folder),
    ensures
        tree_told(world, sync, run.tree),
{
    if one_place_each(world, sync) {
        assert forall|path: Seq<char>| #[trigger]
            folder_at(world, sync, path) implies run.tree.directories.contains(path) by {
            let depth = choose|depth: nat| #[trigger] folder_within(world, sync, depth, path);
            folders_are_recorded(world, sync, run, depth, path);
        }
        assert forall|path: Seq<char>, file: RemoteFileView| #[trigger]
            remote_file_at(world, sync, path, file) implies run.tree.files.contains_key(path) by {
            let (folder, k, name) = choose|folder: Seq<char>, k: int, name: Seq<char>|
                #![trigger held(world, sync, folder, k, name)]
                {
                    &&& folder_at(world, sync, folder)
                    &&& held(world, sync, folder, k, name)
                    &&& nodes_at(world, sync, folder)[k].kind == "file"@
                    &&& nodes_at(world, sync, folder)[k].content == Some(file)
                    &&& path == inside(folder, name)
                };
            node_is_handled(world, sync, run, folder, k);
        }
    }
}

/// Taking up the last of what waits keeps every looked-into folder so.
proof fn still_looked_into(
    world: World,
    sync: SyncConfigView,
    run: InventoryView,
    next: InventoryView,
    folder: Seq<char>,
)
    requires
        run.todo.len() > 0,
        next.todo == run.todo.drop_last(),
        next.visited == run.visited.insert(run.todo.last().node.uid),
        looked_into(world, sync, run, folder),
    ensures
        looked_into(world, sync, next, folder),
{
    let nodes = nodes_at(world, sync, folder);
    assert forall|k: int| #![trigger nodes[k]] 0 <= k < nodes.len() implies next.visited.contains(
        nodes[k].uid,
    ) || waits(next.todo, folder, nodes[k]) by {
        let item = FoundNodeView { directory: folder, node: nodes[k] };
        if !run.visited.contains(nodes[k].uid) {
            assert(waits(run.todo, folder, nodes[k]));
            let t = choose|t: int| 0 <= t < run.todo.len() && run.todo[t] == item;
            if t < run.todo.len() - 1 {
                assert(next.todo[t] == item);
            }
        }
    }
}

proof fn advances_as_told(world: World, sync: SyncConfigView, run: InventoryView)
    requires
        sound(world, sync, run),
        forall|folder: Seq<char>| #[trigger]
            run.tree.directories.contains(folder) ==> looked_into(world, sync, run, folder),
    ensures
        run.advanced() matches Ok(Progress::Ask(next, request)) && inventory_told(
            world,
            sync,
            next,
            request,
        ),
    decreases run.todo.len(),
{
    reveal_strlit("file");
    reveal_strlit("folder");
    if run.todo.len() == 0 {
        everything_is_recorded(world, sync, run);
    } else {
        let item = run.todo.last();
        let node = item.node;
        assert(run.todo[run.todo.len() - 1] == item);
        assert(comes_from(world, sync, run.tree, item));
        let k = choose|k: int| #[trigger] in_folder(world, sync, item, k);
        let rest = InventoryView {
            todo: run.todo.drop_last(),
            visited: run.visited.insert(node.uid),
            ..run
        };
        let path = inside(item.directory, node.name->0);
        assert(folder_at(world, sync, item.directory));
        assert forall|t: int| 0 <= t < rest.todo.len() implies comes_from(
            world,
            sync,
            run.tree,
            #[trigger] rest.todo[t],
        ) by {
            assert(rest.todo[t] == run.todo[t]);
        }
        assert forall|folder: Seq<char>| #[trigger]
            run.tree.directories.contains(folder) implies looked_into(
            world,
            sync,
            rest,
            folder,
        ) by {
            still_looked_into(world, sync, run, rest, folder);
        }
        assert(well_named(node) <==> named(node, node.name->0)) by {
            if well_named(node) {
                let name = node.name->0;
                assert forall|i: int| 0 <= i < name.len() implies #[trigger] name[i] != '/' by {
                    assert(name.contains(name[i]));
                }
            }
        }
        if run.visited.contains(node.uid) {
            assert(rest.visited =~= run.visited);
            assert(sound(world, sync, rest));
            advances_as_told(world, sync, rest);
        } else if !well_named(node) {
            assert(handled(world, sync, rest.tree, item.directory, k)) by {
                assert forall|name: Seq<char>| !#[trigger]
                    held(world, sync, item.directory, k, name) by {}
            }
            assert(accounted(world, sync, rest.tree, node.uid));
            assert(sound(world, sync, rest));
            advances_as_told(world, sync, rest);
        } else {
            assert(held(world, sync, item.directory, k, node.name->0));
            if node.kind == "folder"@ {
                let tree = RemoteTreeView {
                    directories: run.tree.directories.insert(path),
                    ..run.tree
                };
                let next = InventoryView {
                    stage: InventoryStage::Listing { directory: path },
                    tree,
                    ..rest
                };
                let depth = choose|depth: nat| #[trigger]
                    folder_within(world, sync, depth, item.directory);
                assert(folder_within(world, sync, depth + 1, path));
                assert(folder_at(world, sync, path));
                assert(handled(world, sync, tree, item.directory, k)) by {
                    assert forall|name: Seq<char>| #[trigger]
                        held(world, sync, item.directory, k, name) implies path == inside(
                        item.directory,
                        name,
                    ) by {
                        assert(named(node, name));
                    }
                    assert(nodes_at(world, sync, item.directory)[k] == node);
                    assert("folder"@.len() != "file"@.len());
                }
                assert forall|uid: Seq<char>| #[trigger] next.visited.contains(uid) implies
                    accounted(world, sync, tree, uid) by {
                    if uid != node.uid {
                        accounted_in_more(world, sync, run.tree, tree, uid);
                    }
                }
                assert forall|t: int| 0 <= t < next.todo.len() implies comes_from(
                    world,
                    sync,
                    tree,
                    #[trigger] next.todo[t],
                ) by {
                    assert(comes_from(world, sync, run.tree, rest.todo[t]));
                }
                assert(sound(world, sync, next));
                assert forall|folder: Seq<char>| #[trigger]
                    next.tree.directories.contains(folder) && folder != path implies looked_into(
                    world,
                    sync,
                    next,
                    folder,
                ) by {
                    assert(run.tree.directories.contains(folder));
                    assert(looked_into(world, sync, rest, folder));
                }
            } else if node.kind == "file"@ && node.content is Some {
                let file = node.content->0;
                let tree = RemoteTreeView {
                    files: run.tree.files.insert(path, file),
                    ..run.tree
                };
                let next = InventoryView { tree, ..rest };
                assert(remote_file_at(world, sync, path, file));
                assert(handled(world, sync, tree, item.directory, k)) by {
                    assert forall|name: Seq<char>| #[trigger]
                        held(world, sync, item.directory, k, name) implies path == inside(
                        item.directory,
                        name,
                    ) by {
                        assert(named(node, name));
                    }
                    assert(nodes_at(world, sync, item.directory)[k] == node);
                    assert("folder"@.len() != "file"@.len());
                }
                assert forall|uid: Seq<char>| #[trigger] next.visited.contains(uid) implies
                    accounted(world, sync, tree, uid) by {
                    if uid != node.uid {
                        accounted_in_more(world, sync, run.tree, tree, uid);
                    }
                }
                assert forall|t: int| 0 <= t < next.todo.len() implies comes_from(
                    world,
                    sync,
                    tree,
                    #[trigger] next.todo[t],
                ) by {
                    assert(comes_from(world, sync, run.tree, rest.todo[t]));
                }
                assert(sound(world, sync, next));
                assert forall|folder: Seq<char>| #[trigger]
                    next.tree.directories.contains(folder) implies looked_into(
                    world,
                    sync,
                    next,
                    folder,
                ) by {
                    assert(looked_into(world, sync, rest, folder));
                }
                advances_as_told(world, sync, next);
            } else {
                assert(handled(world, sync, rest.tree, item.directory, k));
                assert(accounted(world, sync, rest.tree, node.uid));
                assert(sound(world, sync, rest));
                advances_as_told(world, sync, rest);
            }
        }
    }
}

/// An inventory that is told the world goes on to be told it, and ends with what there is.
pub proof fn inventory_stays_told(
    world: World,
    sync: SyncConfigView,
    run: InventoryView,
    request: RequestView,
    reply: ReplyView,
)
    requires
        inventory_told(world, sync, run, request),
        told(world, request, reply),
    ensures
        match run.stepped(reply) {
            Err(_) => true,
            Ok(Progress::Ask(next, asked)) => inventory_told(world, sync, next, asked),
            Ok(Progress::Done(tree)) => tree_told(world, sync, tree),
        },
{
    if let InventoryStage::Listing { directory } = run.stage {
        let nodes = nodes_at(world, sync, directory);
        let next = run.with_listing(directory, nodes);
        let more = nodes.reverse().map_values(
            |node: RemoteNodeView| FoundNodeView { directory, node },
        );
        assert(next.todo == run.todo + more);
        assert forall|t: int| 0 <= t < next.todo.len() implies comes_from(
            world,
            sync,
            next.tree,
            #[trigger] next.todo[t],
        ) by {
            if t < run.todo.len() {
                assert(next.todo[t] == run.todo[t]);
            } else {
                let k = nodes.len() - 1 - (t - run.todo.len());
                assert(next.todo[t] == (FoundNodeView { directory, node: nodes[k] }));
                assert(in_folder(world, sync, next.todo[t], k));
            }
        }
        assert(sound(world, sync, next));
        assert forall|folder: Seq<char>| #[trigger]
            next.tree.directories.contains(folder) implies looked_into(
            world,
            sync,
            next,
            folder,
        ) by {
            let all = nodes_at(world, sync, folder);
            assert forall|k: int| #![trigger all[k]] 0 <= k < all.len() implies next.visited.contains(
                all[k].uid,
            ) || waits(next.todo, folder, all[k]) by {
                let item = FoundNodeView { directory: folder, node: all[k] };
                if folder == directory {
                    assert(next.todo[run.todo.len() + (nodes.len() - 1 - k)] == item);
                } else {
                    assert(looked_into(world, sync, run, folder));
                    if !run.visited.contains(all[k].uid) {
                        assert(waits(run.todo, folder, all[k]));
                        let t = choose|t: int| 0 <= t < run.todo.len() && run.todo[t] == item;
                        assert(next.todo[t] == item);
                    }
                }
            }
        }
        advances_as_told(world, sync, next);
    }
}

/// An inventory that has seen nothing yet was told nothing wrong.
pub proof fn inventory_starts_told(world: World, sync: SyncConfigView, mirror: Seq<char>)
    ensures
        inventory_started(mirror, sync.remote) matches Progress::Ask(run, request)
            && inventory_told(world, sync, run, request),
{
    let run = inventory_started(mirror, sync.remote)->Ask_0;
    assert(folder_within(world, sync, 0, Seq::empty()));
    assert(folder_at(world, sync, Seq::empty()));
    assert(sound(world, sync, run));
}

/// An inventory lists remote folders, each by its path on the drive, and records the files and the
/// folders at the paths that the names of the folders that lead to them make up: a folder's path, a
/// slash and the name, or just the name in the root. It misses nothing as long as no two nodes share
/// an identity.
pub proof fn an_inventory_finds_what_there_is(
    world: World,
    sync: SyncConfigView,
    mirror: Seq<char>,
    replies: Seq<ReplyView>,
)
    requires
        all_told(
            world,
            requests(inventory_step(), inventory_started(mirror, sync.remote), replies),
            replies,
        ),
    ensures
        forall|i: int|
            #![trigger requests(
                inventory_step(),
                inventory_started(mirror, sync.remote),
                replies,
            )[i]]
            0 <= i < requests(
                inventory_step(),
                inventory_started(mirror, sync.remote),
                replies,
            ).len() ==> looks_into_folders(
                world,
                sync,
                requests(inventory_step(), inventory_started(mirror, sync.remote), replies)[i],
            ),
        ending(inventory_step(), inventory_started(mirror, sync.remote), replies) matches Some(
            Ok(tree),
        ) ==> tree_told(world, sync, tree),
{
    let start = inventory_started(mirror, sync.remote);
    inventory_starts_told(world, sync, mirror);
    let answered = |request: RequestView, reply: ReplyView| told(world, request, reply);
    let fine = |request: RequestView| looks_into_folders(world, sync, request);
    let sound = |run: InventoryView, request: RequestView|
        inventory_told(world, sync, run, request);
    assert forall|run: InventoryView, request: RequestView| #[trigger]
        sound(run, request) implies fine(request) by {
        inventory_looks(world, sync, run, request);
    }
    assert forall|run: InventoryView, request: RequestView, reply: ReplyView|
        #![trigger sound(run, request), inventory_step()(run, reply)]
        sound(run, request) && answered(request, reply) implies match inventory_step()(
        run,
        reply,
    ) {
        Err(_) => true,
        Ok(Progress::Ask(next, asked)) => sound(next, asked),
        Ok(Progress::Done(tree)) => tree_told(world, sync, tree),
    } by {
        inventory_stays_told(world, sync, run, request, reply);
    }
    kept_when_told(
        inventory_step(),
        answered,
        sound,
        fine,
        |tree: RemoteTreeView| tree_told(world, sync, tree),
        start,
        replies,
    );
    let asked = requests(inventory_step(), start, replies);
    assert forall|i: int| 0 <= i < asked.len() implies looks_into_folders(
        world,
        sync,
        #[trigger] asked[i],
    ) by {
        assert(fine(asked[i]));
    }
}

} // verus!
