//! The world that a sync looks at: a local tree, a remote tree and what is remembered.

use crate::config::SyncConfigView;
use crate::drive::{RemoteFileView, RemoteNodeView};
use crate::exchange::{DirEntryView, EntryKind, FileStat, ReplyView, RequestView};
use crate::excludes::glob_matches;
use crate::paths::{drive_path, path_parts};
use crate::plan::LocalFile;
use crate::scan::local_path_of;
use crate::state::FileState;
use crate::text::{ascii_fold, same_ignoring_case};
use vstd::prelude::*;
use vstd::utf8::{decode_utf8, valid_utf8};

verus! {

/// What there is to see. Nothing is said of how a sync looks at it.
pub struct World {
    /// The entries of a local directory, by its place.
    pub entries: spec_fn(Seq<char>) -> Seq<DirEntryView>,
    /// The metadata of a local file, by its place.
    pub stat: spec_fn(Seq<char>) -> FileStat,
    /// The digest of a local file, by its place.
    pub digest: spec_fn(Seq<char>) -> Seq<char>,
    /// The nodes of a remote folder, by its path on the drive.
    pub nodes: spec_fn(Seq<char>) -> Seq<RemoteNodeView>,
    /// What is remembered of the files of the entry.
    pub states: Map<Seq<char>, FileState<Seq<char>>>,
    /// The paths that are remembered once the uploads of a push are done.
    pub known: Seq<Seq<char>>,
    /// What is on record of the comparison of the remote tree.
    pub baseline: Option<Seq<char>>,
}

/// A reply that tells the world as it is. A reply to a request for something to be done is free.
pub open spec fn told(world: World, request: RequestView, reply: ReplyView) -> bool {
    match request {
        RequestView::ListDirectory { path } => reply == ReplyView::Entries((world.entries)(path)),
        RequestView::Stat { path } => reply == ReplyView::Stat((world.stat)(path)),
        RequestView::Hash { path } => reply == ReplyView::Digest((world.digest)(path)),
        RequestView::List { path } => reply == ReplyView::Nodes((world.nodes)(path)),
        RequestView::LoadStates { .. } => reply == ReplyView::States(world.states),
        RequestView::StatePaths { .. } => reply == ReplyView::Paths(world.known),
        RequestView::LoadMetadata { .. } => reply == ReplyView::Value(world.baseline),
        _ => true,
    }
}

/// Every reply tells the world as it is.
pub open spec fn all_told(world: World, asked: Seq<RequestView>, replies: Seq<ReplyView>) -> bool {
    forall|i: int|
        0 <= i < asked.len() && i < replies.len() ==> told(
            world,
            #[trigger] asked[i],
            replies[i],
        )
}

/// What is called `name` in a directory: the name itself in the root, and else the directory, a
/// slash and the name.
pub open spec fn inside(directory: Seq<char>, name: Seq<char>) -> Seq<char> {
    if directory.len() == 0 {
        name
    } else {
        directory + "/"@ + name
    }
}

/// Whether a path is left alone: some pattern matches it.
pub open spec fn left_alone(sync: SyncConfigView, path: Seq<char>) -> bool {
    exists|i: int|
        0 <= i < sync.exclude.len() && glob_matches(#[trigger] sync.exclude[i], path)
}

/// Whether a path is that of the readiness marker.
pub open spec fn is_marker(sync: SyncConfigView, path: Seq<char>) -> bool {
    sync.ready_marker matches Some(marker) && {
        &&& (path.len() > 0 && path[0] == '/') == (marker.len() > 0 && marker[0] == '/')
        &&& path_parts(path) == path_parts(marker)
    }
}

/// What is looked for below the local root: a file, a symbolic link, or a directory with an entry
/// whose name is no text.
pub enum Sought {
    File,
    Link,
    Garbled,
}

/// Whether `path` is a sought thing in a directory or up to `depth` directories further down.
/// Directories that are left alone are not entered.
pub open spec fn seen_below(
    world: World,
    sync: SyncConfigView,
    directory: Seq<char>,
    depth: nat,
    sought: Sought,
    path: Seq<char>,
) -> bool
    decreases depth, 1int,
{
    let entries = (world.entries)(local_path_of(sync.local, directory));
    exists|k: int|
        0 <= k < entries.len() && seen_at(
            world,
            sync,
            directory,
            #[trigger] entries[k],
            depth,
            sought,
            path,
        )
}

/// Whether `path` is a sought thing that an entry of a directory is or leads to.
pub open spec fn seen_at(
    world: World,
    sync: SyncConfigView,
    directory: Seq<char>,
    entry: DirEntryView,
    depth: nat,
    sought: Sought,
    path: Seq<char>,
) -> bool
    decreases depth, 0int,
{
    let here = inside(directory, decode_utf8(entry.name));
    if !valid_utf8(entry.name) {
        sought is Garbled && path == directory
    } else if left_alone(sync, here) {
        false
    } else {
        match entry.kind {
            EntryKind::File => sought is File && path == here && !is_marker(sync, here),
            EntryKind::Symlink => sought is Link && path == here,
            EntryKind::Directory => depth > 0 && seen_below(
                world,
                sync,
                here,
                (depth - 1) as nat,
                sought,
                path,
            ),
            EntryKind::Other => false,
        }
    }
}

/// Whether there is a local file at a path: a regular file that can be reached from the root, that
/// is not left alone, and that is not the readiness marker.
pub open spec fn local_file_at(world: World, sync: SyncConfigView, path: Seq<char>) -> bool {
    exists|depth: nat| #[trigger]
        seen_below(world, sync, Seq::empty(), depth, Sought::File, path)
}

/// Whether there is a symbolic link at a path that can be reached from the local root and is not
/// left alone.
pub open spec fn local_link_at(world: World, sync: SyncConfigView, path: Seq<char>) -> bool {
    exists|depth: nat| #[trigger]
        seen_below(world, sync, Seq::empty(), depth, Sought::Link, path)
}

/// Whether a directory that can be reached from the local root, and that is not left alone, has an
/// entry whose name is no text.
pub open spec fn garbled_at(world: World, sync: SyncConfigView, path: Seq<char>) -> bool {
    exists|depth: nat| #[trigger]
        seen_below(world, sync, Seq::empty(), depth, Sought::Garbled, path)
}

/// The metadata of the local file at a path.
pub open spec fn stat_at(world: World, sync: SyncConfigView, path: Seq<char>) -> FileStat {
    (world.stat)(local_path_of(sync.local, path))
}

/// The digest of the local file at a path.
pub open spec fn digest_at(world: World, sync: SyncConfigView, path: Seq<char>) -> Seq<char> {
    (world.digest)(local_path_of(sync.local, path))
}

/// A local file that is described as it is.
pub open spec fn described(
    world: World,
    sync: SyncConfigView,
    path: Seq<char>,
    file: LocalFile<Seq<char>>,
) -> bool {
    let stat = stat_at(world, sync, path);
    &&& file.relative == path
    &&& file.size == stat.size
    &&& stat.modified matches Some((seconds, nanos))
    &&& file.mtime_ns == seconds * 1_000_000_000 + nanos
}

/// The local files are those that there are, each described as it is.
pub open spec fn local_side(
    world: World,
    sync: SyncConfigView,
    files: Map<Seq<char>, LocalFile<Seq<char>>>,
) -> bool {
    &&& forall|path: Seq<char>| #[trigger]
        files.contains_key(path) <==> local_file_at(world, sync, path)
    &&& forall|path: Seq<char>| #[trigger]
        files.contains_key(path) ==> described(world, sync, path, files[path])
}

/// Whether two characters are the same letter, or the same character otherwise: a capital letter of
/// the alphabet and the small one are the same letter.
pub open spec fn same_letter(a: char, b: char) -> bool {
    ||| a == b
    ||| 'a' <= a <= 'z' && b as int == a as int - 32
    ||| 'A' <= a <= 'Z' && b as int == a as int + 32
}

/// Whether two digests are the same, whatever the case of their letters.
pub open spec fn same_digest(a: Seq<char>, b: Seq<char>) -> bool {
    a.len() == b.len() && forall|i: int|
        0 <= i < a.len() ==> same_letter(#[trigger] a[i], #[trigger] b[i])
}

/// Texts that are the same up to the case of their letters are the same digest.
pub proof fn digests_ignore_case(a: Seq<char>, b: Seq<char>)
    ensures
        same_ignoring_case(a, b) <==> same_digest(a, b),
{
    if same_ignoring_case(a, b) {
        assert forall|i: int| 0 <= i < a.len() implies same_letter(
            #[trigger] a[i],
            #[trigger] b[i],
        ) by {
            assert(ascii_fold(a[i]) == ascii_fold(b[i]));
        }
    }
    if same_digest(a, b) {
        assert forall|i: int| 0 <= i < a.len() implies ascii_fold(#[trigger] a[i]) == ascii_fold(
            #[trigger] b[i],
        ) by {
            assert(same_letter(a[i], b[i]));
        }
    }
}

/// A node whose name says where it is.
pub open spec fn named(node: RemoteNodeView, name: Seq<char>) -> bool {
    node.name_ok && node.name == Some(name) && forall|i: int|
        0 <= i < name.len() ==> #[trigger] name[i] != '/'
}

/// Whether `path` is a folder that can be reached from the remote root by `depth` steps: the root by
/// none, and what a folder that is reached holds by one more.
pub open spec fn folder_within(
    world: World,
    sync: SyncConfigView,
    depth: nat,
    path: Seq<char>,
) -> bool
    decreases depth,
{
    if depth == 0 {
        path.len() == 0
    } else {
        exists|folder: Seq<char>, k: int, name: Seq<char>|
            #![trigger held(world, sync, folder, k, name)]
            {
                &&& folder_within(world, sync, (depth - 1) as nat, folder)
                &&& held(world, sync, folder, k, name)
                &&& nodes_at(world, sync, folder)[k].kind == "folder"@
                &&& path == inside(folder, name)
            }
    }
}

/// The nodes of the remote folder at a path.
pub open spec fn nodes_at(world: World, sync: SyncConfigView, folder: Seq<char>) -> Seq<
    RemoteNodeView,
> {
    (world.nodes)(drive_path(sync.remote, folder))
}

/// The `k`-th node of a folder is called `name`.
pub open spec fn held(
    world: World,
    sync: SyncConfigView,
    folder: Seq<char>,
    k: int,
    name: Seq<char>,
) -> bool {
    &&& 0 <= k < nodes_at(world, sync, folder).len()
    &&& named(nodes_at(world, sync, folder)[k], name)
}

/// Whether there is a remote folder at a path.
pub open spec fn folder_at(world: World, sync: SyncConfigView, path: Seq<char>) -> bool {
    exists|depth: nat| #[trigger] folder_within(world, sync, depth, path)
}

/// Whether there is a remote file at a path: a node of a remote folder that is a file and has
/// content.
pub open spec fn remote_file_at(
    world: World,
    sync: SyncConfigView,
    path: Seq<char>,
    file: RemoteFileView,
) -> bool {
    exists|folder: Seq<char>, k: int, name: Seq<char>|
        #![trigger held(world, sync, folder, k, name)]
        {
            &&& folder_at(world, sync, folder)
            &&& held(world, sync, folder, k, name)
            &&& nodes_at(world, sync, folder)[k].kind == "file"@
            &&& nodes_at(world, sync, folder)[k].content == Some(file)
            &&& path == inside(folder, name)
        }
}

/// Nodes that share an identity are one node, at one place.
pub open spec fn one_place_each(world: World, sync: SyncConfigView) -> bool {
    forall|a: Seq<char>, i: int, b: Seq<char>, j: int|
        #![trigger nodes_at(world, sync, a)[i], nodes_at(world, sync, b)[j]]
        {
            &&& folder_at(world, sync, a)
            &&& folder_at(world, sync, b)
            &&& 0 <= i < nodes_at(world, sync, a).len()
            &&& 0 <= j < nodes_at(world, sync, b).len()
            &&& nodes_at(world, sync, a)[i].uid == nodes_at(world, sync, b)[j].uid
        } ==> a == b && nodes_at(world, sync, a)[i] == nodes_at(world, sync, b)[j]
}

/// The remote files are files that there are, and, as far as no two nodes share an identity, all of
/// them.
pub open spec fn remote_side(
    world: World,
    sync: SyncConfigView,
    files: Map<Seq<char>, RemoteFileView>,
) -> bool {
    &&& forall|path: Seq<char>| #[trigger]
        files.contains_key(path) ==> remote_file_at(world, sync, path, files[path])
    &&& one_place_each(world, sync) ==> forall|path: Seq<char>, file: RemoteFileView| #[trigger]
        remote_file_at(world, sync, path, file) ==> files.contains_key(path)
}

} // verus!
