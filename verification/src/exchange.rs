//! What a run asks of the outside, and what it is answered.
//!
//! A run is a value that is stepped: it takes the reply to its last request and gives the next
//! request, until it is done. Everything that touches disk, database or drive is such a request.

use crate::drive::{RemoteNode, RemoteNodeView, TrashBatchResult, TrashBatchView, TrashTarget};
use crate::drive::{TrashTargetView, UploadBatchResult, UploadBatchView};
use crate::path_map::PathMap;
use crate::state::{FileCheckpoint, FileState};
use crate::text::{option_view, views};
use vstd::prelude::*;

verus! {

/// What an entry of a local directory is.
#[derive(Clone, Copy, Debug, PartialEq, Eq, Structural)]
pub enum EntryKind {
    File,
    Directory,
    Symlink,
    Other,
}

/// An entry of a local directory.
#[derive(Debug)]
pub struct DirEntry {
    /// The name, as the file system has it.
    pub name: Vec<u8>,
    pub kind: EntryKind,
}

/// The view of an entry.
#[verifier::ext_equal]
pub struct DirEntryView {
    pub name: Seq<u8>,
    pub kind: EntryKind,
}

impl View for DirEntry {
    type V = DirEntryView;

    open spec fn view(&self) -> DirEntryView {
        DirEntryView { name: self.name@, kind: self.kind }
    }
}

/// The metadata of a local file.
#[derive(Clone, Copy, Debug)]
pub struct FileStat {
    pub size: u64,
    /// Seconds and nanoseconds since the Unix epoch; none for a time before it.
    pub modified: Option<(u64, u32)>,
}

/// Something that a run needs done.
#[derive(Debug)]
pub enum Request {
    /// Is there a directory at a local path? Answered by `Reply::Flag`.
    IsDirectory { path: String },
    /// Is there a file at a local path? Answered by `Reply::Flag`.
    IsFile { path: String },
    /// The entries of a local directory. Answered by `Reply::Entries`.
    ListDirectory { path: String },
    /// The metadata of a local file. Answered by `Reply::Stat`.
    Stat { path: String },
    /// The SHA-1 digest of a local file. Answered by `Reply::Digest`.
    Hash { path: String },
    /// Make a fresh directory beside a local path, and the directories above it. Answered by
    /// `Reply::Staged`.
    Stage { target: String },
    /// Move a staged file to its place. Answered by `Reply::Done`.
    Install { staged: String, target: String },
    /// Move a local file to the trash of the desktop. Answered by `Reply::Done`.
    TrashLocal { path: String },
    /// Every file state of a mirror. Answered by `Reply::States`.
    LoadStates { mirror: String },
    /// One file state of a mirror. Answered by `Reply::State`.
    LoadState { mirror: String, path: String },
    /// The paths of the file states of a mirror, in order. Answered by `Reply::Paths`.
    StatePaths { mirror: String },
    /// Save file states in one transaction. Answered by `Reply::Done`.
    Commit { checkpoints: Vec<FileCheckpoint<String>> },
    /// Forget file states of a mirror. Answered by `Reply::Done`.
    DeleteStates { mirror: String, paths: Vec<String> },
    /// A value of the database. Answered by `Reply::Value`.
    LoadMetadata { key: String },
    /// Save a value. Answered by `Reply::Done`.
    SaveMetadata { key: String, value: String },
    /// Is a remote directory of a mirror on record? Answered by `Reply::Flag`.
    KnowsDirectory { mirror: String, path: String },
    /// Put a remote directory of a mirror on record. Answered by `Reply::Done`.
    SaveDirectory { mirror: String, path: String },
    /// Replace the recorded remote directories of a mirror. Answered by `Reply::Done`.
    ReplaceDirectories { mirror: String, paths: Vec<String> },
    /// The nodes of a remote folder. Answered by `Reply::Nodes`.
    List { path: String },
    /// The node at a remote path. Answered by `Reply::Node`.
    Info { path: String },
    /// Make a remote folder. Answered by `Reply::Done`.
    CreateFolder { parent: String, name: String },
    /// Upload local files into a remote folder. Answered by `Reply::Uploaded`.
    Upload { files: Vec<String>, parent: String },
    /// Download a remote file into a local directory. Answered by `Reply::Done`.
    Download { path: String, directory: String },
    /// Move remote files to the trash of the drive. Answered by `Reply::Trashed`.
    TrashRemote { targets: Vec<TrashTarget> },
    /// Give up what the drive client holds. Answered by `Reply::Done`.
    ReleaseSession,
}

/// The view of a request.
#[verifier::ext_equal]
pub enum RequestView {
    IsDirectory { path: Seq<char> },
    IsFile { path: Seq<char> },
    ListDirectory { path: Seq<char> },
    Stat { path: Seq<char> },
    Hash { path: Seq<char> },
    Stage { target: Seq<char> },
    Install { staged: Seq<char>, target: Seq<char> },
    TrashLocal { path: Seq<char> },
    LoadStates { mirror: Seq<char> },
    LoadState { mirror: Seq<char>, path: Seq<char> },
    StatePaths { mirror: Seq<char> },
    Commit { checkpoints: Seq<FileCheckpoint<Seq<char>>> },
    DeleteStates { mirror: Seq<char>, paths: Seq<Seq<char>> },
    LoadMetadata { key: Seq<char> },
    SaveMetadata { key: Seq<char>, value: Seq<char> },
    KnowsDirectory { mirror: Seq<char>, path: Seq<char> },
    SaveDirectory { mirror: Seq<char>, path: Seq<char> },
    ReplaceDirectories { mirror: Seq<char>, paths: Seq<Seq<char>> },
    List { path: Seq<char> },
    Info { path: Seq<char> },
    CreateFolder { parent: Seq<char>, name: Seq<char> },
    Upload { files: Seq<Seq<char>>, parent: Seq<char> },
    Download { path: Seq<char>, directory: Seq<char> },
    TrashRemote { targets: Seq<TrashTargetView> },
    ReleaseSession,
}

impl View for Request {
    type V = RequestView;

    open spec fn view(&self) -> RequestView {
        match *self {
            Request::IsDirectory { path } => RequestView::IsDirectory { path: path@ },
            Request::IsFile { path } => RequestView::IsFile { path: path@ },
            Request::ListDirectory { path } => RequestView::ListDirectory { path: path@ },
            Request::Stat { path } => RequestView::Stat { path: path@ },
            Request::Hash { path } => RequestView::Hash { path: path@ },
            Request::Stage { target } => RequestView::Stage { target: target@ },
            Request::Install { staged, target } => RequestView::Install {
                staged: staged@,
                target: target@,
            },
            Request::TrashLocal { path } => RequestView::TrashLocal { path: path@ },
            Request::LoadStates { mirror } => RequestView::LoadStates { mirror: mirror@ },
            Request::LoadState { mirror, path } => RequestView::LoadState {
                mirror: mirror@,
                path: path@,
            },
            Request::StatePaths { mirror } => RequestView::StatePaths { mirror: mirror@ },
            Request::Commit { checkpoints } => RequestView::Commit {
                checkpoints: views(checkpoints@),
            },
            Request::DeleteStates { mirror, paths } => RequestView::DeleteStates {
                mirror: mirror@,
                paths: views(paths@),
            },
            Request::LoadMetadata { key } => RequestView::LoadMetadata { key: key@ },
            Request::SaveMetadata { key, value } => RequestView::SaveMetadata {
                key: key@,
                value: value@,
            },
            Request::KnowsDirectory { mirror, path } => RequestView::KnowsDirectory {
                mirror: mirror@,
                path: path@,
            },
            Request::SaveDirectory { mirror, path } => RequestView::SaveDirectory {
                mirror: mirror@,
                path: path@,
            },
            Request::ReplaceDirectories { mirror, paths } => RequestView::ReplaceDirectories {
                mirror: mirror@,
                paths: views(paths@),
            },
            Request::List { path } => RequestView::List { path: path@ },
            Request::Info { path } => RequestView::Info { path: path@ },
            Request::CreateFolder { parent, name } => RequestView::CreateFolder {
                parent: parent@,
                name: name@,
            },
            Request::Upload { files, parent } => RequestView::Upload {
                files: views(files@),
                parent: parent@,
            },
            Request::Download { path, directory } => RequestView::Download {
                path: path@,
                directory: directory@,
            },
            Request::TrashRemote { targets } => RequestView::TrashRemote {
                targets: views(targets@),
            },
            Request::ReleaseSession => RequestView::ReleaseSession,
        }
    }
}

/// The answer to a request.
pub enum Reply {
    Done,
    Flag(bool),
    Entries(Vec<DirEntry>),
    Stat(FileStat),
    Digest(String),
    Staged { directory: String },
    States(PathMap<FileState<String>>),
    State(Option<FileState<String>>),
    Paths(Vec<String>),
    Value(Option<String>),
    Nodes(Vec<RemoteNode>),
    Node(Option<RemoteNode>),
    Uploaded(UploadBatchResult),
    Trashed(TrashBatchResult),
}

/// The view of a reply.
#[verifier::ext_equal]
pub enum ReplyView {
    Done,
    Flag(bool),
    Entries(Seq<DirEntryView>),
    Stat(FileStat),
    Digest(Seq<char>),
    Staged { directory: Seq<char> },
    States(Map<Seq<char>, FileState<Seq<char>>>),
    State(Option<FileState<Seq<char>>>),
    Paths(Seq<Seq<char>>),
    Value(Option<Seq<char>>),
    Nodes(Seq<RemoteNodeView>),
    Node(Option<RemoteNodeView>),
    Uploaded(UploadBatchView),
    Trashed(TrashBatchView),
}

impl View for Reply {
    type V = ReplyView;

    open spec fn view(&self) -> ReplyView {
        match *self {
            Reply::Done => ReplyView::Done,
            Reply::Flag(flag) => ReplyView::Flag(flag),
            Reply::Entries(entries) => ReplyView::Entries(views(entries@)),
            Reply::Stat(stat) => ReplyView::Stat(stat),
            Reply::Digest(digest) => ReplyView::Digest(digest@),
            Reply::Staged { directory } => ReplyView::Staged { directory: directory@ },
            Reply::States(states) => ReplyView::States(states@),
            Reply::State(state) => ReplyView::State(option_view(state)),
            Reply::Paths(paths) => ReplyView::Paths(views(paths@)),
            Reply::Value(value) => ReplyView::Value(option_view(value)),
            Reply::Nodes(nodes) => ReplyView::Nodes(views(nodes@)),
            Reply::Node(node) => ReplyView::Node(option_view(node)),
            Reply::Uploaded(result) => ReplyView::Uploaded(result@),
            Reply::Trashed(result) => ReplyView::Trashed(result@),
        }
    }
}

/// What a step leads to: a run that waits for the reply to a request, or a result.
pub enum Progress<M, R, T> {
    Ask(M, R),
    Done(T),
}

impl<M: View, R: View, T: View> View for Progress<M, R, T> {
    type V = Progress<M::V, R::V, T::V>;

    open spec fn view(&self) -> Progress<M::V, R::V, T::V> {
        match *self {
            Progress::Ask(run, request) => Progress::Ask(run@, request@),
            Progress::Done(result) => Progress::Done(result@),
        }
    }
}

} // verus!
