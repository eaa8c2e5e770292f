//! Local and remote trees: how they are walked, and how paths are written.

use pdrive_sync::batches::cut;
use pdrive_sync::config::{ConflictPolicy, DeletePolicy, SyncConfig, SyncMode};
use pdrive_sync::directories::ensure_remote_directory;
use pdrive_sync::download::download_remote_file;
use pdrive_sync::drive::{
    remote_file, RemoteDigests, RemoteFile, RemoteNode, RemoteRevision, ResultValue,
};
use pdrive_sync::exchange::{DirEntry, EntryKind, FileStat, Progress, Reply, Request};
use pdrive_sync::excludes::{build_excludes, managed_paths};
use pdrive_sync::inventory::{inventory_remote, RemoteTree};
use pdrive_sync::path_map::PathMap;
use pdrive_sync::paths::{
    escape_remote_segment, file_name, join_relative, names_same_path, relative_name,
    relative_parent, remote_path,
};
use pdrive_sync::scan::{local_file, local_path, scan_local_files, Scanned};
use pdrive_sync::state::stale_paths;
use std::time::{Duration, UNIX_EPOCH};

fn sync(marker: Option<&str>, exclude: &[&str]) -> SyncConfig {
    SyncConfig {
        name: "stuff".to_owned(),
        mode: SyncMode::Pull,
        local: "/root".to_owned(),
        remote: "/my-files".to_owned(),
        ready_marker: marker.map(|marker| marker.to_owned()),
        delete: DeletePolicy::Keep,
        conflict: ConflictPolicy::Fail,
        exclude: exclude.iter().map(|pattern| pattern.to_string()).collect(),
    }
}

fn listing(path: &str) -> Vec<DirEntry> {
    let entry = |name: &str, kind| DirEntry {
        name: name.as_bytes().to_vec(),
        kind,
    };
    match path {
        "/root" => vec![
            entry("z.txt", EntryKind::File),
            entry("link", EntryKind::Symlink),
            entry("dir", EntryKind::Directory),
            entry(".ready", EntryKind::File),
            entry("skip.tmp", EntryKind::File),
            entry("socket", EntryKind::Other),
            entry("hidden", EntryKind::Directory),
        ],
        "/root/dir" => vec![
            entry("b", EntryKind::File),
            entry("a", EntryKind::File),
            entry("link.tmp", EntryKind::Symlink),
        ],
        other => panic!("{other} was not to be read"),
    }
}

fn scan(sync: &SyncConfig) -> Result<(Scanned, Vec<String>), String> {
    let excludes = build_excludes(sync).unwrap();
    let (mut run, mut request) =
        scan_local_files(&sync.local, sync.ready_marker.clone(), excludes);
    let mut stats = Vec::new();
    loop {
        let reply = match request {
            Request::ListDirectory { path } => Reply::Entries(listing(&path)),
            Request::Stat { path } => {
                stats.push(path);
                Reply::Stat(FileStat {
                    size: stats.len() as u64,
                    modified: Some((10, 5)),
                })
            }
            _ => panic!("a scan only reads"),
        };
        match run.next(reply).map_err(|error| error.message())? {
            Progress::Ask(next, further) => {
                run = next;
                request = further;
            }
            Progress::Done(scanned) => return Ok((scanned, stats)),
        }
    }
}

#[test]
fn a_scan_walks_the_tree_in_order() {
    let (scanned, stats) = scan(&sync(Some(".ready"), &["*.tmp", "hidden"])).unwrap();
    assert_eq!(stats, vec!["/root/dir/a", "/root/dir/b", "/root/z.txt"]);
    assert_eq!(scanned.files.keys(), vec!["dir/a", "dir/b", "z.txt"]);
    assert_eq!(scanned.symlinks, vec!["link"]);
    let file = scanned.files.get("dir/b").unwrap();
    assert_eq!(file.size, 2);
    assert_eq!(file.mtime_ns, 10_000_000_005);
}

#[test]
fn names_that_are_not_utf8_are_rejected() {
    let sync = sync(None, &[]);
    let (run, _) = scan_local_files("/root", None, build_excludes(&sync).unwrap());
    let reply = Reply::Entries(vec![DirEntry {
        name: vec![0xff, 0x61],
        kind: EntryKind::File,
    }]);
    assert_eq!(
        run.next(reply).err().unwrap().message(),
        "local path is not valid UTF-8"
    );
}

#[test]
fn modification_times_must_fit_the_database() {
    let stat = |modified| FileStat { size: 1, modified };
    let later = UNIX_EPOCH + Duration::from_secs(1);
    let early = UNIX_EPOCH.duration_since(later).unwrap_err();
    assert_eq!(
        local_file("a", stat(None)).unwrap_err().message(),
        format!("file modification time is before the Unix epoch: {early}")
    );
    let late = i64::try_from(u128::MAX).unwrap_err();
    assert_eq!(
        local_file("a", stat(Some((9_223_372_037, 0))))
            .unwrap_err()
            .message(),
        format!("file modification time does not fit in SQLite: {late}")
    );
    let last = local_file("a", stat(Some((9_223_372_036, 854_775_807)))).unwrap();
    assert_eq!(last.mtime_ns, i64::MAX);
    assert_eq!(local_path("/root", "a/b"), "/root/a/b");
}

fn node(uid: &str, name: &str, kind: &str) -> RemoteNode {
    RemoteNode {
        uid: uid.to_owned(),
        name: ResultValue {
            ok: true,
            value: Some(name.to_owned()),
        },
        kind: kind.to_owned(),
        total_storage_size: None,
        active_revision: (kind != "folder").then(|| RemoteRevision {
            uid: "revision".to_owned(),
            storage_size: 9,
            claimed_size: 4,
            claimed_modification_time: None,
            claimed_digests: RemoteDigests {
                sha1: "digest".to_owned(),
                sha1_verified: None,
            },
        }),
    }
}

fn inventory(nodes: impl Fn(&str) -> Vec<RemoteNode>) -> (RemoteTree, Vec<String>) {
    let (mut run, mut request) = inventory_remote("stuff", "/my-files/");
    let mut log = Vec::new();
    loop {
        let reply = match request {
            Request::List { path } => {
                log.push(path.clone());
                Reply::Nodes(nodes(&path))
            }
            Request::ReplaceDirectories { mirror, paths } => {
                assert_eq!(mirror, "stuff");
                log.push(format!("record {}", paths.join(",")));
                Reply::Done
            }
            Request::ReleaseSession => {
                log.push("release".to_owned());
                Reply::Done
            }
            _ => panic!("an inventory only lists"),
        };
        match run.next(reply).unwrap() {
            Progress::Ask(next, further) => {
                run = next;
                request = further;
            }
            Progress::Done(tree) => return (tree, log),
        }
    }
}

#[test]
fn an_inventory_visits_every_folder_once() {
    let (tree, log) = inventory(|path| match path {
        "/my-files" => vec![
            node("1", "b", "folder"),
            node("2", "file.txt", "file"),
            node("2", "again.txt", "file"),
            node("3", "a/b", "file"),
            node("4", "album", "photo"),
            RemoteNode {
                name: ResultValue {
                    ok: false,
                    value: Some("broken".to_owned()),
                },
                ..node("5", "", "file")
            },
            RemoteNode {
                name: ResultValue {
                    ok: true,
                    value: None,
                },
                ..node("6", "", "folder")
            },
            RemoteNode {
                active_revision: None,
                ..node("7", "empty", "file")
            },
            node("8", "c", "folder"),
        ],
        "/my-files/b" => vec![node("1", "loop", "folder"), node("9", "inner", "file")],
        "/my-files/c" => Vec::new(),
        other => panic!("{other} was not to be listed"),
    });
    assert_eq!(
        log,
        vec![
            "/my-files",
            "/my-files/b",
            "/my-files/c",
            "record ,b,c",
            "release"
        ]
    );
    assert_eq!(tree.files.keys(), vec!["b/inner", "file.txt"]);
    assert_eq!(tree.directories.keys(), vec!["", "b", "c"]);
    let file = tree.files.get("file.txt").unwrap();
    assert_eq!(
        (file.uid.as_str(), file.sha1.as_str(), file.claimed_size),
        ("2", "digest", 4)
    );
}

#[test]
fn only_files_with_content_are_remote_files() {
    assert!(remote_file(None).is_none());
    assert!(remote_file(Some(node("1", "a", "folder"))).is_none());
    assert!(remote_file(Some(RemoteNode {
        active_revision: None,
        ..node("1", "a", "file")
    }))
    .is_none());
    let file = remote_file(Some(node("1", "a", "file"))).unwrap();
    assert_eq!(file.uid, "1");
    assert_eq!(file.claimed_size, 4);
}

#[test]
fn folders_are_made_from_the_top() {
    let mut progress = ensure_remote_directory("stuff", "/my-files", "a/b");
    let mut log = Vec::new();
    loop {
        match progress {
            Progress::Done(()) => break,
            Progress::Ask(run, request) => {
                let reply = match request {
                    Request::KnowsDirectory { path, .. } => {
                        log.push(format!("knows {path}"));
                        Reply::Flag(false)
                    }
                    Request::Info { path } => {
                        log.push(format!("info {path}"));
                        Reply::Node((path == "/my-files/a").then(|| node("1", "a", "folder")))
                    }
                    Request::CreateFolder { parent, name } => {
                        log.push(format!("create {name} in {parent}"));
                        Reply::Done
                    }
                    Request::SaveDirectory { path, .. } => {
                        log.push(format!("save {path}"));
                        Reply::Done
                    }
                    _ => panic!("nothing else was to be asked"),
                };
                progress = run.next(reply).unwrap();
            }
        }
    }
    assert_eq!(
        log,
        vec![
            "knows a/b",
            "knows a",
            "info /my-files/a",
            "save a",
            "info /my-files/a/b",
            "create b in /my-files/a",
            "save a/b",
        ]
    );
}

#[test]
fn a_download_is_staged_checked_and_installed() {
    let file = RemoteFile {
        uid: "1".to_owned(),
        sha1: "ABCDEF".to_owned(),
        claimed_size: 3,
    };
    let (mut run, mut request) = download_remote_file(&sync(None, &[]), "d/f", &file);
    let mut log = Vec::new();
    let local = loop {
        let reply = match request {
            Request::Stage { target } => {
                log.push(format!("stage {target}"));
                Reply::Staged {
                    directory: "/root/d/.new".to_owned(),
                }
            }
            Request::Download { path, directory } => {
                log.push(format!("download {path} to {directory}"));
                Reply::Done
            }
            Request::Stat { path } => {
                log.push(format!("stat {path}"));
                Reply::Stat(FileStat {
                    size: 3,
                    modified: Some((1, 0)),
                })
            }
            Request::Hash { path } => {
                log.push(format!("hash {path}"));
                Reply::Digest("abcdef".to_owned())
            }
            Request::Install { staged, target } => {
                log.push(format!("install {staged} as {target}"));
                Reply::Done
            }
            _ => panic!("nothing else was to be asked"),
        };
        match run.next(reply).unwrap() {
            Progress::Ask(next, further) => {
                run = next;
                request = further;
            }
            Progress::Done(local) => break local,
        }
    };
    assert_eq!(
        log,
        vec![
            "stage /root/d/f",
            "download /my-files/d/f to /root/d/.new",
            "stat /root/d/.new/f",
            "hash /root/d/.new/f",
            "install /root/d/.new/f as /root/d/f",
            "stat /root/d/f",
        ]
    );
    assert_eq!(local.relative, "d/f");
    assert_eq!(local.size, 3);
    assert_eq!(local.mtime_ns, 1_000_000_000);
}

#[test]
fn paths_are_cut_and_joined_at_slashes() {
    assert_eq!(relative_parent("a/b/c"), "a/b");
    assert_eq!(relative_parent("a"), "");
    assert_eq!(relative_name("a/b/c"), "c");
    assert_eq!(relative_name("c"), "c");
    assert_eq!(join_relative("", "c"), "c");
    assert_eq!(join_relative("a/b", "c"), "a/b/c");
    assert_eq!(file_name("/a/b/").as_deref(), Some("b"));
    assert_eq!(file_name("/a/.."), None);
    assert_eq!(file_name("/"), None);
    assert!(names_same_path("a//b/./c", "a/b/c"));
    assert!(!names_same_path("/a", "a"));
    assert!(!names_same_path("./a", "a"));
}

#[test]
fn remote_paths_escape_backslashes() {
    assert_eq!(remote_path("/my-files/", ""), "/my-files");
    assert_eq!(remote_path("/my-files//", "a/b\\c"), "/my-files/a/b\\\\c");
    assert_eq!(escape_remote_segment("a/b\\"), "a\\/b\\\\");
}

#[test]
fn stale_paths_are_those_that_were_not_seen() {
    let mut seen = PathMap::new();
    seen.insert("b".to_owned(), ());
    let paths = vec!["a".to_owned(), "b".to_owned(), "c".to_owned()];
    assert_eq!(stale_paths(paths.clone(), &seen), vec!["a", "c"]);
    let excludes = build_excludes(&sync(None, &["c"])).unwrap();
    assert_eq!(managed_paths(&excludes, &paths, &seen), vec!["a"]);
}

#[test]
fn path_maps_keep_their_keys_in_order() {
    let mut map = PathMap::new();
    assert_eq!(map.insert("b".to_owned(), 1), None);
    assert_eq!(map.insert("a".to_owned(), 2), None);
    assert_eq!(map.insert("b".to_owned(), 3), Some(1));
    assert_eq!(map.len(), 2);
    assert_eq!(map.keys(), vec!["a", "b"]);
    assert_eq!(map.get("b"), Some(&3));
    assert_eq!(map.get("c"), None);
    assert!(map.contains("a") && !map.contains("c"));
    assert_eq!(map.entry(0).1, &2);
}

#[test]
fn batches_are_cut_in_order() {
    let cut_texts = cut(
        vec!["a".to_owned(), "b".to_owned(), "c".to_owned()],
        2,
    );
    assert_eq!(cut_texts, vec![vec!["a", "b"], vec!["c"]]);
    assert!(cut(Vec::<String>::new(), 2).is_empty());
}
