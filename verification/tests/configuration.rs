//! The configuration, the places it names and the entries made from it.

use pdrive_sync::cache::{
    optimize_cli_cache, optimize_cli_cache_dir, CacheReply, CacheRequest,
};
use pdrive_sync::config::{
    default_notifications, default_optimize_cli_cache, default_proton_drive_bin, validate_config,
    Config, ConflictPolicy, DeletePolicy, SyncConfig, SyncMode,
};
use pdrive_sync::entries::{
    one_off_config, select_syncs, setup, setup_config, setup_mode, setup_step, summary_line,
    validation_line, OneOff, SetupAnswers, SetupStep,
};
use pdrive_sync::excludes::{build_excludes, excludes_of};
use pdrive_sync::exchange::Progress;
use pdrive_sync::places::{
    default_config_path, default_state_dir, join_path, proton_cli_cache_dir, resolved_state_paths,
    user_config_dir,
};
use pdrive_sync::summary::SyncSummary;

fn entry(name: &str) -> SyncConfig {
    SyncConfig {
        name: name.to_owned(),
        mode: SyncMode::Push,
        local: "/home/me/Documents".to_owned(),
        remote: "/my-files/Documents".to_owned(),
        ready_marker: None,
        delete: DeletePolicy::Keep,
        conflict: ConflictPolicy::Fail,
        exclude: Vec::new(),
    }
}

fn config(syncs: Vec<SyncConfig>) -> Config {
    Config {
        proton_drive_bin: default_proton_drive_bin(),
        optimize_cli_cache: default_optimize_cli_cache(),
        notifications: default_notifications(),
        state_db: None,
        success_file: None,
        syncs,
    }
}

fn fault(syncs: Vec<SyncConfig>) -> String {
    validate_config(&config(syncs)).unwrap_err().message()
}

fn some(text: &str) -> Option<String> {
    Some(text.to_owned())
}

#[test]
fn defaults_are_those_of_a_push_that_keeps() {
    assert_eq!(SyncMode::default(), SyncMode::Push);
    assert_eq!(DeletePolicy::default(), DeletePolicy::Keep);
    assert_eq!(ConflictPolicy::default(), ConflictPolicy::Fail);
    assert_eq!(default_proton_drive_bin(), "proton-drive");
    assert!(default_optimize_cli_cache());
    assert!(default_notifications());
    assert_eq!(SyncSummary::default().uploaded, 0);
}

#[test]
fn each_rule_of_the_configuration_has_its_fault() {
    assert!(validate_config(&config(vec![entry("documents"), entry("photos")])).is_ok());
    assert_eq!(fault(Vec::new()), "configuration has no [[sync]] entries");
    assert_eq!(fault(vec![entry(" \t\u{3000}")]), "sync name cannot be empty");
    assert_eq!(fault(vec![entry("")]), "sync name cannot be empty");
    assert_eq!(
        fault(vec![entry("a"), entry("b"), entry("a")]),
        "duplicate sync name: a"
    );
    let mut relative = entry("a");
    relative.remote = "my-files".to_owned();
    assert_eq!(
        fault(vec![relative]),
        "sync a remote path must be an absolute non-root path"
    );
    let mut root = entry("a");
    root.remote = "/".to_owned();
    assert_eq!(
        fault(vec![root]),
        "sync a remote path must be an absolute non-root path"
    );
    let mut marker = entry("a");
    marker.ready_marker = some("/.ready");
    assert_eq!(fault(vec![marker]), "sync a ready_marker must be relative");
    let mut marker = entry("a");
    marker.ready_marker = some(".ready");
    assert!(validate_config(&config(vec![marker])).is_ok());
}

#[test]
fn excludes_that_cannot_be_built_are_rejected_with_a_reason() {
    let mut bad = entry("b");
    bad.exclude = vec!["?".repeat(200_000)];
    assert_eq!(
        fault(vec![bad]),
        "failed to build excludes for sync b: error building NFA"
    );
    assert!(matches!(
        excludes_of("b", Err("no".to_owned())),
        Err(error) if error.message() == "failed to build excludes for sync b: no"
    ));
}

#[test]
fn the_first_fault_is_reported() {
    let mut bad = entry("b");
    bad.exclude = vec!["a{b".to_owned()];
    assert_eq!(
        fault(vec![entry("a"), bad, entry("")]),
        "sync b has invalid exclude pattern \"a{b\": error parsing glob 'a{b': \
         unclosed alternate group; missing '}' (maybe escape '{' with '[{]'?)"
    );
}

#[test]
fn excludes_match_as_globs_do() {
    let mut sync = entry("a");
    sync.exclude = vec!["private/**".to_owned(), "*.tmp".to_owned()];
    let excludes = build_excludes(&sync).unwrap();
    assert!(excludes.is_match("private/secret.img"));
    assert!(excludes.is_match("private/deep/er"));
    assert!(excludes.is_match("scratch.tmp"));
    assert!(excludes.is_match("deep/scratch.tmp"));
    assert!(!excludes.is_match("private"));
    assert!(!excludes.is_match("public/secret.img"));
    assert!(!build_excludes(&entry("a")).unwrap().is_match("anything"));
}

#[test]
fn named_entries_are_selected_in_the_order_of_the_configuration() {
    let all = config(vec![entry("a"), entry("b"), entry("c")]);
    let names = |names: &[&str]| names.iter().map(|name| name.to_string()).collect::<Vec<_>>();
    let kept = select_syncs(all.clone(), &names(&["c", "a", "c"])).unwrap();
    assert_eq!(
        kept.syncs.iter().map(|sync| sync.name.as_str()).collect::<Vec<_>>(),
        vec!["a", "c"]
    );
    assert_eq!(select_syncs(all.clone(), &Vec::new()).unwrap().syncs.len(), 3);
    let error = select_syncs(all, &names(&["z", "a", "d", "z"])).unwrap_err();
    assert_eq!(error.message(), "unknown configured syncs: d, z");
}

#[test]
fn a_one_off_sync_is_named_after_its_places_and_its_mode() {
    let request = |mode| OneOff {
        local: "/home/me/Documents".to_owned(),
        remote: "/my-files/Documents".to_owned(),
        mode,
        delete: DeletePolicy::Trash,
        conflict: ConflictPolicy::LocalWins,
        proton_drive: "/opt/proton-drive".to_owned(),
    };
    let push = one_off_config(request(SyncMode::Push));
    assert_eq!(push.proton_drive_bin, "/opt/proton-drive");
    assert!(push.optimize_cli_cache);
    assert!(push.notifications);
    assert!(push.state_db.is_none() && push.success_file.is_none());
    assert_eq!(push.syncs.len(), 1);
    let sync = &push.syncs[0];
    assert_eq!(sync.name, "one-off-4b65b4ea79181a6e960b22b9cfbff6a6647db8d4");
    assert_eq!(sync.local, "/home/me/Documents");
    assert_eq!(sync.remote, "/my-files/Documents");
    assert_eq!(sync.mode, SyncMode::Push);
    assert_eq!(sync.delete, DeletePolicy::Trash);
    assert_eq!(sync.conflict, ConflictPolicy::LocalWins);
    assert!(sync.ready_marker.is_none() && sync.exclude.is_empty());
    let pull = one_off_config(request(SyncMode::Pull));
    assert_eq!(pull.syncs[0].name, "one-off-bd35aad8f6d8796aa891df27dc71f402a68c616b");
    let both = one_off_config(request(SyncMode::TwoWay));
    assert_eq!(both.syncs[0].name, "one-off-240cd232c1a2036222991ee808c57dad3fd77593");
}

#[test]
fn answers_become_a_configuration() {
    let answers = |direction, resolution, exact, marker: &str| SetupAnswers {
        proton_drive_bin: "proton-drive".to_owned(),
        name: "default".to_owned(),
        direction,
        local: "/home/me/Sync".to_owned(),
        remote: "/my-files/Sync".to_owned(),
        exact,
        resolution,
        marker: marker.to_owned(),
    };
    let push = setup_config(answers(0, 2, true, ""));
    assert!(validate_config(&push).is_ok());
    assert_eq!(push.syncs[0].mode, SyncMode::Push);
    assert_eq!(push.syncs[0].conflict, ConflictPolicy::Fail);
    assert_eq!(push.syncs[0].delete, DeletePolicy::Trash);
    assert!(push.syncs[0].ready_marker.is_none());
    let pull = setup_config(answers(1, 1, false, ".ready"));
    assert_eq!(pull.syncs[0].mode, SyncMode::Pull);
    assert_eq!(pull.syncs[0].conflict, ConflictPolicy::Fail);
    assert_eq!(pull.syncs[0].delete, DeletePolicy::Keep);
    assert_eq!(pull.syncs[0].ready_marker.as_deref(), Some(".ready"));
    for (resolution, policy) in [
        (0, ConflictPolicy::Fail),
        (1, ConflictPolicy::LocalWins),
        (2, ConflictPolicy::RemoteWins),
    ] {
        let both = setup_config(answers(2, resolution, false, ""));
        assert_eq!(both.syncs[0].mode, SyncMode::TwoWay);
        assert_eq!(both.syncs[0].conflict, policy);
    }
    assert_eq!(setup_mode(1), SyncMode::Pull);
    assert_eq!(
        setup(answers(1, 0, false, "")).unwrap().syncs[0].mode,
        SyncMode::Pull
    );
    assert_eq!(
        setup(answers(0, 0, false, "/.ready")).unwrap_err().message(),
        format!("sync {} ready_marker must be relative", push.syncs[0].name)
    );
    assert_eq!(setup_step(false, None), SetupStep::Ask);
    assert_eq!(setup_step(true, None), SetupStep::Confirm);
    assert_eq!(setup_step(true, Some(true)), SetupStep::Ask);
    assert_eq!(setup_step(true, Some(false)), SetupStep::Leave);
}

#[test]
fn results_are_shown_on_one_line() {
    let summary = SyncSummary {
        scanned: 12,
        unchanged: 3,
        matched_remote: 4,
        uploaded: 5,
        downloaded: 0,
        trashed: 6,
        trashed_local: 7,
        skipped_symlinks: 10,
    };
    assert_eq!(
        summary_line("documents", &summary),
        "[pdrive-sync] documents: scanned=12 unchanged=3 matched_remote=4 uploaded=5 downloaded=0 \
         trashed_remote=6 trashed_local=7 skipped_symlinks=10"
    );
    assert_eq!(
        validation_line("/etc/c.toml", &config(vec![entry("a")])),
        "/etc/c.toml: valid (1 sync)"
    );
    assert_eq!(
        validation_line("/etc/c.toml", &config(vec![entry("a"), entry("b")])),
        "/etc/c.toml: valid (2 syncs)"
    );
}

#[test]
fn places_come_from_the_environment() {
    assert_eq!(default_state_dir(some("/x"), None).unwrap(), "/x/pdrive-sync");
    assert_eq!(
        default_state_dir(None, some("/home/me")).unwrap(),
        "/home/me/.local/state/pdrive-sync"
    );
    assert_eq!(
        default_state_dir(None, None).unwrap_err().message(),
        "HOME is not set"
    );
    assert_eq!(default_config_path(some("/c.toml"), None).unwrap(), "/c.toml");
    assert_eq!(
        default_config_path(None, some("/home/me/")).unwrap(),
        "/home/me/.config/pdrive-sync/config.toml"
    );
    assert!(default_config_path(None, None).is_err());
    assert_eq!(user_config_dir(some("/cfg"), some("/h")).unwrap(), "/cfg");
    assert_eq!(user_config_dir(None, some("/h")).unwrap(), "/h/.config");
    assert_eq!(proton_cli_cache_dir(some("/p"), some("/x"), None).unwrap(), "/p");
    assert_eq!(
        proton_cli_cache_dir(None, some("/x"), None).unwrap(),
        "/x/proton-drive-cli"
    );
    assert_eq!(
        proton_cli_cache_dir(None, None, some("/h")).unwrap(),
        "/h/.cache/proton-drive-cli"
    );
    assert!(proton_cli_cache_dir(None, None, None).is_err());
    assert_eq!(join_path("/a", "b"), "/a/b");
    assert_eq!(join_path("/a", "/b"), "/b");
}

#[test]
fn configured_places_come_before_the_usual_ones() {
    let mut config = config(vec![entry("a")]);
    assert_eq!(
        resolved_state_paths(&config, "/state"),
        (
            "/state/state.sqlite3".to_owned(),
            "/state/last-success".to_owned()
        )
    );
    config.state_db = some("/db");
    config.success_file = some("/ok");
    assert_eq!(
        resolved_state_paths(&config, "/state"),
        ("/db".to_owned(), "/ok".to_owned())
    );
}

#[test]
fn caches_that_are_there_are_switched_to_wal() {
    let (run, request) = optimize_cli_cache_dir("/cache");
    assert!(matches!(request, CacheRequest::IsFile { path } if path == "/cache/cache-entities.sqlite"));
    let Ok(Progress::Ask(run, request)) = run.next(CacheReply::Found(true)) else {
        panic!("the first cache was to be switched");
    };
    assert!(matches!(request, CacheRequest::EnableWal { path } if path == "/cache/cache-entities.sqlite"));
    let Ok(Progress::Ask(run, request)) = run.next(CacheReply::Mode("WAL".to_owned())) else {
        panic!("the second cache was to be looked for");
    };
    assert!(matches!(request, CacheRequest::IsFile { path } if path == "/cache/cache-crypto.sqlite"));
    let Ok(Progress::Ask(run, _)) = run.next(CacheReply::Found(true)) else {
        panic!("the second cache was to be switched");
    };
    let Ok(Progress::Done(switched)) = run.next(CacheReply::Mode("wal".to_owned())) else {
        panic!("both caches were switched");
    };
    assert_eq!(switched.count, 2);
}

#[test]
fn missing_caches_are_passed_over_and_refused_modes_are_reported() {
    let (run, _) = optimize_cli_cache_dir("/cache");
    let Ok(Progress::Ask(run, _)) = run.next(CacheReply::Found(false)) else {
        panic!("the second cache was to be looked for");
    };
    let Ok(Progress::Done(switched)) = run.next(CacheReply::Found(false)) else {
        panic!("there was nothing to switch");
    };
    assert_eq!(switched.count, 0);

    let (run, _) = optimize_cli_cache_dir("/cache");
    let Ok(Progress::Ask(run, _)) = run.next(CacheReply::Found(true)) else {
        panic!("the first cache was to be switched");
    };
    let error = run.next(CacheReply::Mode("delete".to_owned())).err().unwrap();
    assert_eq!(
        error.message(),
        "Proton Drive cache /cache/cache-entities.sqlite rejected WAL mode: delete"
    );
}

#[test]
fn caches_are_left_alone_when_the_configuration_says_so() {
    let mut config = config(vec![entry("a")]);
    assert_eq!(
        optimize_cli_cache(&config, None, some("/x"), None).unwrap(),
        some("/x/proton-drive-cli")
    );
    assert!(optimize_cli_cache(&config, None, None, None).is_err());
    config.optimize_cli_cache = false;
    assert_eq!(optimize_cli_cache(&config, None, None, None).unwrap(), None);
}

#[test]
fn proton_cli_caches_are_switched_to_wal() {
    let temp = tempfile::TempDir::new().unwrap();
    for name in ["cache-entities.sqlite", "cache-crypto.sqlite"] {
        let connection = rusqlite::Connection::open(temp.path().join(name)).unwrap();
        connection
            .execute("CREATE TABLE entities (key TEXT PRIMARY KEY)", [])
            .unwrap();
    }

    let (mut run, mut request) = optimize_cli_cache_dir(temp.path().to_str().unwrap());
    let switched = loop {
        let reply = match request {
            CacheRequest::IsFile { path } => {
                CacheReply::Found(std::path::Path::new(&path).is_file())
            }
            CacheRequest::EnableWal { path } => {
                let connection = rusqlite::Connection::open(&path).unwrap();
                let mode: String = connection
                    .query_row("PRAGMA journal_mode=WAL", [], |row| row.get(0))
                    .unwrap();
                CacheReply::Mode(mode)
            }
        };
        match run.next(reply).unwrap() {
            Progress::Ask(next, further) => {
                run = next;
                request = further;
            }
            Progress::Done(switched) => break switched,
        }
    };
    assert_eq!(switched.count, 2);

    for name in ["cache-entities.sqlite", "cache-crypto.sqlite"] {
        let connection = rusqlite::Connection::open(temp.path().join(name)).unwrap();
        let mode: String = connection
            .query_row("PRAGMA journal_mode", [], |row| row.get(0))
            .unwrap();
        assert_eq!(mode, "wal");
    }
}
