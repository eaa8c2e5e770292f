//! The command line client: what it is told, and what its answers mean.

use pdrive_sync::cli::{
    create_folder_arguments, download_arguments, download_result, info_arguments, list_arguments,
    transient_read_failure, trash_arguments, trash_result, upload_arguments, upload_result, Call,
    CallKind, CallReply, CallRequest, OperationResult, TransferSummary, ATTEMPTS,
};
use pdrive_sync::drive::{TrashTarget, UploadFailure};
use pdrive_sync::exchange::Progress;
use pdrive_sync::prompt::PromptReader;
use pdrive_sync::quoting::{
    dinit_quote, quote_repl_argument, reject_repl_newlines, repl_arguments_supported,
    repl_command_line, shell_quote, systemd_quote,
};

fn texts(texts: &[&str]) -> Vec<String> {
    texts.iter().map(|text| text.to_string()).collect()
}

fn response(output: &str, error: &str) -> CallReply {
    CallReply::Response {
        output: output.as_bytes().to_vec(),
        error: error.to_owned(),
    }
}

fn targets(items: &[(&str, &str)]) -> Vec<TrashTarget> {
    items
        .iter()
        .map(|(path, uid)| TrashTarget {
            remote_path: path.to_string(),
            uid: uid.to_string(),
        })
        .collect()
}

fn results(items: &[(&str, bool)]) -> Vec<OperationResult> {
    items
        .iter()
        .map(|(uid, ok)| OperationResult {
            uid: uid.to_string(),
            ok: *ok,
        })
        .collect()
}

fn transfer(transferred: usize, skipped: usize, failed: usize, names: &[&str]) -> TransferSummary {
    TransferSummary {
        transferred_items: transferred,
        transferred_bytes: 7,
        skipped_items: skipped,
        failed_items: failed,
        failures: names
            .iter()
            .map(|name| UploadFailure {
                name: name.to_string(),
                error: "No space".to_owned(),
            })
            .collect(),
    }
}

#[test]
fn repl_arguments_are_quoted_without_shell_interpolation() {
    assert_eq!(
        quote_repl_argument("space \" quote \\ slash $HOME"),
        "\"space \\\" quote \\\\ slash $HOME\""
    );
    assert!(reject_repl_newlines(&texts(&["line\nbreak"])).is_err());
}

#[test]
fn newlines_keep_arguments_from_the_prompt() {
    assert!(repl_arguments_supported(&texts(&["a", "b c"])));
    assert!(!repl_arguments_supported(&texts(&["a", "b\rc"])));
    assert_eq!(
        repl_command_line(&texts(&["filesystem", "list", "-j", "/a b"])).unwrap(),
        "\"filesystem\" \"list\" \"-j\" \"/a b\"\n"
    );
    assert_eq!(
        repl_command_line(&texts(&["a\n"])).unwrap_err().message(),
        "Proton Drive REPL arguments cannot contain newlines"
    );
}

#[test]
fn each_reader_has_its_quotes() {
    assert_eq!(dinit_quote("a\"b\\c"), "\"a\\\"b\\\\c\"");
    assert_eq!(systemd_quote("50% $x \"\\"), "\"50%% $$x \\\"\\\\\"");
    assert_eq!(shell_quote("it's"), "'it'\"'\"'s'");
    assert_eq!(shell_quote(""), "''");
}

#[test]
fn commands_are_spelled_as_the_client_expects() {
    assert_eq!(
        list_arguments("/my-files"),
        texts(&["filesystem", "list", "-j", "/my-files"])
    );
    assert_eq!(
        info_arguments("/my-files"),
        texts(&["filesystem", "info", "-j", "/my-files"])
    );
    assert_eq!(
        create_folder_arguments("/my-files", "a"),
        texts(&["filesystem", "create-folder", "-j", "/my-files", "a"])
    );
    assert_eq!(
        download_arguments("/my-files/a", "/tmp"),
        texts(&[
            "filesystem",
            "download",
            "-j",
            "--file-conflict-strategy",
            "replace",
            "/my-files/a",
            "/tmp"
        ])
    );
    assert_eq!(
        upload_arguments(&texts(&["/tmp/a", "/tmp/b"]), "/my-files")
            .unwrap()
            .unwrap(),
        texts(&[
            "filesystem",
            "upload",
            "-j",
            "--file-conflict-strategy",
            "replace",
            "--skip-thumbnails",
            "/tmp/a",
            "/tmp/b",
            "/my-files"
        ])
    );
    assert_eq!(
        trash_arguments(&targets(&[("/my-files/a", "1"), ("/my-files/b", "2")]))
            .unwrap()
            .unwrap(),
        texts(&["filesystem", "trash", "-j", "/my-files/a", "/my-files/b"])
    );
}

#[test]
fn empty_batches_run_nothing() {
    assert!(upload_arguments(&Vec::new(), "/my-files").unwrap().is_none());
    assert!(trash_arguments(&Vec::new()).unwrap().is_none());
}

#[test]
fn batches_name_each_item_once() {
    assert_eq!(
        upload_arguments(&texts(&["/tmp/a", "/var/a"]), "/my-files")
            .unwrap_err()
            .message(),
        "upload batch contains duplicate file name \"a\""
    );
    assert_eq!(
        upload_arguments(&texts(&["/tmp/.."]), "/my-files")
            .unwrap_err()
            .message(),
        "local upload path has no UTF-8 file name"
    );
    assert_eq!(
        trash_arguments(&targets(&[("/a", "1"), ("/b", "1")]))
            .unwrap_err()
            .message(),
        "trash batch contains duplicate node UID"
    );
}

#[test]
fn cli_drive_uses_one_shot_for_newline_arguments() {
    let arguments = upload_arguments(&texts(&["/tmp/line\nbreak.txt"]), "/my-files/target")
        .unwrap()
        .unwrap();
    let (call, request) = Call::start(CallKind::Write, arguments.clone());
    let CallRequest::Run { arguments: given } = request else {
        panic!("the client was to be run");
    };
    assert_eq!(given, arguments);
    let output = "{\"transferredItems\":1,\"failedItems\":0}\n";
    let Ok(Progress::Done(result)) = call.next(response(output, "")) else {
        panic!("the client answered");
    };
    assert_eq!(result.bytes.unwrap(), output.as_bytes());
    let uploaded = upload_result(&texts(&["/tmp/line\nbreak.txt"]), transfer(1, 0, 0, &[])).unwrap();
    assert_eq!(uploaded.transferred_items, 1);
}

#[test]
fn cli_drive_maps_batch_transfer_and_trash_results() {
    let upload = upload_result(
        &texts(&["/tmp/good.txt", "/tmp/retry\nfile.txt"]),
        transfer(1, 0, 1, &["retry\nfile.txt"]),
    )
    .unwrap();
    let trash = trash_result(
        &targets(&[("/my-files/one\n", "one"), ("/my-files/two", "two")]),
        results(&[("one", true), ("two", false)]),
    )
    .unwrap();

    assert_eq!(upload.transferred_items, 1);
    assert_eq!(upload.transferred_bytes, 7);
    assert_eq!(upload.failures.len(), 1);
    assert_eq!(upload.failures[0].name, "retry\nfile.txt");
    assert_eq!(trash.succeeded_uids, vec!["one"]);
    assert_eq!(trash.failed_uids, vec!["two"]);
}

#[test]
fn an_upload_reply_accounts_for_every_file() {
    let files = texts(&["/tmp/a", "/tmp/b"]);
    let fault = |summary| upload_result(&files, summary).unwrap_err().message();
    assert_eq!(
        fault(transfer(1, 0, 0, &[])),
        "Proton Drive upload returned inconsistent counts for 2 files: transferred=1 skipped=0 \
         failed=0 failure_details=0"
    );
    assert_eq!(
        fault(transfer(1, 0, 1, &[])),
        "Proton Drive upload returned inconsistent counts for 2 files: transferred=1 skipped=0 \
         failed=1 failure_details=0"
    );
    assert_eq!(
        fault(transfer(1, 0, 1, &["c"])),
        "Proton Drive upload reported failure for unknown file \"c\""
    );
    assert_eq!(
        fault(transfer(0, 0, 2, &["a", "a"])),
        "Proton Drive upload reported duplicate failure for \"a\""
    );
    let skipped = upload_result(&files, transfer(1, 1, 0, &[])).unwrap();
    assert_eq!(skipped.skipped_items, 1);
}

#[test]
fn counts_too_large_to_add_up_are_inconsistent() {
    let files = texts(&["/tmp/a"]);
    assert!(upload_result(&files, transfer(usize::MAX, 2, 0, &[])).is_err());
}

#[test]
fn a_download_reply_reports_one_transfer() {
    assert!(download_result(&transfer(1, 0, 0, &[])).is_ok());
    assert_eq!(
        download_result(&transfer(0, 1, 0, &[])).unwrap_err().message(),
        "Proton Drive download reported transferred=0 failed=0"
    );
    assert_eq!(
        download_result(&transfer(1, 0, 2, &[])).unwrap_err().message(),
        "Proton Drive download reported transferred=1 failed=2"
    );
}

#[test]
fn a_trash_reply_accounts_for_every_target() {
    let items = targets(&[("/a", "1"), ("/b", "2")]);
    let fault = |list: &[(&str, bool)]| trash_result(&items, results(list)).unwrap_err().message();
    assert_eq!(
        fault(&[("1", true)]),
        "Proton Drive trash returned 1 results for 2 targets"
    );
    assert_eq!(
        fault(&[("1", true), ("3", true)]),
        "Proton Drive trash returned an unknown node UID"
    );
    assert_eq!(
        fault(&[("1", true), ("1", false)]),
        "Proton Drive trash returned a duplicate node UID"
    );
}

#[test]
fn reads_are_tried_again_after_a_passing_failure() {
    assert!(transient_read_failure("Error: You need to login first"));
    assert!(transient_read_failure("SQLITE_BUSY: database"));
    assert!(transient_read_failure("the database is locked"));
    assert!(!transient_read_failure("Node not found: x"));

    let (mut call, mut request) = Call::start(CallKind::Read, list_arguments("/my-files"));
    for _ in 1..ATTEMPTS {
        assert!(matches!(&request, CallRequest::Prompt { line }
            if line == "\"filesystem\" \"list\" \"-j\" \"/my-files\"\n"));
        let Ok(Progress::Ask(waiting, CallRequest::Wait)) =
            call.next(response("", "database is locked"))
        else {
            panic!("the command was to be tried again");
        };
        let Ok(Progress::Ask(next, further)) = waiting.next(CallReply::Waited) else {
            panic!("the command was to be given again");
        };
        call = next;
        request = further;
    }
    assert_eq!(
        call.next(response("", "database is locked"))
            .err()
            .unwrap()
            .message(),
        "Proton Drive CLI command failed: database is locked"
    );
}

#[test]
fn writes_are_tried_once() {
    let (call, _) = Call::start(CallKind::Write, create_folder_arguments("/my-files", "a"));
    assert_eq!(
        call.next(response("", "SQLITE_BUSY")).err().unwrap().message(),
        "Proton Drive CLI command failed: SQLITE_BUSY"
    );
}

#[test]
fn a_node_that_is_not_there_is_no_failure() {
    let (call, _) = Call::start(CallKind::Info, info_arguments("/my-files/a"));
    let Ok(Progress::Done(output)) = call.next(response("", "Node not found: /my-files/a")) else {
        panic!("the answer was to be that there is none");
    };
    assert!(output.bytes.is_none());
    let (call, _) = Call::start(CallKind::Read, list_arguments("/my-files/a"));
    assert!(call.next(response("", "Node not found: /my-files/a")).is_err());
}

#[test]
fn output_ends_at_the_prompt() {
    let mut reader = PromptReader::new();
    let mut read = |text: &str| {
        let mut outputs = Vec::new();
        for byte in text.bytes() {
            outputs.extend(reader.read_to_prompt(byte));
        }
        outputs
    };
    assert_eq!(read("proton-drive> "), vec![b"".to_vec()]);
    assert_eq!(read("[]\nproton-drive> "), vec![b"[]".to_vec()]);
    assert_eq!(
        read("a proton-drive> b\n\nproton-drive> "),
        vec![b"a proton-drive> b\n".to_vec()]
    );
    assert!(read("half of a line").is_empty());
}

#[test]
fn cli_drive_reuses_one_repl_process() {
    let mut count = 0;
    let mut session = |line: &str| {
        assert!(line.ends_with('\n'));
        count += 1;
        if count == 1 {
            "[]\nproton-drive> "
        } else {
            "[{\"uid\":\"same-session\",\"name\":{\"ok\":true,\"value\":\"folder\"},\"type\":\"folder\"}]\nproton-drive> "
        }
    };
    let mut reader = PromptReader::new();
    let mut list = |remote_path: &str| {
        let (call, request) = Call::start(CallKind::Read, list_arguments(remote_path));
        let CallRequest::Prompt { line } = request else {
            panic!("the command was to go to the prompt");
        };
        let mut outputs = Vec::new();
        for byte in session(&line).bytes() {
            outputs.extend(reader.read_to_prompt(byte));
        }
        let reply = CallReply::Response {
            output: outputs.remove(0),
            error: String::new(),
        };
        let Ok(Progress::Done(output)) = call.next(reply) else {
            panic!("the client answered");
        };
        let nodes: Vec<serde_json::Value> =
            serde_json::from_slice(&output.bytes.unwrap()).unwrap();
        nodes
    };

    assert!(list("/my-files/one").is_empty());
    let second = list("/my-files/two");

    assert_eq!(second.len(), 1);
    assert_eq!(second[0]["uid"], "same-session");
}
