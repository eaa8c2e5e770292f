//! Driving the command line client: its arguments, its replies, and when to try again.

use crate::drive::{TrashBatchResult, TrashBatchView, TrashTarget, TrashTargetView};
use crate::drive::{UploadBatchResult, UploadBatchView, UploadFailure, UploadFailureView};
use crate::error::{outcome, Fault, SyncError};
use crate::exchange::Progress;
use crate::paths::{file_name, file_name_of};
use crate::quoting::{all_quoted, on_one_line, repl_command_line};
use crate::text::{clone_texts, contains_text, has_part, holds, joined, starts_with_text, text_eq};
use crate::text::{views, views_push};
use vstd::prelude::*;

verus! {

/// A failure to read that may pass: the client was busy with its own database or session.
pub open spec fn is_transient(message: Seq<char>) -> bool {
    has_part(message, "You need to login first"@) || has_part(message, "SQLITE_BUSY"@) || has_part(
        message,
        "database is locked"@,
    )
}

/// Whether a failure to read may pass.
pub fn transient_read_failure(message: &str) -> (r: bool)
    ensures
        r == is_transient(message@),
{
    contains_text(message, "You need to login first") || contains_text(message, "SQLITE_BUSY")
        || contains_text(message, "database is locked")
}

/// How a command is treated when it fails.
#[derive(Clone, Copy, Debug, PartialEq, Eq, Structural)]
pub enum CallKind {
    /// It only reads, and can be tried again.
    Read,
    /// It reads a node that may not be there.
    Info,
    /// It changes something, and is tried once.
    Write,
}

/// How often a command that only reads is tried.
pub const ATTEMPTS: u64 = 3;

/// Something that a command needs done.
#[derive(Debug)]
pub enum CallRequest {
    /// Give a line to the client's prompt. Answered by `CallReply::Response`.
    Prompt { line: String },
    /// Run the client with arguments of its own. Answered by `CallReply::Response`.
    Run { arguments: Vec<String> },
    /// Wait two seconds. Answered by `CallReply::Waited`.
    Wait,
}

/// The view of a request.
#[verifier::ext_equal]
pub enum CallRequestView {
    Prompt { line: Seq<char> },
    Run { arguments: Seq<Seq<char>> },
    Wait,
}

impl View for CallRequest {
    type V = CallRequestView;

    open spec fn view(&self) -> CallRequestView {
        match *self {
            CallRequest::Prompt { line } => CallRequestView::Prompt { line: line@ },
            CallRequest::Run { arguments } => CallRequestView::Run { arguments: views(arguments@) },
            CallRequest::Wait => CallRequestView::Wait,
        }
    }
}

/// The answer to a request of a command.
#[derive(Debug)]
pub enum CallReply {
    /// What the client wrote to its output, and to its error output.
    Response { output: Vec<u8>, error: String },
    Waited,
}

/// The view of an answer.
#[verifier::ext_equal]
pub enum CallReplyView {
    Response { output: Seq<u8>, error: Seq<char> },
    Waited,
}

impl View for CallReply {
    type V = CallReplyView;

    open spec fn view(&self) -> CallReplyView {
        match *self {
            CallReply::Response { output, error } => CallReplyView::Response {
                output: output@,
                error: error@,
            },
            CallReply::Waited => CallReplyView::Waited,
        }
    }
}

/// What a command wrote; nothing if it was to read a node that is not there.
#[derive(Debug)]
pub struct CallOutput {
    pub bytes: Option<Vec<u8>>,
}

impl View for CallOutput {
    type V = Option<Seq<u8>>;

    open spec fn view(&self) -> Option<Seq<u8>> {
        match self.bytes {
            Some(bytes) => Some(bytes@),
            None => None,
        }
    }
}

/// A command in progress.
#[derive(Debug)]
pub struct Call {
    kind: CallKind,
    arguments: Vec<String>,
    attempt: u64,
    waiting: bool,
}

/// The view of a command in progress.
#[verifier::ext_equal]
pub struct CallView {
    pub kind: CallKind,
    pub arguments: Seq<Seq<char>>,
    /// Which attempt it is, from one.
    pub attempt: u64,
    /// Whether it waits to be tried again; else it runs.
    pub waiting: bool,
}

impl View for Call {
    type V = CallView;

    closed spec fn view(&self) -> CallView {
        CallView {
            kind: self.kind,
            arguments: views(self.arguments@),
            attempt: self.attempt,
            waiting: self.waiting,
        }
    }
}

/// What a step of a command leads to.
pub type CallOutcome = Result<
    Progress<CallView, CallRequestView, Option<Seq<u8>>>,
    Fault<Seq<char>>,
>;

/// How arguments are given to the client: at its prompt if they fit on a line, else by a run of
/// its own.
pub open spec fn invocation(arguments: Seq<Seq<char>>) -> CallRequestView {
    if on_one_line(arguments) {
        CallRequestView::Prompt { line: joined(all_quoted(arguments), " "@) + "\n"@ }
    } else {
        CallRequestView::Run { arguments }
    }
}

impl CallView {
    /// One step.
    pub open spec fn stepped(self, reply: CallReplyView) -> CallOutcome {
        match (self.waiting, reply) {
            (false, CallReplyView::Response { output, error }) => if output.len() > 0 {
                Ok(Progress::Done(Some(output)))
            } else if self.kind == CallKind::Info && "Node not found:"@.is_prefix_of(error) {
                Ok(Progress::Done(None))
            } else if self.kind != CallKind::Write && self.attempt < ATTEMPTS && is_transient(
                error,
            ) {
                Ok(Progress::Ask(CallView { waiting: true, ..self }, CallRequestView::Wait))
            } else {
                Err(Fault::CommandFailed { error })
            },
            (true, CallReplyView::Waited) => if self.attempt < ATTEMPTS {
                Ok(
                    Progress::Ask(
                        CallView {
                            waiting: false,
                            attempt: (self.attempt + 1) as u64,
                            ..self
                        },
                        invocation(self.arguments),
                    ),
                )
            } else {
                Err(Fault::UnexpectedReply)
            },
            _ => Err(Fault::UnexpectedReply),
        }
    }
}

/// Gives arguments to the client.
pub fn invoke(arguments: &Vec<String>) -> (r: CallRequest)
    ensures
        r@ == invocation(views(arguments@)),
{
    match repl_command_line(arguments) {
        Ok(line) => CallRequest::Prompt { line },
        Err(_) => CallRequest::Run { arguments: clone_texts(arguments) },
    }
}

impl Call {
    /// Starts a command.
    pub fn start(kind: CallKind, arguments: Vec<String>) -> (r: (Call, CallRequest))
        ensures
            r.0@ == (CallView {
                kind,
                arguments: views(arguments@),
                attempt: 1,
                waiting: false,
            }),
            r.1@ == invocation(views(arguments@)),
    {
        let request = invoke(&arguments);
        (Call { kind, arguments, attempt: 1, waiting: false }, request)
    }

    /// Takes the reply to the last request, and goes on.
    pub fn next(self, reply: CallReply) -> (r: Result<
        Progress<Call, CallRequest, CallOutput>,
        SyncError,
    >)
        ensures
            outcome(r) == self@.stepped(reply@),
    {
        let mut call = self;
        match (call.waiting, reply) {
            (false, CallReply::Response { output, error }) => {
                if output.len() > 0 {
                    Ok(Progress::Done(CallOutput { bytes: Some(output) }))
                } else if matches!(call.kind, CallKind::Info) && starts_with_text(
                    error.as_str(),
                    "Node not found:",
                ) {
                    Ok(Progress::Done(CallOutput { bytes: None }))
                } else if !matches!(call.kind, CallKind::Write) && call.attempt < ATTEMPTS
                    && transient_read_failure(error.as_str()) {
                    call.waiting = true;
                    Ok(Progress::Ask(call, CallRequest::Wait))
                } else {
                    Err(Fault::CommandFailed { error })
                }
            },
            (true, CallReply::Waited) => {
                if call.attempt < ATTEMPTS {
                    call.attempt += 1;
                    call.waiting = false;
                    let request = invoke(&call.arguments);
                    Ok(Progress::Ask(call, request))
                } else {
                    Err(Fault::UnexpectedReply)
                }
            },
            _ => Err(Fault::UnexpectedReply),
        }
    }
}

/// A command that changes something is given to the client once, whatever the client answers; any
/// other is given to it again only after a wait, and no more often than the bound.
pub proof fn attempts_are_bounded(call: CallView, reply: CallReplyView)
    ensures
        call.stepped(reply) matches Ok(Progress::Ask(next, request)) ==> {
            &&& call.waiting || call.kind != CallKind::Write
            &&& request is Wait <==> next.waiting
            &&& request is Wait ==> next.attempt == call.attempt
            &&& request !is Wait ==> call.waiting && next.attempt == call.attempt + 1
                && next.attempt <= ATTEMPTS
        },
{
}

fn words(texts: &[&str]) -> (r: Vec<String>)
    ensures
        r@.len() == texts@.len(),
        forall|i: int| 0 <= i < r@.len() ==> #[trigger] views(r@)[i] == texts@[i]@,
{
    let mut out: Vec<String> = Vec::new();
    let mut i: usize = 0;
    while i < texts.len()
        invariant
            i <= texts.len(),
            out@.len() == i,
            forall|k: int| 0 <= k < i ==> #[trigger] views(out@)[k] == texts@[k]@,
        decreases texts.len() - i,
    {
        let word = texts[i].to_owned();
        proof {
            views_push(out@, word);
        }
        out.push(word);
        i += 1;
    }
    out
}

/// The arguments that list a folder.
pub fn list_arguments(remote_path: &str) -> (r: Vec<String>)
    ensures
        views(r@) == seq!["filesystem"@, "list"@, "-j"@, remote_path@],
{
    words(&["filesystem", "list", "-j", remote_path])
}

/// The arguments that read a node.
pub fn info_arguments(remote_path: &str) -> (r: Vec<String>)
    ensures
        views(r@) == seq!["filesystem"@, "info"@, "-j"@, remote_path@],
{
    words(&["filesystem", "info", "-j", remote_path])
}

/// The arguments that make a folder.
pub fn create_folder_arguments(parent_path: &str, name: &str) -> (r: Vec<String>)
    ensures
        views(r@) == seq!["filesystem"@, "create-folder"@, "-j"@, parent_path@, name@],
{
    words(&["filesystem", "create-folder", "-j", parent_path, name])
}

/// The arguments that download a file.
pub fn download_arguments(remote_path: &str, local_parent: &str) -> (r: Vec<String>)
    ensures
        views(r@) == seq![
            "filesystem"@,
            "download"@,
            "-j"@,
            "--file-conflict-strategy"@,
            "replace"@,
            remote_path@,
            local_parent@,
        ],
{
    words(
        &[
            "filesystem",
            "download",
            "-j",
            "--file-conflict-strategy",
            "replace",
            remote_path,
            local_parent,
        ],
    )
}

/// What the client reports of a transfer.
#[derive(Debug)]
pub struct TransferSummary {
    pub transferred_items: usize,
    pub transferred_bytes: u64,
    pub skipped_items: usize,
    pub failed_items: usize,
    pub failures: Vec<UploadFailure>,
}

/// The view of a transfer report.
#[verifier::ext_equal]
pub struct TransferView {
    pub transferred_items: usize,
    pub transferred_bytes: u64,
    pub skipped_items: usize,
    pub failed_items: usize,
    pub failures: Seq<UploadFailureView>,
}

impl View for TransferSummary {
    type V = TransferView;

    open spec fn view(&self) -> TransferView {
        TransferView {
            transferred_items: self.transferred_items,
            transferred_bytes: self.transferred_bytes,
            skipped_items: self.skipped_items,
            failed_items: self.failed_items,
            failures: views(self.failures@),
        }
    }
}

/// The names of files to upload: each has one, and none occurs twice.
pub open spec fn upload_names(files: Seq<Seq<char>>) -> Result<Seq<Seq<char>>, Fault<Seq<char>>>
    decreases files.len(),
{
    if files.len() == 0 {
        Ok(Seq::empty())
    } else {
        match upload_names(files.drop_last()) {
            Err(fault) => Err(fault),
            Ok(names) => match file_name_of(files.last()) {
                None => Err(Fault::UploadNoName),
                Some(name) => if names.contains(name) {
                    Err(Fault::UploadDuplicate { name })
                } else {
                    Ok(names.push(name))
                },
            },
        }
    }
}

proof fn upload_names_stop(files: Seq<Seq<char>>, count: int)
    requires
        0 <= count <= files.len(),
        upload_names(files.take(count)) is Err,
    ensures
        upload_names(files) == upload_names(files.take(count)),
    decreases files.len(),
{
    if count == files.len() {
        assert(files.take(count) =~= files);
    } else {
        assert(files.drop_last().take(count) =~= files.take(count));
        upload_names_stop(files.drop_last(), count);
    }
}

fn names_of(files: &Vec<String>) -> (r: Result<Vec<String>, SyncError>)
    ensures
        match r {
            Ok(names) => upload_names(views(files@)) == Ok::<
                Seq<Seq<char>>,
                Fault<Seq<char>>,
            >(views(names@)),
            Err(error) => upload_names(views(files@)) == Err::<
                Seq<Seq<char>>,
                Fault<Seq<char>>,
            >(error@),
        },
{
    let ghost all = views(files@);
    let mut names: Vec<String> = Vec::new();
    let mut i: usize = 0;
    assert(views(names@) =~= Seq::<Seq<char>>::empty());
    while i < files.len()
        invariant
            i <= files.len(),
            all == views(files@),
            upload_names(all.take(i as int)) == Ok::<Seq<Seq<char>>, Fault<Seq<char>>>(
                views(names@),
            ),
        decreases files.len() - i,
    {
        let ghost next = all.take(i + 1);
        assert(next.drop_last() =~= all.take(i as int));
        assert(next.last() == files@[i as int]@);
        match file_name(files[i].as_str()) {
            None => {
                proof {
                    upload_names_stop(all, i + 1);
                }
                return Err(Fault::UploadNoName);
            },
            Some(name) => {
                if holds(&names, name.as_str()) {
                    proof {
                        upload_names_stop(all, i + 1);
                    }
                    return Err(Fault::UploadDuplicate { name });
                }
                proof {
                    views_push(names@, name);
                }
                names.push(name);
            },
        }
        i += 1;
    }
    assert(all.take(i as int) =~= all);
    Ok(names)
}

/// The arguments that upload files into a folder.
pub open spec fn upload_words(files: Seq<Seq<char>>, parent: Seq<char>) -> Seq<Seq<char>> {
    seq![
        "filesystem"@,
        "upload"@,
        "-j"@,
        "--file-conflict-strategy"@,
        "replace"@,
        "--skip-thumbnails"@,
    ] + files + seq![parent]
}

/// The arguments that upload files into a folder; none if there are no files.
pub fn upload_arguments(files: &Vec<String>, remote_parent: &str) -> (r: Result<
    Option<Vec<String>>,
    SyncError,
>)
    ensures
        match r {
            Ok(None) => files@.len() == 0,
            Ok(Some(arguments)) => {
                &&& files@.len() > 0
                &&& upload_names(views(files@)) is Ok
                &&& views(arguments@) == upload_words(views(files@), remote_parent@)
            },
            Err(error) => upload_names(views(files@)) == Err::<Seq<Seq<char>>, Fault<Seq<char>>>(
                error@,
            ),
        },
{
    if files.len() == 0 {
        return Ok(None);
    }
    if let Err(error) = names_of(files) {
        return Err(error);
    }
    let mut arguments = words(
        &[
            "filesystem",
            "upload",
            "-j",
            "--file-conflict-strategy",
            "replace",
            "--skip-thumbnails",
        ],
    );
    let mut copies = clone_texts(files);
    let ghost head = arguments@;
    assert(views(head + copies@) =~= views(head) + views(copies@));
    arguments.append(&mut copies);
    let parent = remote_parent.to_owned();
    proof {
        views_push(arguments@, parent);
    }
    arguments.push(parent);
    assert(views(arguments@) =~= upload_words(views(files@), remote_parent@));
    Ok(Some(arguments))
}

/// What is wrong with the first `count` failures of a report: one names a file that was not sent,
/// or a file twice.
pub open spec fn failures_fault(
    names: Seq<Seq<char>>,
    failures: Seq<UploadFailureView>,
    count: nat,
) -> Option<Fault<Seq<char>>>
    decreases count,
{
    if count == 0 {
        None
    } else {
        match failures_fault(names, failures, (count - 1) as nat) {
            Some(fault) => Some(fault),
            None => {
                let name = failures[count - 1].name;
                if !names.contains(name) {
                    Some(Fault::UploadUnknown { name })
                } else if exists|k: int|
                    0 <= k < count - 1 && (#[trigger] failures[k]).name == name {
                    Some(Fault::UploadRepeated { name })
                } else {
                    None
                }
            },
        }
    }
}

/// The result of an upload, from what the client reports of it.
pub open spec fn upload_checked(files: Seq<Seq<char>>, summary: TransferView) -> Result<
    UploadBatchView,
    Fault<Seq<char>>,
> {
    match upload_names(files) {
        Err(fault) => Err(fault),
        Ok(names) => if summary.failed_items != summary.failures.len() || summary.transferred_items
            + summary.skipped_items + summary.failed_items != files.len() {
            Err(
                Fault::UploadCounts {
                    files: files.len() as usize,
                    transferred: summary.transferred_items,
                    skipped: summary.skipped_items,
                    failed: summary.failed_items,
                    details: summary.failures.len() as usize,
                },
            )
        } else {
            match failures_fault(names, summary.failures, summary.failures.len()) {
                Some(fault) => Err(fault),
                None => Ok(
                    UploadBatchView {
                        transferred_items: summary.transferred_items,
                        skipped_items: summary.skipped_items,
                        transferred_bytes: summary.transferred_bytes,
                        failures: summary.failures,
                    },
                ),
            }
        },
    }
}

proof fn failures_fault_stays(
    names: Seq<Seq<char>>,
    failures: Seq<UploadFailureView>,
    from: nat,
    to: nat,
)
    requires
        from <= to,
        failures_fault(names, failures, from) is Some,
    ensures
        failures_fault(names, failures, to) == failures_fault(names, failures, from),
    decreases to,
{
    if from < to {
        failures_fault_stays(names, failures, from, (to - 1) as nat);
    }
}

fn check_failures(names: &Vec<String>, failures: &Vec<UploadFailure>) -> (r: Result<(), SyncError>)
    ensures
        match r {
            Ok(_) => failures_fault(views(names@), views(failures@), failures@.len()) is None,
            Err(error) => failures_fault(views(names@), views(failures@), failures@.len()) == Some(
                error@,
            ),
        },
{
    let ghost known = views(names@);
    let ghost all = views(failures@);
    let mut seen: Vec<String> = Vec::new();
    let mut i: usize = 0;
    while i < failures.len()
        invariant
            i <= failures.len(),
            known == views(names@),
            all == views(failures@),
            seen.len() == i,
            forall|k: int| 0 <= k < i ==> #[trigger] views(seen@)[k] == all[k].name,
            failures_fault(known, all, i as nat) is None,
        decreases failures.len() - i,
    {
        assert(all[i as int].name == failures@[i as int].name@);
        let name = failures[i].name.clone();
        if !holds(names, name.as_str()) {
            proof {
                failures_fault_stays(known, all, (i + 1) as nat, failures@.len());
            }
            return Err(Fault::UploadUnknown { name });
        }
        let repeated = holds(&seen, name.as_str());
        proof {
            if repeated {
                let k = choose|k: int| 0 <= k < seen@.len() && views(seen@)[k] == name@;
                assert(all[k].name == name@);
            } else if exists|k: int| 0 <= k < i && (#[trigger] all[k]).name == name@ {
                let k = choose|k: int| 0 <= k < i && (#[trigger] all[k]).name == name@;
                assert(views(seen@)[k] == name@);
            }
        }
        if repeated {
            proof {
                failures_fault_stays(known, all, (i + 1) as nat, failures@.len());
            }
            return Err(Fault::UploadRepeated { name });
        }
        proof {
            views_push(seen@, name);
        }
        seen.push(name);
        i += 1;
    }
    Ok(())
}

/// The result of an upload of `files`, from what the client reports of it: the counts must add up,
/// and the failures must be of files that were sent, each once.
pub fn upload_result(files: &Vec<String>, summary: TransferSummary) -> (r: Result<
    UploadBatchResult,
    SyncError,
>)
    ensures
        outcome(r) == upload_checked(views(files@), summary@),
{
    let names = match names_of(files) {
        Ok(names) => names,
        Err(error) => {
            return Err(error);
        },
    };
    let total: u128 = summary.transferred_items as u128 + summary.skipped_items as u128
        + summary.failed_items as u128;
    if summary.failed_items != summary.failures.len() || total != files.len() as u128 {
        return Err(
            Fault::UploadCounts {
                files: files.len(),
                transferred: summary.transferred_items,
                skipped: summary.skipped_items,
                failed: summary.failed_items,
                details: summary.failures.len(),
            },
        );
    }
    if let Err(error) = check_failures(&names, &summary.failures) {
        return Err(error);
    }
    Ok(
        UploadBatchResult {
            transferred_items: summary.transferred_items,
            skipped_items: summary.skipped_items,
            transferred_bytes: summary.transferred_bytes,
            failures: summary.failures,
        },
    )
}

/// Checks what the client reports of a download: one file, and no failure.
pub fn download_result(summary: &TransferSummary) -> (r: Result<(), SyncError>)
    ensures
        r is Ok <==> summary.failed_items == 0 && summary.transferred_items == 1,
        r matches Err(error) ==> error@ == (Fault::<Seq<char>>::DownloadCounts {
            transferred: summary.transferred_items,
            failed: summary.failed_items,
        }),
{
    if summary.failed_items != 0 || summary.transferred_items != 1 {
        return Err(
            Fault::DownloadCounts {
                transferred: summary.transferred_items,
                failed: summary.failed_items,
            },
        );
    }
    Ok(())
}

/// What the client reports of one node.
#[derive(Debug)]
pub struct OperationResult {
    pub uid: String,
    pub ok: bool,
}

/// The view of what the client reports of one node.
pub struct OperationView {
    pub uid: Seq<char>,
    pub ok: bool,
}

impl View for OperationResult {
    type V = OperationView;

    open spec fn view(&self) -> OperationView {
        OperationView { uid: self.uid@, ok: self.ok }
    }
}

/// The nodes of targets, in order.
pub open spec fn target_uids(targets: Seq<TrashTargetView>) -> Seq<Seq<char>> {
    targets.map_values(|target: TrashTargetView| target.uid)
}

/// The paths of targets, in order.
pub open spec fn target_paths(targets: Seq<TrashTargetView>) -> Seq<Seq<char>> {
    targets.map_values(|target: TrashTargetView| target.remote_path)
}

/// The arguments that move targets to the trash; none if there are no targets. A node that occurs
/// twice is refused.
pub fn trash_arguments(targets: &Vec<TrashTarget>) -> (r: Result<Option<Vec<String>>, SyncError>)
    ensures
        match r {
            Ok(None) => targets@.len() == 0,
            Ok(Some(arguments)) => {
                &&& targets@.len() > 0
                &&& target_uids(views(targets@)).no_duplicates()
                &&& views(arguments@) == seq!["filesystem"@, "trash"@, "-j"@] + target_paths(
                    views(targets@),
                )
            },
            Err(error) => !target_uids(views(targets@)).no_duplicates() && error@ == Fault::<
                Seq<char>,
            >::TrashDuplicate,
        },
{
    if targets.len() == 0 {
        return Ok(None);
    }
    let ghost uids = target_uids(views(targets@));
    let ghost paths = target_paths(views(targets@));
    let mut arguments = words(&["filesystem", "trash", "-j"]);
    let ghost head = views(arguments@);
    assert(head =~= seq!["filesystem"@, "trash"@, "-j"@]);
    let mut seen: Vec<String> = Vec::new();
    let mut i: usize = 0;
    assert(views(arguments@) =~= head + paths.take(0));
    assert(views(seen@) =~= uids.take(0));
    while i < targets.len()
        invariant
            i <= targets.len(),
            uids == target_uids(views(targets@)),
            paths == target_paths(views(targets@)),
            views(arguments@) == head + paths.take(i as int),
            views(seen@) == uids.take(i as int),
            uids.take(i as int).no_duplicates(),
        decreases targets.len() - i,
    {
        let ghost done = uids.take(i as int);
        assert(uids[i as int] == targets@[i as int].uid@);
        if holds(&seen, targets[i].uid.as_str()) {
            proof {
                let k = choose|k: int| 0 <= k < done.len() && done[k] == uids[i as int];
                assert(uids[k] == uids[i as int]);
            }
            return Err(Fault::TrashDuplicate);
        }
        let path = targets[i].remote_path.clone();
        let uid = targets[i].uid.clone();
        proof {
            views_push(arguments@, path);
            views_push(seen@, uid);
            assert(paths.take(i + 1) =~= paths.take(i as int).push(path@));
            assert(uids.take(i + 1) =~= done.push(uid@));
            assert(head + paths.take(i + 1) =~= (head + paths.take(i as int)).push(path@));
        }
        arguments.push(path);
        seen.push(uid);
        i += 1;
    }
    assert(paths.take(i as int) =~= paths);
    assert(uids.take(i as int) =~= uids);
    Ok(Some(arguments))
}

/// What the first `count` reports on nodes come to: which were moved and which were not, or the
/// first report on a node that was not sent, or on a node that was reported before.
pub open spec fn operations_checked(
    uids: Seq<Seq<char>>,
    results: Seq<OperationView>,
    count: nat,
) -> Result<TrashBatchView, Fault<Seq<char>>>
    decreases count,
{
    if count == 0 {
        Ok(TrashBatchView { succeeded_uids: Seq::empty(), failed_uids: Seq::empty() })
    } else {
        match operations_checked(uids, results, (count - 1) as nat) {
            Err(fault) => Err(fault),
            Ok(outcome) => {
                let result = results[count - 1];
                if !uids.contains(result.uid) {
                    Err(Fault::TrashUnknown)
                } else if exists|k: int|
                    0 <= k < count - 1 && (#[trigger] results[k]).uid == result.uid {
                    Err(Fault::TrashRepeated)
                } else if result.ok {
                    Ok(
                        TrashBatchView {
                            succeeded_uids: outcome.succeeded_uids.push(result.uid),
                            ..outcome
                        },
                    )
                } else {
                    Ok(
                        TrashBatchView {
                            failed_uids: outcome.failed_uids.push(result.uid),
                            ..outcome
                        },
                    )
                }
            },
        }
    }
}

/// The result of a trash command, from what the client reports of it.
pub open spec fn trash_checked(
    targets: Seq<TrashTargetView>,
    results: Seq<OperationView>,
) -> Result<TrashBatchView, Fault<Seq<char>>> {
    if results.len() != targets.len() {
        Err(
            Fault::TrashCounts {
                results: results.len() as usize,
                targets: targets.len() as usize,
            },
        )
    } else {
        operations_checked(target_uids(targets), results, results.len())
    }
}

proof fn operations_stop(
    uids: Seq<Seq<char>>,
    results: Seq<OperationView>,
    from: nat,
    to: nat,
)
    requires
        from <= to,
        operations_checked(uids, results, from) is Err,
    ensures
        operations_checked(uids, results, to) == operations_checked(uids, results, from),
    decreases to,
{
    if from < to {
        operations_stop(uids, results, from, (to - 1) as nat);
    }
}

fn knows_uid(targets: &Vec<TrashTarget>, uid: &str) -> (r: bool)
    ensures
        r == target_uids(views(targets@)).contains(uid@),
{
    let ghost uids = target_uids(views(targets@));
    let mut i: usize = 0;
    while i < targets.len()
        invariant
            i <= targets.len(),
            uids == target_uids(views(targets@)),
            forall|k: int| 0 <= k < i ==> #[trigger] uids[k] != uid@,
        decreases targets.len() - i,
    {
        assert(uids[i as int] == targets@[i as int].uid@);
        if text_eq(targets[i].uid.as_str(), uid) {
            return true;
        }
        i += 1;
    }
    false
}

/// The result of a trash command for `targets`, from what the client reports of it: there must be
/// one report for each target.
pub fn trash_result(targets: &Vec<TrashTarget>, results: Vec<OperationResult>) -> (r: Result<
    TrashBatchResult,
    SyncError,
>)
    ensures
        outcome(r) == trash_checked(views(targets@), views(results@)),
{
    if results.len() != targets.len() {
        return Err(Fault::TrashCounts { results: results.len(), targets: targets.len() });
    }
    let ghost uids = target_uids(views(targets@));
    let ghost all = views(results@);
    let total = results.len();
    let mut seen: Vec<String> = Vec::new();
    let mut sorted = TrashBatchResult { succeeded_uids: Vec::new(), failed_uids: Vec::new() };
    assert(sorted@ =~= TrashBatchView {
        succeeded_uids: Seq::empty(),
        failed_uids: Seq::empty(),
    });
    for result in it: results
        invariant
            it.seq() == results@,
            total == all.len(),
            all == views(results@),
            uids == target_uids(views(targets@)),
            seen.len() == it.index(),
            forall|k: int| 0 <= k < it.index() ==> #[trigger] views(seen@)[k] == all[k].uid,
            operations_checked(uids, all, it.index() as nat) == Ok::<
                TrashBatchView,
                Fault<Seq<char>>,
            >(sorted@),
            total == views(targets@).len(),
    {
        let ghost i = it.index();
        assert(all[i] == result@);
        if !knows_uid(targets, result.uid.as_str()) {
            proof {
                operations_stop(uids, all, (i + 1) as nat, total as nat);
            }
            return Err(Fault::TrashUnknown);
        }
        let repeated = holds(&seen, result.uid.as_str());
        proof {
            if repeated {
                let k = choose|k: int| 0 <= k < seen@.len() && views(seen@)[k] == result.uid@;
                assert(all[k].uid == result.uid@);
            } else if exists|k: int| 0 <= k < i && (#[trigger] all[k]).uid == result.uid@ {
                let k = choose|k: int| 0 <= k < i && (#[trigger] all[k]).uid == result.uid@;
                assert(views(seen@)[k] == result.uid@);
            }
        }
        if repeated {
            proof {
                operations_stop(uids, all, (i + 1) as nat, total as nat);
            }
            return Err(Fault::TrashRepeated);
        }
        let uid = result.uid.clone();
        proof {
            views_push(seen@, uid);
        }
        seen.push(uid);
        if result.ok {
            proof {
                views_push(sorted.succeeded_uids@, result.uid);
            }
            sorted.succeeded_uids.push(result.uid);
        } else {
            proof {
                views_push(sorted.failed_uids@, result.uid);
            }
            sorted.failed_uids.push(result.uid);
        }
    }
    Ok(sorted)
}

/// An upload that is accepted accounts for every file: transferred, skipped or failed.
pub proof fn upload_accounts_for_every_file(files: Seq<Seq<char>>, summary: TransferView)
    ensures
        upload_checked(files, summary) matches Ok(result) ==> result.transferred_items
            + result.skipped_items + result.failures.len() == files.len(),
{
}

proof fn operations_account(uids: Seq<Seq<char>>, results: Seq<OperationView>, count: nat)
    requires
        count <= results.len(),
    ensures
        operations_checked(uids, results, count) matches Ok(outcome) ==> {
            &&& outcome.succeeded_uids.len() + outcome.failed_uids.len() == count
            &&& forall|i: int|
                0 <= i < outcome.succeeded_uids.len() ==> uids.contains(
                    #[trigger] outcome.succeeded_uids[i],
                )
            &&& forall|i: int|
                0 <= i < outcome.failed_uids.len() ==> uids.contains(
                    #[trigger] outcome.failed_uids[i],
                )
        },
    decreases count,
{
    if count > 0 {
        operations_account(uids, results, (count - 1) as nat);
    }
}

/// A trash command that is accepted accounts for every target: moved or failed, and nothing else.
pub proof fn trash_accounts_for_every_target(
    targets: Seq<TrashTargetView>,
    results: Seq<OperationView>,
)
    ensures
        trash_checked(targets, results) matches Ok(outcome) ==> {
            &&& outcome.succeeded_uids.len() + outcome.failed_uids.len() == targets.len()
            &&& forall|i: int|
                0 <= i < outcome.succeeded_uids.len() ==> target_uids(targets).contains(
                    #[trigger] outcome.succeeded_uids[i],
                )
            &&& forall|i: int|
                0 <= i < outcome.failed_uids.len() ==> target_uids(targets).contains(
                    #[trigger] outcome.failed_uids[i],
                )
        },
{
    operations_account(target_uids(targets), results, results.len());
}

} // verus!
