//! Operations on files: creating, copying, moving and deleting them, with the language servers
//! asked before and told afterwards.

use vstd::prelude::*;

use crate::paths;
use crate::paths::{append, copy_path, join_parts, same_path, strip_prefix};
use crate::text::join;

verus! {

/// Who wants an operation.
#[derive(Debug, Clone, Copy, PartialEq, Eq, Structural)]
pub enum FileOperationOrigin {
    Explorer,
    Command,
    /// A language server, as part of a batch of edits or on its own.
    WorkspaceEdit { batch: Option<u64> },
}

impl FileOperationOrigin {
    pub open spec fn asks_servers(self) -> bool {
        !(self is WorkspaceEdit)
    }

    /// An edit that a server wants on its own.
    pub fn workspace_edit() -> (r: FileOperationOrigin)
        ensures
            r == (FileOperationOrigin::WorkspaceEdit { batch: None }),
    {
        FileOperationOrigin::WorkspaceEdit { batch: None }
    }

    /// Whether servers are asked before the operation is carried out. They are not where a server
    /// wants it, so that asking never leads to asking again.
    pub fn requests_lsp_will(self) -> (r: bool)
        ensures
            r == self.asks_servers(),
    {
        match self {
            FileOperationOrigin::WorkspaceEdit { .. } => false,
            _ => true,
        }
    }
}

/// What happens to a file or directory. Paths are lists of their components.
#[derive(Debug)]
#[allow(inconsistent_fields)]
pub enum FileOperationChange {
    Create { path: Vec<String>, is_dir: bool },
    Delete { path: Vec<String>, is_dir: bool },
    Move { from: Vec<String>, to: Vec<String>, is_dir: bool },
}

/// What comes after an operation was looked into.
#[derive(Debug, Clone, Copy, PartialEq, Eq, Structural)]
pub enum InspectedStep {
    /// The operation failed.
    Fail,
    /// It is not waited for any more.
    Ignore,
    /// The servers are asked what they want changed along with it.
    AskServers,
    /// It is carried out.
    Mutate,
}

/// What comes after an operation was looked into: `accepted` if it is still waited for,
/// `will_change` if it changes something that servers are asked about.
pub fn apply_inspected(
    succeeded: bool,
    accepted: bool,
    origin: FileOperationOrigin,
    will_change: bool,
) -> (r: InspectedStep)
    ensures
        r == if !succeeded {
            InspectedStep::Fail
        } else if !accepted {
            InspectedStep::Ignore
        } else if origin.asks_servers() && will_change {
            InspectedStep::AskServers
        } else {
            InspectedStep::Mutate
        },
{
    if !succeeded {
        InspectedStep::Fail
    } else if !accepted {
        InspectedStep::Ignore
    } else if origin.requests_lsp_will() && will_change {
        InspectedStep::AskServers
    } else {
        InspectedStep::Mutate
    }
}

/// What the servers want changed along with an operation, and how many could not say.
#[derive(Debug)]
pub struct WillAnswers<E> {
    pub edits: Vec<E>,
    pub errors: Vec<String>,
}

pub open spec fn edits_of<E>(answers: Seq<Result<Option<E>, String>>) -> Seq<E>
    decreases answers.len(),
{
    if answers.len() == 0 {
        seq![]
    } else {
        match answers.last() {
            Ok(Some(edit)) => edits_of(answers.drop_last()).push(edit),
            _ => edits_of(answers.drop_last()),
        }
    }
}

pub open spec fn errors_of<E>(answers: Seq<Result<Option<E>, String>>) -> Seq<String>
    decreases answers.len(),
{
    if answers.len() == 0 {
        seq![]
    } else {
        match answers.last() {
            Err(error) => errors_of(answers.drop_last()).push(error),
            _ => errors_of(answers.drop_last()),
        }
    }
}

/// Sorts out what the servers answered, in their order.
pub fn collect_will_answers<E>(answers: Vec<Result<Option<E>, String>>) -> (r: WillAnswers<E>)
    ensures
        r.edits@ == edits_of(answers@),
        r.errors@ == errors_of(answers@),
{
    let ghost all = answers@;
    let mut edits: Vec<E> = Vec::new();
    let mut errors: Vec<String> = Vec::new();
    assert(all.take(0) =~= seq![]);
    for answer in it: answers
        invariant
            it.seq() == all,
            edits@ == edits_of(all.take(it.index())),
            errors@ == errors_of(all.take(it.index())),
    {
        assert(all.take(it.index() + 1).drop_last() =~= all.take(it.index()));
        assert(all.take(it.index() + 1).last() == answer);
        match answer {
            Ok(Some(edit)) => {
                edits.push(edit);
            },
            Ok(None) => {},
            Err(error) => {
                errors.push(error);
            },
        }
    }
    assert(all.take(all.len() as int) =~= all);
    WillAnswers { edits, errors }
}

/// What follows a batch of edits. What is only handed on is a `P`.
#[derive(Debug)]
#[allow(inconsistent_fields)]
pub enum WorkspaceEditContinuation<P> {
    /// The server that wanted the edits gets to know.
    ApplyEditReply { server_id: u64, request: P },
    /// A server carries out a command.
    ExecuteCommand { server_id: u64, command: P },
    /// The operation that the edits belong to goes on.
    ResumeFileOperation { id: u64 },
}

/// Why a batch of edits was not made.
#[derive(Debug)]
pub struct WorkspaceEditBatchError {
    pub message: String,
    /// Which change could not be made, if it was one.
    pub failed_change_idx: Option<usize>,
}

/// What a server is told about the edits it wanted.
#[derive(Debug)]
pub struct ApplyWorkspaceEditResponse {
    pub applied: bool,
    pub failure_reason: Option<String>,
    pub failed_change: Option<u32>,
}

pub fn apply_workspace_edit_response(result: Result<(), WorkspaceEditBatchError>) -> (r:
    ApplyWorkspaceEditResponse)
    ensures
        match result {
            Ok(_) => r.applied && r.failure_reason is None && r.failed_change is None,
            Err(error) => {
                &&& !r.applied
                &&& r.failure_reason == Some(error.message)
                &&& r.failed_change == match error.failed_change_idx {
                    Some(index) => Some(index as u32),
                    None => None,
                }
            },
        },
{
    match result {
        Ok(_) => ApplyWorkspaceEditResponse {
            applied: true,
            failure_reason: None,
            failed_change: None,
        },
        Err(error) => ApplyWorkspaceEditResponse {
            applied: false,
            failure_reason: Some(error.message),
            failed_change: match error.failed_change_idx {
                Some(index) => Some(#[verifier::truncate] (index as u32)),
                None => None,
            },
        },
    }
}

/// What somebody is told.
#[derive(Debug)]
pub enum FileNote {
    Text(String),
    EditsFailed(String),
    CodeActionEditsFailed(String),
    OperationFailed(String),
}

impl FileNote {
    pub open spec fn spec_text(self) -> Seq<char> {
        match self {
            FileNote::Text(text) => text@,
            FileNote::EditsFailed(error) => "Failed to apply workspace edits: "@ + error@,
            FileNote::CodeActionEditsFailed(error) => "Failed to apply code action edits: "@
                + error@,
            FileNote::OperationFailed(error) => "workspace file operation failed: "@ + error@,
        }
    }

    /// How it is worded.
    pub fn text(&self) -> (r: String)
        ensures
            r@ == self.spec_text(),
    {
        match self {
            FileNote::Text(text) => text.clone(),
            FileNote::EditsFailed(error) => join(
                "Failed to apply workspace edits: ",
                error.as_str(),
            ),
            FileNote::CodeActionEditsFailed(error) => join(
                "Failed to apply code action edits: ",
                error.as_str(),
            ),
            FileNote::OperationFailed(error) => join(
                "workspace file operation failed: ",
                error.as_str(),
            ),
        }
    }
}

/// What follows a batch of edits.
#[derive(Debug)]
#[allow(inconsistent_fields)]
pub enum BatchStep<P> {
    Nothing,
    SetError(FileNote),
    Reply { server_id: u64, request: P, result: Result<(), WorkspaceEditBatchError> },
    Execute { server_id: u64, command: P },
    /// The operation goes on with the next edits, or is carried out.
    Advance { id: u64 },
    /// The operation that waited for the edits failed.
    FailWaiting { id: u64, message: String },
}

/// What follows a batch of edits that was made, or was not. A command is only carried out after
/// edits that were made; a reply goes to a server that is still there.
pub open spec fn batch_step<P>(
    continuation: Option<WorkspaceEditContinuation<P>>,
    result: Result<(), WorkspaceEditBatchError>,
    server_exists: bool,
) -> BatchStep<P> {
    match (continuation, result) {
        (None, Ok(_)) => BatchStep::Nothing,
        (None, Err(error)) => BatchStep::SetError(FileNote::EditsFailed(error.message)),
        (Some(WorkspaceEditContinuation::ApplyEditReply { server_id, request }), _) => {
            if server_exists {
                BatchStep::Reply { server_id, request, result }
            } else {
                BatchStep::Nothing
            }
        },
        (Some(WorkspaceEditContinuation::ExecuteCommand { server_id, command }), Ok(_)) => {
            BatchStep::Execute { server_id, command }
        },
        (Some(WorkspaceEditContinuation::ExecuteCommand { .. }), Err(error)) => {
            BatchStep::SetError(FileNote::CodeActionEditsFailed(error.message))
        },
        (Some(WorkspaceEditContinuation::ResumeFileOperation { id }), Ok(_)) => {
            BatchStep::Advance { id }
        },
        (Some(WorkspaceEditContinuation::ResumeFileOperation { id }), Err(error)) => {
            BatchStep::FailWaiting { id, message: error.message }
        },
    }
}

/// What follows a batch of edits.
pub fn apply_workspace_edit_batch_completion<P>(
    continuation: Option<WorkspaceEditContinuation<P>>,
    result: Result<(), WorkspaceEditBatchError>,
    server_exists: bool,
) -> (r: BatchStep<P>)
    ensures
        r == batch_step(continuation, result, server_exists),
{
    match continuation {
        None => match result {
            Ok(_) => BatchStep::Nothing,
            Err(error) => BatchStep::SetError(FileNote::EditsFailed(error.message)),
        },
        Some(WorkspaceEditContinuation::ApplyEditReply { server_id, request }) => {
            if server_exists {
                BatchStep::Reply { server_id, request, result }
            } else {
                BatchStep::Nothing
            }
        },
        Some(WorkspaceEditContinuation::ExecuteCommand { server_id, command }) => match result {
            Ok(_) => BatchStep::Execute { server_id, command },
            Err(error) => BatchStep::SetError(FileNote::CodeActionEditsFailed(error.message)),
        },
        Some(WorkspaceEditContinuation::ResumeFileOperation { id }) => match result {
            Ok(_) => BatchStep::Advance { id },
            Err(error) => BatchStep::FailWaiting { id, message: error.message },
        },
    }
}

/// Where the making of a batch of edits has come to. What is only handed on is a `P`.
#[derive(Debug)]
#[allow(inconsistent_fields)]
pub enum WorkspaceEditExecutionDispatch<P> {
    /// An operation on files is next.
    EnqueueResource(P),
    /// An operation on files that waits is next.
    Drive,
    /// The next part of the batch can be made.
    Advance(u64),
    /// The batch is over.
    Complete {
        continuation: Option<WorkspaceEditContinuation<P>>,
        result: Result<(), WorkspaceEditBatchError>,
    },
}

/// What is done next for a batch of edits.
#[derive(Debug)]
pub enum ExecutionStep<P> {
    /// The operation is put in line, and the one that is first in it starts.
    Submit(P),
    /// The operation that is first in line starts.
    Drive,
    /// The next part of the batch is made; where that has come to is dispatched in turn.
    Advance(u64),
    Complete(BatchStep<P>),
}

/// What is done next for a batch of edits.
pub open spec fn execution_step<P>(
    dispatch: WorkspaceEditExecutionDispatch<P>,
    server_exists: bool,
) -> ExecutionStep<P> {
    match dispatch {
        WorkspaceEditExecutionDispatch::EnqueueResource(request) => ExecutionStep::Submit(request),
        WorkspaceEditExecutionDispatch::Drive => ExecutionStep::Drive,
        WorkspaceEditExecutionDispatch::Advance(batch) => ExecutionStep::Advance(batch),
        WorkspaceEditExecutionDispatch::Complete {
            continuation,
            result,
        } => ExecutionStep::Complete(batch_step(continuation, result, server_exists)),
    }
}

/// What is done next for a batch of edits. `server_exists` says whether the server is there that
/// waits for a reply, if one does.
pub fn apply_workspace_edit_execution_update<P>(
    dispatch: WorkspaceEditExecutionDispatch<P>,
    server_exists: bool,
) -> (r: ExecutionStep<P>)
    ensures
        r == execution_step(dispatch, server_exists),
{
    match dispatch {
        WorkspaceEditExecutionDispatch::EnqueueResource(request) => ExecutionStep::Submit(request),
        WorkspaceEditExecutionDispatch::Drive => ExecutionStep::Drive,
        WorkspaceEditExecutionDispatch::Advance(batch) => ExecutionStep::Advance(batch),
        WorkspaceEditExecutionDispatch::Complete { continuation, result } => {
            ExecutionStep::Complete(
                apply_workspace_edit_batch_completion(continuation, result, server_exists),
            )
        },
    }
}

/// A batch of edits for which a server waits ends in exactly one reply to it, with the result of
/// the batch, if it is still there.
pub proof fn law_waiting_servers_are_answered<P>(
    server_id: u64,
    request: P,
    result: Result<(), WorkspaceEditBatchError>,
)
    ensures
        ({
            let over = WorkspaceEditExecutionDispatch::Complete {
                continuation: Some(WorkspaceEditContinuation::ApplyEditReply { server_id, request }),
                result,
            };
            &&& execution_step(over, true) == ExecutionStep::Complete(
                BatchStep::Reply { server_id, request, result },
            )
            &&& execution_step(over, false) == ExecutionStep::Complete(BatchStep::<P>::Nothing)
        }),
{
}

/// Work on an operation that is done aside.
#[derive(Debug, Clone, Copy, PartialEq, Eq, Structural)]
pub enum FileWork {
    Inspection,
    Mutation,
}

/// The error of an operation whose work broke off.
pub fn task_failed(work: FileWork, error: &str) -> (r: String)
    ensures
        r@ == match work {
            FileWork::Inspection => "file operation inspection task failed: "@ + error@,
            FileWork::Mutation => "file operation mutation task failed: "@ + error@,
        },
{
    match work {
        FileWork::Inspection => join("file operation inspection task failed: ", error),
        FileWork::Mutation => join("file operation mutation task failed: ", error),
    }
}

/// What comes after edits were prepared.
#[derive(Debug)]
#[allow(inconsistent_fields)]
pub enum PreparedStep<L, P> {
    /// The operation does not wait for them any more.
    Ignore,
    Execute { plan: L, continuation: Option<WorkspaceEditContinuation<P>> },
    FailWaiting { id: u64, message: String },
    /// The batch ends with this error.
    Complete { continuation: Option<WorkspaceEditContinuation<P>>, error: WorkspaceEditBatchError },
}

/// What comes after edits were prepared, on their own or for an operation that waits for them.
/// Edits for an operation lead back to it unless they lead elsewhere.
pub fn apply_workspace_edit_prepared<L, P>(
    parent: Option<u64>,
    parent_waits: bool,
    continuation: Option<WorkspaceEditContinuation<P>>,
    result: Result<L, WorkspaceEditBatchError>,
) -> (r: PreparedStep<L, P>)
    ensures
        r == if parent is Some && !parent_waits {
            PreparedStep::Ignore
        } else {
            match (result, parent) {
                (Ok(plan), _) => PreparedStep::Execute {
                    plan,
                    continuation: match (continuation, parent) {
                        (Some(continuation), _) => Some(continuation),
                        (None, Some(id)) => Some(
                            WorkspaceEditContinuation::ResumeFileOperation { id },
                        ),
                        (None, None) => None,
                    },
                },
                (Err(error), Some(id)) => PreparedStep::FailWaiting { id, message: error.message },
                (Err(error), None) => PreparedStep::Complete { continuation, error },
            }
        },
{
    if parent.is_some() && !parent_waits {
        return PreparedStep::Ignore;
    }
    match result {
        Ok(plan) => {
            let continuation = match continuation {
                Some(continuation) => Some(continuation),
                None => match parent {
                    Some(id) => Some(WorkspaceEditContinuation::ResumeFileOperation { id }),
                    None => None,
                },
            };
            PreparedStep::Execute { plan, continuation }
        },
        Err(error) => match parent {
            Some(id) => PreparedStep::FailWaiting { id, message: error.message },
            None => PreparedStep::Complete { continuation, error },
        },
    }
}

/// What comes after the edits of an operation: the next ones, or the operation itself.
#[derive(Debug, Clone, Copy, PartialEq, Eq, Structural)]
pub enum AdvanceStep {
    PrepareNextEdit,
    Mutate,
    Drive,
    Nothing,
}

/// What the operation wants once its edits are made.
#[derive(Debug, Clone, Copy, PartialEq, Eq, Structural)]
pub enum EditsDone {
    Mutate,
    Drive,
}

pub open spec fn advanced(has_next_edit: bool, done: Option<EditsDone>) -> AdvanceStep {
    if has_next_edit {
        AdvanceStep::PrepareNextEdit
    } else {
        match done {
            Some(EditsDone::Mutate) => AdvanceStep::Mutate,
            Some(EditsDone::Drive) => AdvanceStep::Drive,
            None => AdvanceStep::Nothing,
        }
    }
}

pub fn advance_will_workspace_edits(has_next_edit: bool, done: Option<EditsDone>) -> (r: AdvanceStep)
    ensures
        r == advanced(has_next_edit, done),
{
    if has_next_edit {
        return AdvanceStep::PrepareNextEdit;
    }
    match done {
        Some(EditsDone::Mutate) => AdvanceStep::Mutate,
        Some(EditsDone::Drive) => AdvanceStep::Drive,
        None => AdvanceStep::Nothing,
    }
}

/// What comes after the servers have answered: `accepted` if the operation still waits for them,
/// `begun` if it takes their edits.
pub fn apply_will_completed(
    accepted: bool,
    begun: bool,
    has_next_edit: bool,
    done: Option<EditsDone>,
) -> (r: AdvanceStep)
    ensures
        r == if accepted && begun {
            advanced(has_next_edit, done)
        } else {
            AdvanceStep::Nothing
        },
{
    if !accepted || !begun {
        return AdvanceStep::Nothing;
    }
    advance_will_workspace_edits(has_next_edit, done)
}

/// What comes after operations have ended.
#[derive(Debug, Clone, Copy, PartialEq, Eq, Structural)]
pub enum EndedStep {
    /// The completion at this place is dealt with.
    Complete(usize),
    /// The next operation starts.
    Drive,
}

/// Every completion is dealt with, in their order, and the next operation starts; nothing
/// happens where the operation was not known.
pub open spec fn ended(completions: Option<usize>) -> Seq<EndedStep> {
    match completions {
        Some(count) => Seq::new(count as nat, |i: int| EndedStep::Complete(i as usize)).push(
            EndedStep::Drive,
        ),
        None => seq![],
    }
}

/// What comes after an operation was carried out, or could not be: `completions` is how many
/// operations have ended with it, if it was known.
pub fn apply_mutated(completions: Option<usize>) -> (r: Vec<EndedStep>)
    ensures
        r@ == ended(completions),
{
    let mut steps: Vec<EndedStep> = Vec::new();
    if let Some(count) = completions {
        let mut i: usize = 0;
        while i < count
            invariant
                i <= count,
                steps@ =~= Seq::new(i as nat, |j: int| EndedStep::Complete(j as usize)),
            decreases count - i,
        {
            steps.push(EndedStep::Complete(i));
            i += 1;
        }
        steps.push(EndedStep::Drive);
    }
    assert(steps@ =~= ended(completions));
    steps
}

/// A step of an operation on files that has come back. What is only handed on is a `P`.
#[derive(Debug)]
#[allow(inconsistent_fields)]
pub enum FileTask<P> {
    /// The operation was looked into: see [`apply_inspected`].
    Inspected { id: u64, result: Result<P, String> },
    /// The servers have answered: see [`apply_will_completed`].
    WillCompleted { id: u64, edits: Vec<P>, errors: Vec<String> },
    /// Edits were prepared: see [`apply_workspace_edit_prepared`].
    WorkspaceEditPrepared {
        parent: Option<u64>,
        continuation: Option<WorkspaceEditContinuation<P>>,
        result: Result<P, WorkspaceEditBatchError>,
    },
    /// The operation was carried out: see [`apply_mutated`].
    Mutated(P),
}

/// Where a document is after a file or directory was moved, if it was moved along.
pub open spec fn moved_path(
    path: Seq<Seq<char>>,
    from: Seq<Seq<char>>,
    to: Seq<Seq<char>>,
    is_dir: bool,
) -> Option<Seq<Seq<char>>> {
    if is_dir {
        match paths::stripped(path, from) {
            Some(rest) => Some(to + rest),
            None => None,
        }
    } else if path == from {
        Some(to)
    } else {
        None
    }
}

/// A document and where it is, if it is a file.
#[derive(Debug)]
pub struct DocumentPath {
    pub id: u64,
    pub path: Option<Vec<String>>,
}

/// The documents after all changes.
pub open spec fn path_of(document: DocumentPath) -> Option<Seq<Seq<char>>> {
    match document.path {
        Some(path) => Some(paths::parts(path@)),
        None => None,
    }
}

pub open spec fn path_after_change(
    path: Option<Seq<Seq<char>>>,
    change: FileOperationChange,
) -> Option<Seq<Seq<char>>> {
    match (path, change) {
        (Some(path), FileOperationChange::Move { from, to, is_dir }) => match moved_path(
            path,
            paths::parts(from@),
            paths::parts(to@),
            is_dir,
        ) {
            Some(moved) => Some(moved),
            None => Some(path),
        },
        _ => path,
    }
}

pub open spec fn path_after(path: Option<Seq<Seq<char>>>, changes: Seq<FileOperationChange>) -> Option<
    Seq<Seq<char>>,
>
    decreases changes.len(),
{
    if changes.len() == 0 {
        path
    } else {
        path_after_change(path_after(path, changes.drop_last()), changes.last())
    }
}

fn move_document(document: &mut DocumentPath, change: &FileOperationChange)
    ensures
        final(document).id == old(document).id,
        path_of(*final(document)) == path_after_change(path_of(*old(document)), *change),
{
    if let FileOperationChange::Move { from, to, is_dir } = change {
        let moved: Option<Vec<String>> = match &document.path {
            Some(path) => if *is_dir {
                match strip_prefix(path, from) {
                    Some(rest) => Some(append(to, &rest)),
                    None => None,
                }
            } else if same_path(path, from) {
                Some(copy_path(to))
            } else {
                None
            },
            None => None,
        };
        if moved.is_some() {
            document.path = moved;
        }
    }
}

/// Open documents go along when their files, or directories above them, are moved.
pub fn update_open_document_paths(
    documents: &mut Vec<DocumentPath>,
    changes: &Vec<FileOperationChange>,
)
    ensures
        final(documents)@.len() == old(documents)@.len(),
        forall|i: int|
            0 <= i < old(documents)@.len() ==> (#[trigger] final(documents)@[i]).id == old(
                documents,
            )@[i].id && path_of(final(documents)@[i]) == path_after(
                path_of(old(documents)@[i]),
                changes@,
            ),
{
    let ghost before = documents@;
    let mut c: usize = 0;
    assert(changes@.take(0) =~= seq![]);
    while c < changes.len()
        invariant
            c <= changes@.len(),
            before == old(documents)@,
            documents@.len() == before.len(),
            forall|i: int|
                0 <= i < before.len() ==> (#[trigger] documents@[i]).id == before[i].id && path_of(
                    documents@[i],
                ) == path_after(path_of(before[i]), changes@.take(c as int)),
        decreases changes@.len() - c,
    {
        assert(changes@.take(c + 1).drop_last() =~= changes@.take(c as int));
        assert(changes@.take(c + 1).last() == changes@[c as int]);
        let mut d: usize = 0;
        while d < documents.len()
            invariant
                c < changes@.len(),
                d <= documents@.len(),
                before == old(documents)@,
                documents@.len() == before.len(),
                changes@.take(c + 1).drop_last() == changes@.take(c as int),
                changes@.take(c + 1).last() == changes@[c as int],
                forall|i: int|
                    d <= i < before.len() ==> (#[trigger] documents@[i]).id == before[i].id
                        && path_of(documents@[i]) == path_after(
                        path_of(before[i]),
                        changes@.take(c as int),
                    ),
                forall|i: int|
                    0 <= i < d ==> (#[trigger] documents@[i]).id == before[i].id && path_of(
                        documents@[i],
                    ) == path_after(path_of(before[i]), changes@.take(c + 1)),
            decreases documents@.len() - d,
        {
            let document = &mut documents[d];
            move_document(document, &changes[c]);
            d += 1;
        }
        c += 1;
    }
    assert(changes@.take(c as int) =~= changes@);
}

/// A document below a directory that is moved stays at the same place below it.
pub proof fn law_documents_move_with_their_directory(
    from: Seq<Seq<char>>,
    to: Seq<Seq<char>>,
    rest: Seq<Seq<char>>,
)
    ensures
        moved_path(from + rest, from, to, true) == Some(to + rest),
{
    paths::law_stripping_undoes_appending(from, rest);
}

/// What was done.
#[derive(Debug, Clone, Copy, PartialEq, Eq, Structural)]
pub enum FileOperation {
    Create,
    Copy,
    Move,
    /// To the trash, or for good.
    Delete { trash: bool },
    Undo,
    Redo,
}

pub open spec fn done_text(operation: FileOperation) -> Seq<char> {
    match operation {
        FileOperation::Create => "Created"@,
        FileOperation::Copy => "Copied"@,
        FileOperation::Move => "Moved"@,
        FileOperation::Delete { trash: true } => "Moved to trash"@,
        FileOperation::Delete { trash: false } => "Deleted"@,
        FileOperation::Undo => "Undid file operation"@,
        FileOperation::Redo => "Redid file operation"@,
    }
}

/// How it is said that an operation was carried out: with the last path it has to do with.
pub fn describe_success(operation: FileOperation, affected_paths: &Vec<Vec<String>>) -> (r: String)
    ensures
        r@ == if affected_paths@.len() > 0 {
            done_text(operation) + ": "@ + paths::joined(paths::parts(affected_paths@.last()@))
        } else {
            done_text(operation)
        },
{
    let done = match operation {
        FileOperation::Create => "Created",
        FileOperation::Copy => "Copied",
        FileOperation::Move => "Moved",
        FileOperation::Delete { trash } => if trash {
            "Moved to trash"
        } else {
            "Deleted"
        },
        FileOperation::Undo => "Undid file operation",
        FileOperation::Redo => "Redid file operation",
    };
    if affected_paths.len() > 0 {
        let mut text = join(done, ": ");
        text.append(join_parts(&affected_paths[affected_paths.len() - 1]).as_str());
        text
    } else {
        done.to_owned()
    }
}

/// Something that somebody is told of an operation.
#[derive(Debug, Clone, Copy, PartialEq, Eq, Structural)]
pub enum ChangeNotice {
    /// The server is told of the change at that place.
    Server { server: u64, change: usize },
    /// Whoever watches files is told that the affected path at that place has changed.
    PathChanged(usize),
}

/// Every server of every change, one change after the other.
pub open spec fn server_notices(changes: nat, servers: Seq<u64>) -> Seq<ChangeNotice>
    decreases changes,
{
    if changes == 0 {
        seq![]
    } else {
        server_notices((changes - 1) as nat, servers) + servers.map_values(
            |server: u64| ChangeNotice::Server { server, change: (changes - 1) as usize },
        )
    }
}

/// Who is told of what: the servers of every change, and then that each affected path has
/// changed.
pub open spec fn notices(changes: nat, servers: Seq<u64>, affected: nat) -> Seq<ChangeNotice> {
    server_notices(changes, servers) + Seq::new(
        affected,
        |i: int| ChangeNotice::PathChanged(i as usize),
    )
}

/// Who is told of what, in this order.
pub fn notify_language_servers(
    changes: &Vec<FileOperationChange>,
    servers: &Vec<u64>,
    affected_paths: &Vec<Vec<String>>,
) -> (r: Vec<ChangeNotice>)
    ensures
        r@ == notices(changes@.len(), servers@, affected_paths@.len()),
{
    let mut told: Vec<ChangeNotice> = Vec::new();
    let mut i: usize = 0;
    while i < changes.len()
        invariant
            i <= changes@.len(),
            told@ == server_notices(i as nat, servers@),
        decreases changes@.len() - i,
    {
        let mut j: usize = 0;
        while j < servers.len()
            invariant
                j <= servers@.len(),
                told@ =~= server_notices(i as nat, servers@) + servers@.take(j as int).map_values(
                    |server: u64| ChangeNotice::Server { server, change: i },
                ),
            decreases servers@.len() - j,
        {
            told.push(ChangeNotice::Server { server: servers[j], change: i });
            j += 1;
        }
        assert(servers@.take(j as int) =~= servers@);
        assert(server_notices((i + 1) as nat, servers@) =~= told@);
        i += 1;
    }
    let ghost to_servers = told@;
    let mut p: usize = 0;
    while p < affected_paths.len()
        invariant
            p <= affected_paths@.len(),
            told@ =~= to_servers + Seq::new(
                p as nat,
                |k: int| ChangeNotice::PathChanged(k as usize),
            ),
        decreases affected_paths@.len() - p,
    {
        told.push(ChangeNotice::PathChanged(p));
        p += 1;
    }
    told
}

/// Who gets to know that an operation was carried out, or was not.
#[derive(Debug)]
pub enum CompletionNotice {
    /// The explorer that wanted it.
    Explorer(Result<String, String>),
    Status(FileNote),
    Error(FileNote),
    Nobody,
}

/// Who gets to know about an operation. What belongs to a batch of edits is reported with the
/// batch; another operation that a server wants is reported only if it failed.
pub fn notify_completion(origin: FileOperationOrigin, result: Result<String, String>) -> (r:
    CompletionNotice)
    ensures
        r == match (origin, result) {
            (FileOperationOrigin::Explorer, _) => CompletionNotice::Explorer(result),
            (FileOperationOrigin::Command, Ok(message)) => CompletionNotice::Status(
                FileNote::Text(message),
            ),
            (FileOperationOrigin::Command, Err(message)) => CompletionNotice::Error(
                FileNote::Text(message),
            ),
            (FileOperationOrigin::WorkspaceEdit { batch: None }, Err(message)) => {
                CompletionNotice::Error(FileNote::OperationFailed(message))
            },
            (FileOperationOrigin::WorkspaceEdit { .. }, _) => CompletionNotice::Nobody,
        },
{
    match origin {
        FileOperationOrigin::Explorer => CompletionNotice::Explorer(result),
        FileOperationOrigin::Command => match result {
            Ok(message) => CompletionNotice::Status(FileNote::Text(message)),
            Err(message) => CompletionNotice::Error(FileNote::Text(message)),
        },
        FileOperationOrigin::WorkspaceEdit { batch } => match (batch, result) {
            (None, Err(message)) => CompletionNotice::Error(FileNote::OperationFailed(message)),
            _ => CompletionNotice::Nobody,
        },
    }
}

/// What is done when an operation is over, in this order.
#[derive(Debug, Clone, Copy, PartialEq, Eq, Structural)]
pub enum CompletionStep {
    MoveDocuments,
    /// As `notify_language_servers` says.
    TellServers,
    Notify,
    /// The operation that the edits belonged to is over too.
    CompleteParent,
    ContinueEdits,
}

pub open spec fn completion_steps(succeeded: bool, resumes_edits: bool, ends_parent: bool) -> Seq<
    CompletionStep,
> {
    (if succeeded {
        seq![CompletionStep::MoveDocuments, CompletionStep::TellServers, CompletionStep::Notify]
    } else {
        seq![CompletionStep::Notify]
    }) + (if !resumes_edits {
        seq![]
    } else if ends_parent {
        seq![CompletionStep::CompleteParent, CompletionStep::ContinueEdits]
    } else {
        seq![CompletionStep::ContinueEdits]
    })
}

/// What is done when an operation is over. Documents have moved before anybody gets to know.
pub fn apply_completion(succeeded: bool, resumes_edits: bool, ends_parent: bool) -> (r: Vec<
    CompletionStep,
>)
    ensures
        r@ == completion_steps(succeeded, resumes_edits, ends_parent),
{
    let mut steps: Vec<CompletionStep> = Vec::new();
    if succeeded {
        steps.push(CompletionStep::MoveDocuments);
        steps.push(CompletionStep::TellServers);
    }
    steps.push(CompletionStep::Notify);
    if resumes_edits {
        if ends_parent {
            steps.push(CompletionStep::CompleteParent);
        }
        steps.push(CompletionStep::ContinueEdits);
    }
    assert(steps@ =~= completion_steps(succeeded, resumes_edits, ends_parent));
    steps
}

/// Edits and failures are taken from the answers in their order; an answer without an edit is
/// neither.
pub proof fn law_answers_are_taken_in_order<E>(
    answers: Seq<Result<Option<E>, String>>,
    edit: E,
    error: String,
)
    ensures
        edits_of(Seq::<Result<Option<E>, String>>::empty()).len() == 0,
        errors_of(Seq::<Result<Option<E>, String>>::empty()).len() == 0,
        edits_of(answers.push(Ok(Some(edit)))) == edits_of(answers).push(edit),
        errors_of(answers.push(Ok(Some(edit)))) == errors_of(answers),
        edits_of(answers.push(Ok(None))) == edits_of(answers),
        errors_of(answers.push(Ok(None))) == errors_of(answers),
        edits_of(answers.push(Err(error))) == edits_of(answers),
        errors_of(answers.push(Err(error))) == errors_of(answers).push(error),
{
    assert(answers.push(Ok(Some(edit))).drop_last() =~= answers);
    assert(answers.push(Ok(None)).drop_last() =~= answers);
    assert(answers.push(Err(error)).drop_last() =~= answers);
}

/// A file that is moved takes its document along and no other; with a directory goes every
/// document below it, which keeps its way from there.
pub proof fn law_only_moved_documents_move(
    path: Seq<Seq<char>>,
    from: Seq<Seq<char>>,
    to: Seq<Seq<char>>,
    rest: Seq<Seq<char>>,
)
    ensures
        moved_path(from, from, to, false) == Some(to),
        path != from ==> moved_path(path, from, to, false) is None,
        moved_path(from + rest, from, to, true) == Some(to + rest),
        !paths::below(path, from) ==> moved_path(path, from, to, true) is None,
{
    paths::law_stripping_undoes_appending(from, rest);
}

/// Documents follow the changes one after the other.
pub proof fn law_documents_follow_each_change(
    path: Option<Seq<Seq<char>>>,
    changes: Seq<FileOperationChange>,
    change: FileOperationChange,
)
    ensures
        path_after(path, Seq::<FileOperationChange>::empty()) == path,
        path_after(path, changes.push(change)) == path_after_change(
            path_after(path, changes),
            change,
        ),
        !(change is Move) ==> path_after(path, changes.push(change)) == path_after(path, changes),
        path_after(None, changes) is None,
    decreases changes.len(),
{
    assert(changes.push(change).drop_last() =~= changes);
    if changes.len() > 0 {
        law_documents_follow_each_change(path, changes.drop_last(), changes.last());
    }
}

/// What waits for the edits goes on when they are made and is told when they are not; a command
/// does not run then.
pub proof fn law_failed_edits_stop_what_follows<P>(
    server_id: u64,
    command: P,
    id: u64,
    error: WorkspaceEditBatchError,
    server_exists: bool,
)
    ensures
        batch_step(
            Some(WorkspaceEditContinuation::ExecuteCommand { server_id, command }),
            Ok(()),
            server_exists,
        ) == (BatchStep::Execute { server_id, command }),
        batch_step(
            Some(WorkspaceEditContinuation::ExecuteCommand { server_id, command }),
            Err(error),
            server_exists,
        ) == BatchStep::<P>::SetError(FileNote::CodeActionEditsFailed(error.message)),
        batch_step(
            Some(WorkspaceEditContinuation::<P>::ResumeFileOperation { id }),
            Ok(()),
            server_exists,
        ) == (BatchStep::<P>::Advance { id }),
        batch_step(
            Some(WorkspaceEditContinuation::<P>::ResumeFileOperation { id }),
            Err(error),
            server_exists,
        ) == (BatchStep::<P>::FailWaiting { id, message: error.message }),
        batch_step::<P>(None, Ok(()), server_exists) is Nothing,
        batch_step::<P>(None, Err(error), server_exists) == BatchStep::<P>::SetError(
            FileNote::EditsFailed(error.message),
        ),
{
}

/// Every server hears of every change, before it is said which paths have changed.
pub proof fn law_every_server_hears_of_every_change(
    changes: nat,
    servers: Seq<u64>,
    affected: nat,
    change: int,
    server: int,
    path: int,
)
    requires
        changes <= usize::MAX,
        affected <= usize::MAX,
        0 <= change < changes,
        0 <= server < servers.len(),
        0 <= path < affected,
    ensures
        ({
            let all = notices(changes, servers, affected);
            let told = changes * servers.len();
            let at = change * servers.len() + server;
            &&& all.len() == told + affected
            &&& 0 <= at < told
            &&& all[at] == (ChangeNotice::Server {
                server: servers[server],
                change: change as usize,
            })
            &&& all[told + path] == ChangeNotice::PathChanged(path as usize)
        }),
{
    lemma_server_notices(changes, servers, change, server);
}

proof fn lemma_server_notices(changes: nat, servers: Seq<u64>, change: int, server: int)
    requires
        changes <= usize::MAX,
        0 <= change < changes,
        0 <= server < servers.len(),
    ensures
        server_notices(changes, servers).len() == changes * servers.len(),
        0 <= change * servers.len() + server < changes * servers.len(),
        server_notices(changes, servers)[change * servers.len() + server] == (ChangeNotice::Server {
            server: servers[server],
            change: change as usize,
        }),
    decreases changes,
{
    let front = server_notices((changes - 1) as nat, servers);
    let n = servers.len() as int;
    assert((changes - 1) * n + n == changes * n) by (nonlinear_arith);
    if changes == 1 {
        assert(front.len() == 0);
        assert(change * n == 0) by (nonlinear_arith)
            requires
                change == 0,
        ;
    } else {
        lemma_server_notices((changes - 1) as nat, servers, 0, server);
        assert(change * n + n <= changes * n) by (nonlinear_arith)
            requires
                0 <= change < changes,
                n >= 0,
        ;
        assert(change * n >= 0) by (nonlinear_arith)
            requires
                0 <= change,
                n >= 0,
        ;
        if change < changes - 1 {
            lemma_server_notices((changes - 1) as nat, servers, change, server);
        }
    }
}

/// Whatever came of an operation somebody is told; documents and servers follow only a success,
/// the documents first. Edits that waited go on last.
pub proof fn law_success_is_followed_up(succeeded: bool, resumes_edits: bool, ends_parent: bool)
    ensures
        ({
            let steps = completion_steps(succeeded, resumes_edits, ends_parent);
            &&& succeeded ==> steps[0] == CompletionStep::MoveDocuments && steps[1]
                == CompletionStep::TellServers && steps[2] == CompletionStep::Notify
            &&& !succeeded ==> steps[0] == CompletionStep::Notify
            &&& resumes_edits ==> steps.last() == CompletionStep::ContinueEdits
            &&& !resumes_edits ==> steps.last() == CompletionStep::Notify
            &&& steps.len() == (if succeeded {
                3int
            } else {
                1
            }) + (if !resumes_edits {
                0int
            } else if ends_parent {
                2
            } else {
                1
            })
            &&& resumes_edits && ends_parent ==> steps[steps.len() - 2]
                == CompletionStep::CompleteParent
        }),
{
}

/// What ended is reported in order before the next operation begins.
pub proof fn law_ends_are_reported_before_going_on(count: usize, i: int)
    requires
        0 <= i < count,
    ensures
        ended(None).len() == 0,
        ended(Some(count)).len() == count + 1,
        ended(Some(count))[i] == EndedStep::Complete(i as usize),
        ended(Some(count)).last() == EndedStep::Drive,
{
}

/// As long as an edit waits it is next; once none does what they were made for goes on.
pub proof fn law_waiting_edits_come_first(done: Option<EditsDone>, origin: FileOperationOrigin)
    ensures
        advanced(true, done) == AdvanceStep::PrepareNextEdit,
        advanced(false, done) != AdvanceStep::PrepareNextEdit,
        advanced(false, done) is Nothing <==> done is None,
        advanced(false, done) is Mutate <==> done == Some(EditsDone::Mutate),
        advanced(false, done) is Drive <==> done == Some(EditsDone::Drive),
        origin is WorkspaceEdit <==> !origin.asks_servers(),
{
}

} // verus!
