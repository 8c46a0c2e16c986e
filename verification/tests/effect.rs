use std::collections::VecDeque;

use helix_term::compositor::frame::Severity;
use helix_term::effect::assistant::{
    apply_assistant_change, apply_cancel_active_assistant_thread, apply_open_changes,
    apply_remove_assistant_panel, bootstrap_threads, loaded_history_thread, AssistantChange,
    AssistantNote, AssistantStep,
};
use helix_term::effect::code_actions_on_save::{
    apply_to_document, edits_for_document, kind_matches, next_step, on_done, on_resolved, on_response, Asked, EditPart,
    FinishStep, ResolveStep, SaveAction, SaveStep,
};
use helix_term::effect::file_operation::{
    advance_will_workspace_edits, apply_completion, apply_inspected, apply_mutated,
    apply_will_completed, apply_workspace_edit_batch_completion,
    apply_workspace_edit_execution_update, apply_workspace_edit_prepared,
    apply_workspace_edit_response, collect_will_answers, describe_success, notify_completion,
    notify_language_servers, task_failed, update_open_document_paths, AdvanceStep, BatchStep,
    ChangeNotice, CompletionNotice, CompletionStep, DocumentPath, EditsDone, EndedStep,
    ExecutionStep, FileOperation, FileOperationChange, FileOperationOrigin, FileTask, FileWork,
    InspectedStep, PreparedStep, WorkspaceEditBatchError, WorkspaceEditContinuation,
    WorkspaceEditExecutionDispatch,
};
use helix_term::effect::dap::task::DapTask;
use helix_term::effect::language_server::task::LspTask;
use helix_term::effect::plugin::{
    apply_plugin_host_request, notification_to_event, plugin_open_action, request_host,
    response_kind, service_plugin_host_request, HostStep, NotificationContext, OpenAction,
    PluginEvent, PluginHost, PluginNotification, PluginRequest, PluginRequestKind, PluginTaskKind,
    ResponseKind, ServiceStage, ServiceStep, Stage,
};
use helix_term::effect::{
    apply_auto_reload, apply_exit_task_result, apply_runtime_task_event, assistant_events,
    auto_reload_candidates, auto_saved, context_kind_label, document_saved, emit_new_thread_events,
    language_loader_installed, message_kind_label, rebuilt_language_loader, AssetKind, AssetsChange,
    AssistantEvent, AssistantNews, AssistantTask, ContextKind, DocumentState, EditorAction,
    EditorState, ExitTask, LspFeatureRefreshEvent, LspFeatureRefreshKind, MessageKind, OpEvent,
    RuntimeTaskEvent, ThreadInfo, ViewState,
};
use helix_term::text::{place_text, text_precedes};

fn editor(modified: bool) -> EditorState {
    EditorState {
        documents: vec![DocumentState { id: 1, version: 3, modified, syntax_stale: true }],
        views: vec![ViewState { id: 10, doc: 1 }],
        inserting: false,
        blame_auto_fetch: false,
        config_generation: 5,
        assets_generation: 6,
    }
}

fn actions(task: RuntimeTaskEvent<&'static str>) -> Vec<EditorAction<&'static str>> {
    apply_runtime_task_event(&editor(false), task)
}

fn path(text: &str) -> Vec<String> {
    text.split('/').map(|part| part.to_string()).collect()
}

#[test]
fn auto_reload_never_targets_a_modified_document() {
    let document = 1;
    assert_eq!(auto_reload_candidates(&editor(false), &vec![document]), vec![document]);
    assert!(auto_reload_candidates(&editor(true), &vec![document]).is_empty());
    assert!(auto_reload_candidates(&editor(false), &vec![2]).is_empty());
}

#[test]
fn reloads_wait_while_text_is_typed() {
    let mut pending = vec![];
    let mut state = editor(false);
    state.inserting = true;
    assert!(apply_auto_reload(&state, vec![1], &mut pending).is_empty());
    assert_eq!(pending, vec![1]);
    state.inserting = false;
    assert_eq!(apply_auto_reload(&state, vec![], &mut pending), vec![1]);
    assert!(pending.is_empty());
}

#[test]
fn late_work_leaves_changed_documents_alone() {
    let syntax = |version| RuntimeTaskEvent::ApplySyntax { document: 1, version, syntax: "tree" };
    assert!(matches!(
        actions(syntax(3))[..],
        [EditorAction::InstallSyntax { doc: 1, syntax: "tree" }, EditorAction::Redraw]
    ));
    assert!(actions(syntax(2)).is_empty());

    let transaction = |expected_version| RuntimeTaskEvent::ApplyTransactionIfCurrent {
        doc_id: 1,
        view_id: 10,
        expected_version,
        transaction: "t",
    };
    assert_eq!(actions(transaction(3)).len(), 1);
    assert!(actions(transaction(4)).is_empty());

    let shell = |expected_version| RuntimeTaskEvent::ApplyShellResult {
        doc_id: 1,
        view_id: 10,
        expected_version,
        transaction: Some("t"),
        selection: None,
    };
    assert!(matches!(
        actions(shell(3))[..],
        [
            EditorAction::ApplyTransaction { .. },
            EditorAction::AppendChangesToHistory { .. },
            EditorAction::EnsureCursorInView { .. }
        ]
    ));
    match &actions(shell(2))[..] {
        [EditorAction::SetStatus(note)] => assert!(!note.text().is_empty()),
        other => panic!("{:?}", other),
    }
}

#[test]
fn formatting_never_keeps_a_document_from_being_saved() {
    let formatting = |expected_version, format_result, write| {
        actions(RuntimeTaskEvent::ApplyFormattingResult {
            doc_id: 1,
            view_id: 10,
            expected_version,
            format_result,
            write,
        })
    };
    assert_eq!(formatting(3, Ok("t"), Some("w")).len(), 5);
    assert!(matches!(
        formatting(2, Ok("t"), Some("w"))[..],
        [EditorAction::Save { doc: 1, write: "w" }]
    ));
    assert!(matches!(
        formatting(3, Err("no formatter".to_string()), Some("w"))[..],
        [EditorAction::Save { .. }]
    ));
    match &formatting(3, Err("no formatter".to_string()), None)[..] {
        [EditorAction::SetError(note)] => assert_eq!(note.text(), "no formatter"),
        other => panic!("{:?}", other),
    }
}

#[test]
fn installations_report_their_progress() {
    let report = |event| actions(RuntimeTaskEvent::PkgEvent(event));
    let name = || "rust-analyzer".to_string();
    assert!(matches!(
        report(OpEvent::Started { name: name() })[..],
        [EditorAction::Notify { severity: Severity::Info, .. }]
    ));
    assert!(matches!(
        report(OpEvent::Failed { name: name(), message: "offline".to_string() })[..],
        [EditorAction::Notify { severity: Severity::Error, .. }]
    ));
    let progress = OpEvent::Progress { name: name(), message: "half".to_string() };
    assert!(matches!(report(progress)[..], [EditorAction::SetStatus(_)]));
    let finished = RuntimeTaskEvent::PkgOperationFinished {
        warnings: vec!["careful".to_string()],
        success: true,
        documents: vec![1],
    };
    assert!(matches!(
        actions(finished)[..],
        [
            EditorAction::Notify { severity: Severity::Warning, .. },
            EditorAction::RefreshLanguageServers { doc: 1 }
        ]
    ));
}

#[test]
fn changed_assets_are_taken_up() {
    let change = |kinds: Vec<&str>, kind| {
        let kinds = kinds.into_iter().map(|kind| kind.to_string()).collect();
        let assets = vec![
            (kind, "rust".to_string()),
            (AssetKind::Other, "theme".to_string()),
            (kind, "go".to_string()),
            (kind, "rust".to_string()),
        ];
        actions(RuntimeTaskEvent::RuntimeAssetsChanged(AssetsChange::new("c", 8, kinds, &assets)))
    };
    assert_eq!(change(vec![], AssetKind::Other).len(), 1);
    match &change(vec!["acp"], AssetKind::Grammar)[..] {
        [EditorAction::ReconcileAssets("c"), EditorAction::RefreshAgents, EditorAction::RebuildLanguageLoader { generation: 8, changed_grammars }] => {
            assert_eq!(*changed_grammars, vec!["go".to_string(), "rust".to_string()])
        }
        _ => panic!("agents and languages are read anew"),
    }
    let loader = |generation| {
        rebuilt_language_loader(generation, vec!["rust".to_string()], Ok(Ok("l")))
    };
    let failed: RuntimeTaskEvent<&str> =
        rebuilt_language_loader(8, Vec::new(), Ok(Err("bad table".to_string())));
    match failed {
        RuntimeTaskEvent::SetEditorError { message } => assert_eq!(
            message,
            "failed to rebuild language loader for runtime generation 8: bad table"
        ),
        _ => panic!("a failure is told"),
    }
    let crashed: RuntimeTaskEvent<&str> =
        rebuilt_language_loader(8, Vec::new(), Err("panic".to_string()));
    match crashed {
        RuntimeTaskEvent::SetEditorError { message } => {
            assert_eq!(message, "language loader task failed for runtime generation 8: panic")
        }
        _ => panic!("a failure is told"),
    }
    assert_eq!(actions(loader(6)).len(), 1);
    let queued: Vec<EditorAction<&str>> = language_loader_installed(&vec![4, 1], 6);
    assert!(matches!(
        queued[..],
        [
            EditorAction::QueueSyntax { doc: 4, generation: 6 },
            EditorAction::QueueSyntax { doc: 1, generation: 6 }
        ]
    ));
    assert!(actions(loader(5)).is_empty());
}

#[test]
fn features_are_asked_for_again() {
    let docs = vec![
        LspFeatureRefreshEvent { doc_id: 1, kind: LspFeatureRefreshKind::InlineCompletion },
        LspFeatureRefreshEvent { doc_id: 2, kind: LspFeatureRefreshKind::InlineCompletion },
        LspFeatureRefreshEvent { doc_id: 2, kind: LspFeatureRefreshKind::CodeLens },
    ];
    assert!(matches!(
        actions(RuntimeTaskEvent::RequestLspFeaturesDebounced { docs })[..],
        [
            EditorAction::RequestInlineCompletion { doc: 1, view: 10, invoked: false },
            EditorAction::RequestCodeLenses { doc: 2 }
        ]
    ));
    let colors = RuntimeTaskEvent::RequestDocumentColorsDebounced { doc_ids: vec![1, 4] };
    assert_eq!(actions(colors).len(), 2);
}

#[test]
fn blame_is_shown_where_it_was_asked_for() {
    let blame = |line| actions(RuntimeTaskEvent::BlameFetchDebounced { doc_id: 1, path: "p", line });
    assert!(matches!(
        blame(Some(4))[..],
        [EditorAction::FetchBlame { .. }, EditorAction::ShowBlame { doc: 1, line: 4 }]
    ));
    assert!(matches!(
        blame(None)[..],
        [EditorAction::FetchBlame { .. }, EditorAction::SetStatus(_)]
    ));
    let gone = RuntimeTaskEvent::BlameFetchDebounced { doc_id: 7, path: "p", line: None };
    assert!(actions(gone).is_empty());
}

#[test]
fn failures_to_save_are_told() {
    let failed: Option<EditorAction<&str>> = document_saved(Err("disk full".to_string()));
    match failed {
        Some(EditorAction::SetError(note)) => assert_eq!(note.text(), "Error saving: disk full"),
        other => panic!("{:?}", other),
    }
    let saved: Option<EditorAction<&str>> = document_saved(Ok(()));
    assert!(saved.is_none());
    let failed: Option<EditorAction<&str>> = auto_saved(Err("disk full".to_string()));
    match failed {
        Some(EditorAction::SetError(note)) => assert_eq!(note.text(), "disk full"),
        other => panic!("{:?}", other),
    }
    let saved: Option<EditorAction<&str>> = auto_saved(Ok(()));
    assert!(saved.is_none());
}

#[test]
fn exit_tasks_are_applied_or_fail() {
    let state = editor(false);
    let done = ExitTask::Finished(RuntimeTaskEvent::<&str>::AutoSaveRun);
    assert_eq!(apply_exit_task_result(&state, done).unwrap().len(), 2);
    let failed: ExitTask<&str> = ExitTask::Failed("disk full".to_string());
    assert!(apply_exit_task_result(&state, failed).unwrap_err().contains("disk full"));
}

#[test]
fn assistants_tell_plugins_what_is_new() {
    let thread = |id: u64| ThreadInfo {
        id,
        title: if id > 2 { Some(format!("thread {}", id)) } else { None },
        scope_cwd: "/w".to_string(),
    };
    assert_eq!(
        emit_new_thread_events(&vec![1, 2], &vec![thread(2), thread(3), thread(4)]),
        vec![thread(3), thread(4)]
    );
    assert_eq!(context_kind_label(ContextKind::Selection), "selection");
    let task = RuntimeTaskEvent::Assistant(AssistantTask::SubmitPrompt("hello"));
    assert!(matches!(
        actions(task)[..],
        [EditorAction::Assistant(_), EditorAction::TellPlugins(_)]
    ));
    assert_eq!(actions(RuntimeTaskEvent::Assistant(AssistantTask::RemovePanel)).len(), 1);
    let told = |news, before, after| {
        assistant_events(news, before, after, &vec![1], &vec![thread(1), thread(2)])
    };
    assert_eq!(
        told(AssistantNews::UserPrompt, None, Some(2)),
        vec![AssistantEvent::MessageReceived { thread: 2, entry_id: 0, kind: MessageKind::UserPrompt }]
    );
    assert_eq!(message_kind_label(MessageKind::UserPrompt), "user_prompt");
    assert!(told(AssistantNews::UserPrompt, Some(1), None).is_empty());
    assert_eq!(
        told(AssistantNews::Closed, Some(1), None),
        vec![AssistantEvent::ThreadClosed { thread: 1 }]
    );
    assert!(told(AssistantNews::Closed, None, Some(2)).is_empty());
    assert_eq!(
        told(AssistantNews::NewThreads, None, None),
        vec![AssistantEvent::ThreadCreated(thread(2))]
    );
    let attached = AssistantNews::ContextChanged { attached: true, kind: ContextKind::File };
    assert_eq!(
        told(attached, Some(1), Some(2)),
        vec![AssistantEvent::ContextChanged { thread: 2, attached: true, kind: ContextKind::File }]
    );
    assert!(told(attached, Some(1), None).is_empty());
}

#[test]
fn assistant_changes_are_remembered_and_shown() {
    let steps = apply_assistant_change(AssistantChange::Activate { open_panel: true }, Ok(()));
    match &steps[..] {
        [AssistantStep::ApplyEffects, AssistantStep::PersistLayout, AssistantStep::OpenPanel, AssistantStep::SetStatus(note)] => {
            assert_eq!(note.text(), "Activated assistant history thread")
        }
        other => panic!("{:?}", other),
    }
    let connect = AssistantChange::Connect { command: "agent".to_string(), open_panel: false };
    match &apply_assistant_change(connect, Err("gone".to_string()))[..] {
        [AssistantStep::SetError(note)] => assert_eq!(note.text(), "Agent failed: gone"),
        other => panic!("{:?}", other),
    }
    assert!(!apply_cancel_active_assistant_thread(true).is_empty());
    assert!(apply_open_changes(true, true).is_none());
    assert_eq!(
        apply_open_changes(false, true).unwrap().text(),
        "Selected entry has no turn changes"
    );
    assert_eq!(loaded_history_thread(Ok(Some(3))).unwrap(), 3);
    let missing: Result<Option<u8>, String> = Ok(None);
    assert!(matches!(loaded_history_thread(missing), Err(AssistantNote::RecordMissing)));
    assert_eq!(bootstrap_threads(&vec![4, 5], Some(5)), vec![(4, false), (5, true)]);
    assert_eq!(apply_remove_assistant_panel(&vec![(1, true), (2, false), (3, true)]), vec![1, 3]);
}

#[test]
fn kind_matches_the_kind_and_its_sub_kinds_only() {
    assert!(kind_matches(Some("source.fixAll"), "source.fixAll"));
    assert!(kind_matches(Some("source.fixAll.eslint"), "source.fixAll"));
    assert!(!kind_matches(Some("source.fixAllOther"), "source.fixAll"));
    assert!(!kind_matches(Some("source.organizeImports"), "source.fixAll"));
    assert!(!kind_matches(None, "source.fixAll"));
}

fn kinds() -> VecDeque<String> {
    VecDeque::from(vec!["source.a".to_string(), "source.b".to_string()])
}

#[test]
fn actions_on_save_are_asked_for_in_turn() {
    let asked = Asked { document_exists: true, server_exists: true };
    let mut left = kinds();
    match next_step(asked, &mut left, &vec![false, true]) {
        SaveStep::Request { kind } => assert_eq!(kind, "source.b"),
        other => panic!("{:?}", other),
    }
    assert!(left.is_empty());
    assert!(matches!(next_step(asked, &mut left, &vec![]), SaveStep::Finish));
    let gone = Asked { document_exists: false, server_exists: true };
    assert!(matches!(next_step(gone, &mut kinds(), &vec![true, true]), SaveStep::Finish));
}

fn save_action(kind: &str, edit: Option<&'static str>, disabled: bool) -> SaveAction<&'static str> {
    SaveAction { is_action: true, disabled, kind: Some(kind.to_string()), edit }
}

#[test]
fn actions_without_an_edit_are_resolved() {
    let offered = || {
        vec![
            save_action("source.fixAll", Some("edit"), false),
            save_action("source.fixAll.eslint", None, false),
            save_action("source.fixAll", Some("other"), true),
            save_action("quickfix", Some("other"), false),
        ]
    };
    let steps = on_response(Some(3), 3, true, true, "source.fixAll", offered());
    assert!(matches!(steps[..], [ResolveStep::Ready("edit"), ResolveStep::Resolve(1)]));
    assert!(on_response(Some(4), 3, true, true, "source.fixAll", offered()).is_empty());
    assert!(on_resolved(Some(3), 3));
    assert!(!on_resolved(None, 3));
    assert!(matches!(on_done(true, Some(7), true), FinishStep::Format { version: 7 }));
    assert!(matches!(on_done(false, Some(7), true), FinishStep::Save));
    assert!(matches!(on_done(true, None, true), FinishStep::Save));
}

#[test]
fn edits_to_other_files_are_left_out() {
    let parts = || {
        vec![
            EditPart { file: Some(path("w/a.rs")), edits: vec![1, 2] },
            EditPart { file: Some(path("w/b.rs")), edits: vec![3] },
            EditPart { file: Some(path("w/a.rs")), edits: vec![4] },
        ]
    };
    let own = edits_for_document(parts(), &path("w/a.rs"));
    assert_eq!(own.edits, vec![1, 2, 4]);
    assert!(own.other_files);
    assert_eq!(apply_to_document(Some(&path("w/b.rs")), parts()).unwrap().edits, vec![3]);
    assert!(apply_to_document(Some(&path("w/c.rs")), parts()).is_none());
    assert!(apply_to_document(None, parts()).is_none());
}

#[test]
fn deferred_apply_edit_reply_uses_typed_work_scheduling_and_preserves_failure_details() {
    let success = apply_workspace_edit_response(Ok(()));
    assert!(success.applied);
    assert_eq!(success.failure_reason, None);
    assert_eq!(success.failed_change, None);

    let failure = apply_workspace_edit_response(Err(WorkspaceEditBatchError {
        message: "resource operation failed".to_owned(),
        failed_change_idx: Some(4),
    }));
    assert!(!failure.applied);
    assert_eq!(failure.failure_reason.as_deref(), Some("resource operation failed"));
    assert_eq!(failure.failed_change, Some(4));
}

#[test]
fn server_resource_operations_do_not_request_will() {
    assert!(!FileOperationOrigin::workspace_edit().requests_lsp_will());
    assert!(FileOperationOrigin::Command.requests_lsp_will());
}

#[test]
fn operation_description_uses_resolved_worker_paths() {
    assert_eq!(describe_success(FileOperation::Copy, &vec![path("to")]), "Copied: to");
    assert_eq!(describe_success(FileOperation::Delete { trash: true }, &vec![]), "Moved to trash");
    assert_eq!(
        describe_success(FileOperation::Move, &vec![path("a"), path("w/b")]),
        "Moved: w/b"
    );
}

#[test]
fn file_operations_ask_servers_first() {
    let command = FileOperationOrigin::Command;
    assert!(matches!(apply_inspected(false, true, command, true), InspectedStep::Fail));
    assert!(matches!(apply_inspected(true, false, command, true), InspectedStep::Ignore));
    assert!(matches!(apply_inspected(true, true, command, true), InspectedStep::AskServers));
    assert!(matches!(apply_inspected(true, true, command, false), InspectedStep::Mutate));
    let edit = FileOperationOrigin::WorkspaceEdit { batch: None };
    assert!(matches!(apply_inspected(true, true, edit, true), InspectedStep::Mutate));
    let answers =
        collect_will_answers(vec![Ok(Some("a")), Ok(None), Err("timeout".to_string()), Ok(Some("b"))]);
    assert_eq!(answers.edits, vec!["a", "b"]);
    assert_eq!(answers.errors, vec!["timeout".to_string()]);
    assert!(matches!(advance_will_workspace_edits(true, None), AdvanceStep::PrepareNextEdit));
    assert!(matches!(
        advance_will_workspace_edits(false, Some(EditsDone::Mutate)),
        AdvanceStep::Mutate
    ));
    assert!(matches!(advance_will_workspace_edits(false, None), AdvanceStep::Nothing));
}

#[test]
fn documents_move_with_their_directory() {
    let mut documents = vec![
        DocumentPath { id: 1, path: Some(path("w/old/src/a.rs")) },
        DocumentPath { id: 2, path: Some(path("w/other.rs")) },
        DocumentPath { id: 3, path: None },
    ];
    update_open_document_paths(
        &mut documents,
        &vec![
            FileOperationChange::Create { path: path("w/new"), is_dir: true },
            FileOperationChange::Move { from: path("w/old"), to: path("w/new"), is_dir: true },
            FileOperationChange::Move {
                from: path("w/other.rs"),
                to: path("w/renamed.rs"),
                is_dir: false,
            },
        ],
    );
    assert_eq!(documents[0].path, Some(path("w/new/src/a.rs")));
    assert_eq!(documents[1].path, Some(path("w/renamed.rs")));
    assert_eq!(documents[2].path, None);
}

#[test]
fn completions_are_told_to_who_asked() {
    match notify_completion(FileOperationOrigin::Command, Err("denied".to_string())) {
        CompletionNotice::Error(note) => assert_eq!(note.text(), "denied"),
        other => panic!("{:?}", other),
    }
    let edit = FileOperationOrigin::WorkspaceEdit { batch: None };
    match notify_completion(edit, Err("denied".to_string())) {
        CompletionNotice::Error(note) => {
            assert_eq!(note.text(), "workspace file operation failed: denied")
        }
        other => panic!("{:?}", other),
    }
    let batch = FileOperationOrigin::WorkspaceEdit { batch: Some(1) };
    assert!(matches!(
        notify_completion(batch, Err("denied".to_string())),
        CompletionNotice::Nobody
    ));
    let steps = apply_completion(true, false, false);
    assert!(steps.iter().any(|step| matches!(step, CompletionStep::MoveDocuments)));
    assert!(!apply_completion(false, false, false)
        .iter()
        .any(|step| matches!(step, CompletionStep::MoveDocuments)));
}

#[test]
fn finished_edits_are_answered_or_go_on() {
    let error = || WorkspaceEditBatchError { message: "bad".to_string(), failed_change_idx: None };
    let reply = || WorkspaceEditContinuation::ApplyEditReply { server_id: 2, request: "r" };
    assert!(matches!(
        apply_workspace_edit_batch_completion(Some(reply()), Err(error()), true),
        BatchStep::Reply { server_id: 2, request: "r", result: Err(_) }
    ));
    let nothing: BatchStep<&str> = apply_workspace_edit_batch_completion(None, Ok(()), true);
    assert!(matches!(nothing, BatchStep::Nothing));
    let prepared: PreparedStep<&str, &str> =
        apply_workspace_edit_prepared(Some(4), false, None, Ok("plan"));
    assert!(matches!(prepared, PreparedStep::Ignore));
    let prepared: PreparedStep<&str, &str> =
        apply_workspace_edit_prepared(None, false, None, Ok("plan"));
    assert!(matches!(prepared, PreparedStep::Execute { plan: "plan", continuation: None }));
}

#[test]
fn batches_of_edits_are_carried_on() {
    let step = |dispatch| apply_workspace_edit_execution_update(dispatch, true);
    let rename = WorkspaceEditExecutionDispatch::EnqueueResource("rename");
    assert!(matches!(step(rename), ExecutionStep::Submit("rename")));
    assert!(matches!(step(WorkspaceEditExecutionDispatch::Drive), ExecutionStep::Drive));
    assert!(matches!(step(WorkspaceEditExecutionDispatch::Advance(6)), ExecutionStep::Advance(6)));
    let over = || WorkspaceEditExecutionDispatch::Complete {
        continuation: Some(WorkspaceEditContinuation::ApplyEditReply { server_id: 2, request: "r" }),
        result: Ok(()),
    };
    assert!(matches!(
        step(over()),
        ExecutionStep::Complete(BatchStep::Reply { server_id: 2, request: "r", result: Ok(()) })
    ));
    assert!(matches!(
        apply_workspace_edit_execution_update(over(), false),
        ExecutionStep::Complete(BatchStep::Nothing)
    ));
    assert_eq!(
        task_failed(FileWork::Inspection, "gone"),
        "file operation inspection task failed: gone"
    );
    assert_eq!(task_failed(FileWork::Mutation, "gone"), "file operation mutation task failed: gone");
}

#[test]
fn absolute_paths_are_told_as_they_are() {
    let absolute = vec!["/".to_string(), "w".to_string(), "a.rs".to_string()];
    let told = |paths: Vec<Vec<String>>| describe_success(FileOperation::Create, &paths);
    assert_eq!(told(vec![absolute]), "Created: /w/a.rs");
    assert_eq!(told(vec![vec!["/".to_string()]]), "Created: /");
    assert_eq!(told(vec![path("w/a.rs")]), "Created: w/a.rs");
}

#[test]
fn plugins_are_served_by_the_host_of_the_request() {
    assert!(matches!(request_host(PluginRequestKind::Notify), PluginHost::Ui));
    assert!(matches!(response_kind(PluginRequestKind::FocusedDocument), ResponseKind::OptionDocumentHandle));
    let step = |kind, stage: ServiceStage<&'static str, &'static str>| {
        service_plugin_host_request(kind, stage)
    };
    let text = PluginRequestKind::DocumentText;
    assert!(matches!(step(text, ServiceStage::Start), ServiceStep::Meet(PluginHost::Query)));
    match step(text, ServiceStage::Met(Ok("x"))) {
        ServiceStep::Respond(Ok(response)) => {
            assert!(matches!(response.kind, ResponseKind::DocumentText));
            assert_eq!(response.value, "x");
        }
        other => panic!("{:?}", other),
    }
    assert!(matches!(
        step(text, ServiceStage::Met(Err("no"))),
        ServiceStep::Respond(Err("no"))
    ));
    let panel = PluginRequestKind::RegisterPanel;
    assert!(matches!(step(panel, ServiceStage::Start), ServiceStep::NotePlugin));
    assert!(matches!(step(panel, ServiceStage::Noted(Ok(()))), ServiceStep::LockState));
    assert!(matches!(
        step(panel, ServiceStage::Noted(Err("unknown"))),
        ServiceStep::Respond(Err("unknown"))
    ));
    assert!(matches!(
        step(panel, ServiceStage::Locked(Ok(()))),
        ServiceStep::Meet(PluginHost::Panel)
    ));
    assert!(matches!(
        step(panel, ServiceStage::Locked(Err("busy"))),
        ServiceStep::Respond(Err("busy"))
    ));
    let float = PluginRequestKind::CreateFloat;
    assert!(matches!(step(float, ServiceStage::Start), ServiceStep::NotePlugin));
    assert!(matches!(
        step(float, ServiceStage::Noted(Ok(()))),
        ServiceStep::Meet(PluginHost::Mutation)
    ));
    assert!(matches!(
        step(PluginRequestKind::Notify, ServiceStage::Start),
        ServiceStep::LockState
    ));
    let task = PluginRequest::StartTask(PluginTaskKind::SetTheme);
    let steps: Vec<HostStep<&str>> = apply_plugin_host_request(task, Stage::Start(Ok(())));
    assert!(!steps.is_empty());
    let service = PluginRequest::Service(PluginRequestKind::Log);
    let steps: Vec<HostStep<&str>> = apply_plugin_host_request(service, Stage::Start(Ok(())));
    assert!(matches!(steps[0], HostStep::Service));
    assert!(matches!(plugin_open_action(true), OpenAction::Replace));
    assert!(matches!(plugin_open_action(false), OpenAction::Load));
}

#[test]
fn notifications_become_events() {
    let context = |focused_view| NotificationContext {
        language: Some("rust".to_string()),
        focused_view,
        cursor: Some((2, 3)),
        mode: "normal".to_string(),
    };
    let opened = PluginNotification::BufferOpen { document: 1, path: None };
    match notification_to_event(opened, context(None)) {
        Some(PluginEvent::DocumentOpened { document: 1, path: None, language }) => {
            assert_eq!(language, Some("rust".to_string()))
        }
        other => panic!("{:?}", other),
    }
    let moved = || PluginNotification::SelectionChange { document: 1 };
    match notification_to_event(moved(), context(Some(9))) {
        Some(PluginEvent::SelectionChanged { document: 1, view: 9, cursor: (2, 3) }) => {}
        other => panic!("{:?}", other),
    }
    assert!(notification_to_event(moved(), context(None)).is_none());
}

#[test]
fn every_server_is_told_of_every_change() {
    let changes = vec![
        FileOperationChange::Create { path: vec!["a".to_string()], is_dir: false },
        FileOperationChange::Delete { path: vec!["b".to_string()], is_dir: true },
    ];
    assert_eq!(
        notify_language_servers(&changes, &vec![7, 9], &vec![path("a"), path("b")]),
        vec![
            ChangeNotice::Server { server: 7, change: 0 },
            ChangeNotice::Server { server: 9, change: 0 },
            ChangeNotice::Server { server: 7, change: 1 },
            ChangeNotice::Server { server: 9, change: 1 },
            ChangeNotice::PathChanged(0),
            ChangeNotice::PathChanged(1),
        ]
    );
    assert!(notify_language_servers(&changes, &Vec::new(), &Vec::new()).is_empty());
}

#[test]
fn steps_of_sessions_and_answers_go_to_those_they_concern() {
    let step = RuntimeTaskEvent::Debugger(DapTask::Restarted);
    assert!(matches!(actions(step)[..], [EditorAction::Debugger(DapTask::Restarted)]));
    let answer = RuntimeTaskEvent::LanguageServer(LspTask::ApplyCodeAction {
        workspace_edit: None,
        command: Some("run"),
    });
    assert!(matches!(
        actions(answer)[..],
        [EditorAction::LanguageServer(LspTask::ApplyCodeAction { command: Some("run"), .. })]
    ));
    let mutated = RuntimeTaskEvent::FileOperation(FileTask::Mutated("outcome"));
    assert!(matches!(
        actions(mutated)[..],
        [EditorAction::FileOperation(FileTask::Mutated("outcome"))]
    ));
}

#[test]
fn formatting_while_typing_needs_the_same_document() {
    let format = |view_id, expected_version| {
        actions(RuntimeTaskEvent::ApplyOnTypeFormatting {
            doc_id: 1,
            view_id,
            expected_version,
            edits: "e",
        })
    };
    let state = editor(false);
    let version = state.documents[0].version;
    assert!(matches!(
        format(10, version)[..],
        [
            EditorAction::ApplyEdits { doc: 1, view: 10, edits: "e" },
            EditorAction::AppendChangesToHistory { .. },
            EditorAction::EnsureCursorInView { .. }
        ]
    ));
    assert!(format(10, version + 1).is_empty());
    assert!(format(99, version).is_empty());
}

#[test]
fn ended_operations_are_dealt_with_before_the_next() {
    assert_eq!(
        apply_mutated(Some(2)),
        vec![EndedStep::Complete(0), EndedStep::Complete(1), EndedStep::Drive]
    );
    assert!(apply_mutated(None).is_empty());
    assert_eq!(apply_will_completed(true, true, true, None), AdvanceStep::PrepareNextEdit);
    assert_eq!(apply_will_completed(true, false, true, None), AdvanceStep::Nothing);
    assert_eq!(
        apply_will_completed(true, true, false, Some(EditsDone::Mutate)),
        AdvanceStep::Mutate
    );
}

#[test]
fn texts_are_placed_in_ascending_order() {
    assert!(text_precedes("", "a"));
    assert!(text_precedes("Zig", "ada"));
    assert!(text_precedes("go", "go-mod"));
    assert!(!text_precedes("rust", "rust"));
    assert!(!text_precedes("rust", "ruby"));
    assert!(text_precedes("z", "\u{e9}"));

    let mut names: Vec<String> = Vec::new();
    for name in ["rust", "ada", "go-mod", "rust", "go"] {
        place_text(&mut names, name);
    }
    assert_eq!(names, ["ada", "go", "go-mod", "rust"]);
}
