use helix_term::collections::IdMap;
use helix_term::effect::{LspFeatureRefreshEvent, LspFeatureRefreshKind};
use helix_term::handlers::auto_reload::{batch, setup_file_watcher, should_watch, AutoReloadEvent};
use helix_term::handlers::auto_save::{on_document_change, AutoSaveEvent, AutoSaveHandler};
use helix_term::handlers::blame::{
    after_config_change, merge_pending_blame, BlameEvent, BlameHandler, BLAME_DEBOUNCE,
};
use helix_term::handlers::completion::request::{
    sort_offered_items, CompletionEvent, CompletionHandler, OfferedItem, OfferedItems, TriggerKind,
    TRIGGER_CHAR_DELAY,
};
use helix_term::handlers::completion::resolve::{
    ensure_item_resolved, resolved_item, ItemDetails, LatestRequest, LspCompletionItem,
    ResolveDecision, ResolveTimeout, RESOLVE_DELAY,
};
use helix_term::handlers::completion::{
    handle_response, replace_completions, ProviderResponse, ReplaceStep,
};
use helix_term::handlers::debounce::{deadline_after, due};
use helix_term::handlers::document_colors::{
    after_server_exit, refreshes_colors, DocumentColorsHandler,
};
use helix_term::handlers::local::{
    clear_completions, mode_switch, post_command, post_insert_char, update_completion_filter,
    LocalAction,
};
use helix_term::handlers::lsp_features::{
    code_lens_scope, on_server_exited, LspFeatureRefreshHandler, Shown,
};
use helix_term::handlers::pkg::{
    resolve_missing_server, CapabilityStatus, MissingCapabilityKey, MissingServer,
    MissingServerStep, PkgHandler,
};
use helix_term::handlers::signature_help::{
    retriggers_on_change, signature_help_post_insert_char_hook, SignatureHelpEvent,
    SignatureHelpHandler, State, TIMEOUT,
};
use helix_term::handlers::snippet::{ends_snippet, SnippetEvent};
use helix_term::handlers::workspace_trust::{
    choice_label, choice_saved, layer_id, on_choice, on_document_open, prompt_message,
    saving_failed, stale_message, ChoiceStep, OpenedDocument, TrustChoice, TrustStatus, TrustStep,
};
use helix_term::keymap::key::Mode;
use helix_term::keymap::trie::{CommandKind, CommandScope, MappableCommand};

fn blame(path: &str, line: Option<u32>) -> BlameEvent {
    BlameEvent { path: path.to_string(), doc_id: 1, line }
}

#[test]
fn automatic_refresh_does_not_erase_pending_line_request() {
    let doc_id = 1;
    let mut pending = IdMap::new();
    merge_pending_blame(&mut pending, blame("old", None));
    merge_pending_blame(&mut pending, blame("manual", Some(12)));
    merge_pending_blame(&mut pending, blame("automatic", None));

    let request = pending.get(doc_id).expect("request should be retained");
    assert_eq!(request.path, "manual");
    assert_eq!(request.line, Some(12));
}

#[test]
fn blame_is_fetched_after_a_pause() {
    let mut handler = BlameHandler::new();
    handler.event(blame("a", None), 100);
    assert!(handler.tick(100 + BLAME_DEBOUNCE - 1).is_empty());
    handler.event(blame("b", None), 120);
    assert!(handler.tick(100 + BLAME_DEBOUNCE).is_empty());
    let fetched = handler.tick(120 + BLAME_DEBOUNCE);
    assert_eq!(fetched.len(), 1);
    assert_eq!(fetched[0].path, "b");
    assert!(handler.tick(1000).is_empty());
    let documents = vec![(1, Some("a".to_string())), (2, None)];
    assert_eq!(after_config_change(false, true, &documents).len(), 1);
    assert!(after_config_change(true, true, &documents).is_empty());
}

#[test]
fn missing_server_events_have_stable_deduplication_identity() {
    let key = || MissingCapabilityKey {
        server: "rust-analyzer".to_owned(),
        language: "rust".to_owned(),
        command: "rust-analyzer".to_owned(),
        config_generation: 3,
        runtime_generation: 7,
    };
    let mut handled = PkgHandler::new();

    assert!(handled.insert(key()));
    assert!(!handled.insert(key()));
    let mut newer = key();
    newer.runtime_generation = 8;
    assert!(handled.insert(newer));
}

#[test]
fn missing_servers_are_suggested_or_installed() {
    let status = |usable| Some(CapabilityStatus { usable, package: Some("pkg".to_string()) });
    let missing = || MissingServer {
        documents: vec![4, 5],
        server: "rust".to_string(),
        command: "ra".to_string(),
    };
    let resolve = |status, auto| resolve_missing_server(status, auto, missing());
    match resolve(status(true), false) {
        MissingServerStep::Refresh { documents } => assert_eq!(documents, vec![4, 5]),
        other => panic!("{:?}", other),
    }
    match resolve(status(false), true) {
        MissingServerStep::Install { package, missing } => {
            assert_eq!(package, "pkg");
            assert_eq!((missing.server.as_str(), missing.command.as_str()), ("rust", "ra"));
            assert_eq!(missing.documents, vec![4, 5]);
        }
        other => panic!("{:?}", other),
    }
    match resolve(status(false), false) {
        MissingServerStep::Suggest { command, package } => {
            assert_eq!((command.as_str(), package.as_str()), ("ra", "pkg"))
        }
        other => panic!("{:?}", other),
    }
    assert!(matches!(resolve(None, true), MissingServerStep::Nothing));
    let text = MissingServerStep::suggestion("ra", "pkg");
    assert_eq!(text, "ra not installed - :pkg-install pkg");
}

#[test]
fn matching_completion_updates_pending_request_state() {
    let mut handler = SignatureHelpHandler::new();
    let request = handler.ids.next_request();
    handler.request = Some(request);
    handler.state = State::Pending;
    handler.cancel = Some(request);

    let step = handler.event(SignatureHelpEvent::RequestComplete { request, open: true }, 0);
    assert!(step.send.is_none());
    assert!(handler.deadline.is_none());
    assert_eq!(handler.state, State::Open);
    assert_eq!(handler.request, None);
    assert!(handler.cancel.is_none());
}

#[test]
fn idle_handlers_of_signatures_do_nothing() {
    let mut handler = SignatureHelpHandler::new();
    assert!(handler.tick(1000).is_none());
    handler.event(SignatureHelpEvent::Trigger, 0);
    assert!(handler.tick(TIMEOUT - 1).is_none());
    assert!(handler.tick(TIMEOUT).is_some());
    assert!(handler.tick(2 * TIMEOUT).is_none());
    handler.event(SignatureHelpEvent::Trigger, 5000);
    handler.event(SignatureHelpEvent::Cancel, 5001);
    assert_eq!(handler.state, State::Closed);
    assert!(handler.tick(9000).is_none());
    let triggers = vec!["(".to_string()];
    assert!(signature_help_post_insert_char_hook(true, Some(&triggers), &['f', '(']));
    assert!(!signature_help_post_insert_char_hook(true, Some(&triggers), &['f']));
    assert!(!signature_help_post_insert_char_hook(false, Some(&triggers), &['(']));
    assert!(retriggers_on_change(true, false));
    assert!(!retriggers_on_change(true, true));
}

#[test]
fn waits_are_put_off_and_end() {
    assert_eq!(deadline_after(10, 5), 15);
    assert_eq!(deadline_after(u64::MAX, 5), u64::MAX);
    assert!(due(Some(15), 15));
    assert!(!due(Some(15), 14));
    assert!(!due(None, 14));
}

#[test]
fn changes_are_saved_after_resting() {
    let mut handler = AutoSaveHandler::new();
    assert!(!handler.event(AutoSaveEvent::DocumentChanged { save_after: 30 }, 100));
    assert!(!handler.event(AutoSaveEvent::DocumentChanged { save_after: 30 }, 110));
    assert!(!handler.tick(130));
    assert!(handler.tick(140));
    assert!(!handler.tick(200));
    handler.set_pending(true);
    assert!(handler.event(AutoSaveEvent::LeftInsertMode, 300));
    assert!(on_document_change(false, 30).is_none());
    assert!(on_document_change(true, 30).is_some());
}

#[test]
fn changed_files_are_reloaded_together() {
    let changed = |ids: &[u64]| AutoReloadEvent::DocumentsChanged { doc_ids: ids.to_vec() };
    assert_eq!(batch(&vec![changed(&[3, 1]), changed(&[1, 2])]), Some(vec![1, 2, 3]));
    assert_eq!(batch(&vec![AutoReloadEvent::LeftInsertMode]), Some(vec![]));
    assert_eq!(batch(&vec![]), None);
    assert!(setup_file_watcher(true, true));
    assert!(!setup_file_watcher(true, false));
    assert!(should_watch(true, true));
    assert!(!should_watch(true, false));
}

#[test]
fn refreshes_are_gathered_per_document() {
    let mut colors = DocumentColorsHandler::new();
    colors.event(2, 0);
    colors.event(1, 10);
    colors.event(2, 20);
    assert_eq!(colors.tick(200), None);
    let mut gathered = colors.tick(270).unwrap();
    gathered.sort();
    assert_eq!(gathered, vec![1, 2]);
    assert_eq!(colors.tick(1000), None);
    assert!(refreshes_colors(false));
    assert!(!refreshes_colors(true));
    assert_eq!(after_server_exit(&vec![(1, true), (2, false)]), vec![1]);

    let event = LspFeatureRefreshEvent { doc_id: 1, kind: LspFeatureRefreshKind::CodeLens };
    let mut features = LspFeatureRefreshHandler::new();
    features.event(event, 0);
    features.event(event, 0);
    assert_eq!(features.tick(250).unwrap().len(), 1);
}

#[test]
fn completions_are_asked_for_after_the_last_key() {
    let mut handler = CompletionHandler::new();
    let auto = |cursor| CompletionEvent::AutoTrigger { cursor, doc: 1, view: 2 };
    handler.event(auto(4), 100, 0);
    assert!(handler.tick(99).is_none());
    let trigger = handler.tick(100).unwrap();
    assert_eq!(trigger.pos, 4);
    assert!(matches!(trigger.kind, TriggerKind::Auto));
    handler.event(CompletionEvent::TriggerChar { cursor: 5, doc: 1, view: 2 }, 100, 200);
    assert!(matches!(
        handler.tick(200 + TRIGGER_CHAR_DELAY).unwrap().kind,
        TriggerKind::TriggerChar
    ));
    handler.event(auto(6), 100, 300);
    handler.event(CompletionEvent::DeleteText { cursor: 5 }, 100, 310);
    assert!(handler.tick(1000).is_none());
    handler.event(auto(6), 100, 2000);
    handler.event(CompletionEvent::Cancel, 100, 2010);
    assert!(handler.tick(9000).is_none());
}

#[test]
fn offered_items_are_sorted_by_their_sort_text() {
    let item = |label: &str, sort_text: Option<&str>| OfferedItem {
        label: label.to_string(),
        sort_text: sort_text.map(|text| text.to_string()),
        item: label.to_string(),
    };
    let offered = OfferedItems::List {
        is_incomplete: true,
        items: vec![item("beta", None), item("zeta", Some("a")), item("alpha", Some("c"))],
    };
    let sorted = sort_offered_items(Some(offered));
    let labels: Vec<&str> = sorted.items.iter().map(|(_, item)| item.as_str()).collect();
    assert_eq!(labels, vec!["zeta", "beta", "alpha"]);
    assert!(sorted.is_incomplete);
    let nothing: Option<OfferedItems<u8>> = None;
    assert!(sort_offered_items(nothing).items.is_empty());
}

#[test]
fn incomplete_lists_are_replaced() {
    let response = |is_incomplete, empty| ProviderResponse { is_incomplete, empty };
    assert_eq!(handle_response(&vec![response(false, true), response(false, false)], false), Some(1));
    assert_eq!(handle_response(&vec![response(false, true)], false), None);
    assert!(matches!(replace_completions(true, response(false, false), true), ReplaceStep::Stop));
    assert!(matches!(replace_completions(false, response(false, false), false), ReplaceStep::Show));
}

#[test]
fn items_are_resolved_one_at_a_time() {
    let details = |n| ItemDetails { documentation: n, detail: n, additional_text_edits: n };
    assert!(matches!(
        ensure_item_resolved(true, details(None), false, true, true),
        ResolveDecision::Nothing
    ));
    assert!(matches!(
        ensure_item_resolved(false, details(None), false, true, true),
        ResolveDecision::Request
    ));
    assert!(matches!(
        ensure_item_resolved(false, details(Some(3)), false, true, true),
        ResolveDecision::MarkResolved
    ));
    let mut timeout = ResolveTimeout::new();
    timeout.handle_resolve(1, 0);
    let step = timeout.tick(RESOLVE_DELAY);
    assert_eq!(step.start, Some(1));
    timeout.handle_resolve(2, 1000);
    let mut inbox = LatestRequest::default();
    inbox.cancel();
    let step = timeout.drain_inbox(&mut inbox, 1001);
    assert_eq!(step.cancel, Some(1));
    assert_eq!(timeout.tick(5000).start, None);
    let item = || LspCompletionItem { item: "old", provider: 4, resolved: false };
    let resolved = resolved_item(item(), Ok::<_, &str>("new"));
    assert_eq!((resolved.item, resolved.provider, resolved.resolved), ("new", 4, true));
    let failed = resolved_item(item(), Err("no answer"));
    assert_eq!((failed.item, failed.provider, failed.resolved), ("old", 4, true));
}

#[test]
fn typing_updates_the_completion() {
    assert!(matches!(
        update_completion_filter(Some('x')),
        LocalAction::UpdateCompletionFilter(Some('x'))
    ));
    assert!(matches!(clear_completions(), LocalAction::ClearCompletion));
    let shown = post_insert_char('x', true);
    assert!(shown
        .iter()
        .any(|action| matches!(action, LocalAction::UpdateCompletionFilter(Some('x')))));
    let hidden = post_insert_char('x', false);
    assert!(hidden.iter().any(|action| matches!(action, LocalAction::TriggerAutoCompletion)));
    assert!(!hidden
        .iter()
        .any(|action| matches!(action, LocalAction::UpdateCompletionFilter(_))));
}

#[test]
fn leaving_insert_mode_ends_what_belongs_to_it() {
    let left = mode_switch(Mode::Insert, Mode::Normal, true);
    assert!(left.iter().any(|action| matches!(action, LocalAction::ClearCompletion)));
    assert!(left.iter().any(|action| matches!(action, LocalAction::LeftInsertModeForSave)));
    assert!(left.iter().any(|action| matches!(action, LocalAction::ShowDiagnostics(true))));
    let entered = mode_switch(Mode::Normal, Mode::Insert, true);
    assert!(entered.iter().any(|action| matches!(action, LocalAction::TriggerSignatureHelp)));
    let silent = mode_switch(Mode::Normal, Mode::Insert, false);
    assert!(!silent.iter().any(|action| matches!(action, LocalAction::TriggerSignatureHelp)));
    let command = MappableCommand {
        kind: CommandKind::Frontend,
        name: "goto_definition".to_string(),
        args: String::new(),
        doc: String::new(),
        scope: CommandScope::Frontend,
        component_region: false,
    };
    let steps = post_command(&command, true, true, 4);
    assert!(steps.iter().any(|action| matches!(action, LocalAction::ClearCompletion)));
}

#[test]
fn snippets_end_when_they_no_longer_fit() {
    assert!(ends_snippet(true, SnippetEvent::FocusLost));
    assert!(!ends_snippet(true, SnippetEvent::SelectionChanged { valid: true }));
    assert!(ends_snippet(true, SnippetEvent::DocumentChanged { invalid: true }));
    assert!(!ends_snippet(false, SnippetEvent::DocumentChanged { invalid: true }));
}

#[test]
fn workspaces_are_asked_about_once() {
    let document = |status| OpenedDocument {
        workspace: Some(vec!["home".to_string(), "w".to_string()]),
        status,
        restricted: true,
        prompts_enabled: true,
    };
    let mut prompted = Vec::new();
    assert!(matches!(
        on_document_open(&document(TrustStatus::Other), &mut prompted),
        TrustStep::Prompt
    ));
    assert!(matches!(
        on_document_open(&document(TrustStatus::Other), &mut prompted),
        TrustStep::Nothing
    ));
    assert_eq!(prompted, vec![vec!["home".to_string(), "w".to_string()]]);
    assert!(matches!(
        on_document_open(&document(TrustStatus::Stale), &mut Vec::new()),
        TrustStep::WarnStale
    ));
    assert!(prompt_message(&vec!["home".to_string(), "w".to_string()]).contains("home/w"));
    let absolute = vec!["/".to_string(), "home".to_string(), "w".to_string()];
    assert!(prompt_message(&absolute).contains("\n\n/home/w"));
    assert!(!stale_message().is_empty());
    assert!(saving_failed("disk full").contains("disk full"));
    assert_ne!(choice_label(TrustChoice::Trust), choice_label(TrustChoice::Never));
}

#[test]
fn answers_to_older_questions_change_nothing() {
    let mut handler = SignatureHelpHandler::new();
    let asked = handler.event(SignatureHelpEvent::Invoked, 0).send.unwrap();
    handler.event(SignatureHelpEvent::ReTrigger, 5);
    let pending = handler;
    let late = SignatureHelpEvent::RequestComplete { request: asked.request, open: true };
    handler.event(late, 6);
    assert_eq!(handler, pending);
    assert_ne!(handler.tick(5 + TIMEOUT).unwrap().request, asked.request);
}

#[test]
fn what_a_server_showed_goes_with_it() {
    let cleared = on_server_exited(&vec![(1, true), (2, false), (3, true)]);
    assert_eq!(cleared.len(), 10);
    assert!(cleared.iter().all(|(doc, _)| *doc != 2));
    let first: Vec<Shown> = cleared[..5].iter().map(|(_, shown)| *shown).collect();
    assert_eq!(
        first,
        vec![
            Shown::CodeLenses,
            Shown::DocumentLinks,
            Shown::SemanticTokens,
            Shown::InlineCompletion,
            Shown::CodeLensAnnotations,
        ]
    );
    assert_eq!(code_lens_scope(), "helix-lsp-code-lens");
}

#[test]
fn choices_about_trust_are_saved_and_applied() {
    assert!(on_choice(TrustChoice::Trust, false).is_none());
    assert!(matches!(on_choice(TrustChoice::Trust, true), Some(ChoiceStep::Trust)));
    assert!(matches!(on_choice(TrustChoice::Never, true), Some(ChoiceStep::Exclude)));
    assert!(matches!(choice_saved(Ok(()))[..], [ChoiceStep::RefreshConfig]));
    match &choice_saved(Err("read-only".to_string()))[..] {
        [ChoiceStep::SetError(message), ChoiceStep::RefreshConfig] => assert_eq!(
            message,
            "Saving the workspace trust decision failed (it applies to this session): read-only"
        ),
        other => panic!("{:?}", other),
    }
    assert_eq!(layer_id(), "workspace-trust");
}

#[test]
fn opened_documents_are_looked_up_if_that_is_on() {
    let event = helix_term::handlers::blame::on_document_open(true, 3, "a.rs".to_string()).unwrap();
    assert_eq!((event.doc_id, event.path.as_str(), event.line), (3, "a.rs", None));
    assert!(helix_term::handlers::blame::on_document_open(false, 3, "a.rs".to_string()).is_none());
}
